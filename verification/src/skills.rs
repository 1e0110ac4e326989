use vstd::prelude::*;

use crate::env::Env;
use crate::permissions::{first_index, first_index_of};
use crate::text::{
    chars_of, cviews, find_first, find_first_index, has_char, join, lemma_lex_order,
    lemma_lex_trans, lex_lt, lines, lines_of, lit, slice_vec, split_char, split_chars, starts_with,
    str_eq, string_from_range, trim, trim_bounds, trim_char, trim_char_bounds, trim_end_char,
    trim_end_char_len, trim_start, trim_start_char, trim_start_char_vec, trim_start_vec, views,
};

verus! {

/// Metadata read from the front matter of a skill file.
#[derive(Debug, Clone)]
pub struct SkillMeta {
    pub name: String,
    pub description: String,
    /// When set, the whole skill body goes into the system prompt.
    pub always: bool,
    /// Binaries and environment variables the skill needs.
    pub requires: SkillRequirements,
}

/// What must be present for a skill to be available.
#[derive(Debug, Clone)]
pub struct SkillRequirements {
    pub bins: Vec<String>,
    pub env: Vec<String>,
}

impl Default for SkillRequirements {
    fn default() -> (r: Self)
        ensures
            r.bins@.len() == 0,
            r.env@.len() == 0,
    {
        SkillRequirements { bins: Vec::new(), env: Vec::new() }
    }
}

/// Where a skill was read from.
#[derive(Debug, Clone)]
pub enum SkillSource {
    /// The path of the skill file inside the workspace.
    Workspace(String),
}

/// A skill: its metadata, body, origin and availability.
#[derive(Debug, Clone)]
pub struct Skill {
    pub meta: SkillMeta,
    /// The markdown body that follows the front matter.
    pub body: String,
    pub source: SkillSource,
    /// Whether every requirement is met.
    pub available: bool,
}

/// Finds skills under a workspace directory.
pub struct SkillsLoader {
    workspace_dir: Option<String>,
}

impl SkillsLoader {
    pub fn new(workspace_dir: Option<String>) -> (r: Self)
        ensures
            r.workspace_dir() == workspace_dir,
    {
        SkillsLoader { workspace_dir }
    }

    pub closed spec fn workspace_dir(&self) -> Option<String> {
        self.workspace_dir
    }

    /// The directory the skills are read from, if any.
    pub fn workspace(&self) -> (r: Option<&String>)
        ensures
            r == match self.workspace_dir() {
                Some(d) => Some(&d),
                None => None,
            },
    {
        match &self.workspace_dir {
            Some(d) => Some(d),
            None => None,
        }
    }
}

// ── Inline YAML arrays ──────────────────────────────────────────────────────

/// `s` with surrounding `"` and then `'` removed.
pub open spec fn unquote(s: Seq<char>) -> Seq<char> {
    trim_char(trim_char(s, '"'), '\'')
}

/// The pieces, trimmed and unquoted, that are not empty.
pub open spec fn nonempty_items(parts: Seq<Seq<char>>) -> Seq<Seq<char>>
    decreases parts.len(),
{
    if parts.len() == 0 {
        Seq::empty()
    } else {
        let init = nonempty_items(parts.drop_last());
        let x = unquote(trim(parts.last()));
        if x.len() > 0 {
            init.push(x)
        } else {
            init
        }
    }
}

/// The items of an inline array such as `["git", "gh"]`: the text between
/// the brackets split at commas, each item trimmed and unquoted, empty items
/// dropped.
pub open spec fn yaml_array(value: Seq<char>) -> Seq<Seq<char>> {
    let inner = trim(trim_end_char(trim_start_char(trim(value), '['), ']'));
    nonempty_items(split_char(inner, ','))
}

fn unquote_bounds(v: &[char], lo: usize, hi: usize) -> (r: (usize, usize))
    requires
        lo <= hi <= v@.len(),
    ensures
        lo <= r.0 <= r.1 <= hi,
        v@.subrange(r.0 as int, r.1 as int) == unquote(v@.subrange(lo as int, hi as int)),
{
    let (a, b) = trim_char_bounds(v, lo, hi, '"');
    trim_char_bounds(v, a, b, '\'')
}

/// Parses an inline array such as `["git", "gh"]`.
pub fn parse_yaml_array(value: &str) -> (r: Vec<String>)
    ensures
        views(r@) == yaml_array(value@),
{
    let v = chars_of(value);
    let (a, b) = trim_bounds(v.as_slice(), 0, v.len());
    proof {
        assert(v@.subrange(0, v@.len() as int) == v@);
    }
    let t = slice_vec(v.as_slice(), a, b);
    let t1 = trim_start_char_vec(t.as_slice(), '[');
    let e = trim_end_char_len(t1.as_slice(), t1.len(), ']');
    proof {
        assert(t1@.take(t1@.len() as int) == t1@);
        assert(t1@.subrange(0, e as int) == t1@.take(e as int));
    }
    let (c, d) = trim_bounds(t1.as_slice(), 0, e);
    let inner = slice_vec(t1.as_slice(), c, d);
    let parts = split_chars(inner.as_slice(), ',');
    let mut out: Vec<String> = Vec::new();
    let mut i: usize = 0;
    while i < parts.len()
        invariant
            i <= parts.len(),
            views(out@) == nonempty_items(cviews(parts@).take(i as int)),
        decreases parts.len() - i,
    {
        let p = &parts[i];
        let (x, y) = trim_bounds(p.as_slice(), 0, p.len());
        let (x2, y2) = unquote_bounds(p.as_slice(), x, y);
        proof {
            let q = cviews(parts@).take(i + 1);
            assert(q.drop_last() == cviews(parts@).take(i as int));
            assert(q.last() == p@);
            assert(p@.subrange(0, p@.len() as int) == p@);
        }
        if x2 < y2 {
            let item = string_from_range(p.as_slice(), x2, y2);
            out.push(item);
            proof {
                assert(views(out@) =~= nonempty_items(cviews(parts@).take(i as int)).push(item@));
            }
        }
        i = i + 1;
    }
    proof {
        assert(cviews(parts@).take(parts@.len() as int) == cviews(parts@));
    }
    out
}

// ── Front matter ────────────────────────────────────────────────────────────

/// The fields read so far from a front matter block.
pub struct FrontmatterFields {
    pub name: Option<Seq<char>>,
    pub description: Option<Seq<char>>,
    pub always: bool,
    pub bins: Seq<Seq<char>>,
    pub env: Seq<Seq<char>>,
    /// Whether the last top-level key was `requires:`.
    pub in_requires: bool,
}

pub open spec fn no_fields() -> FrontmatterFields {
    FrontmatterFields {
        name: None,
        description: None,
        always: false,
        bins: Seq::empty(),
        env: Seq::empty(),
        in_requires: false,
    }
}

pub open spec fn is_indented(line: Seq<char>) -> bool {
    line.len() > 0 && (line[0] == ' ' || line[0] == '\t')
}

/// One line of the block: an unindented `key: value` line sets `name`,
/// `description` or `always` (and opens or closes the `requires:` section);
/// inside that section, `bins:` and `env:` lines set the lists.
pub open spec fn scan_line(st: FrontmatterFields, line: Seq<char>) -> FrontmatterFields {
    let t = trim(line);
    if !is_indented(line) && line.contains(':') {
        let in_req = "requires:"@.is_prefix_of(t);
        match first_index(t, ':') {
            Some(k) => {
                let key = trim(t.take(k));
                let value = unquote(trim(t.skip(k + 1)));
                FrontmatterFields {
                    name: if key == "name"@ { Some(value) } else { st.name },
                    description: if key == "description"@ { Some(value) } else { st.description },
                    always: if key == "always"@ { value == "true"@ } else { st.always },
                    bins: st.bins,
                    env: st.env,
                    in_requires: in_req,
                }
            },
            None => FrontmatterFields { in_requires: in_req, ..st },
        }
    } else if st.in_requires {
        match first_index(t, ':') {
            Some(k) => {
                let key = trim(t.take(k));
                let items = yaml_array(trim(t.skip(k + 1)));
                FrontmatterFields {
                    bins: if key == "bins"@ { items } else { st.bins },
                    env: if key == "env"@ { items } else { st.env },
                    ..st
                }
            },
            None => st,
        }
    } else {
        st
    }
}

pub open spec fn scan_lines(ls: Seq<Seq<char>>) -> FrontmatterFields
    decreases ls.len(),
{
    if ls.len() == 0 {
        no_fields()
    } else {
        scan_line(scan_lines(ls.drop_last()), ls.last())
    }
}

/// The front matter block and the body of a skill file: after leading
/// whitespace the text opens with `---`, carriage returns and one newline;
/// the block runs to the first `\n---`, and the body follows it with leading
/// carriage returns, then newlines, removed.
pub open spec fn frontmatter_split(content: Seq<char>) -> Option<(Seq<char>, Seq<char>)> {
    let t = trim_start(content);
    let a = trim_start_char(t.skip(3), '\r');
    if !"---"@.is_prefix_of(t) || a.len() == 0 || a[0] != '\n' {
        None
    } else {
        let rest = a.skip(1);
        match find_first(rest, "\n---"@) {
            Some(e) => Some(
                (
                    rest.take(e),
                    trim_start_char(trim_start_char(rest.skip(e + 4), '\r'), '\n'),
                ),
            ),
            None => None,
        }
    }
}

/// The fields and body of a skill file; `None` without front matter or
/// without a `name`.
#[verifier::opaque]
pub open spec fn frontmatter(content: Seq<char>) -> Option<(FrontmatterFields, Seq<char>)> {
    match frontmatter_split(content) {
        Some((block, body)) => {
            let f = scan_lines(lines(block));
            if f.name is Some {
                Some((f, body))
            } else {
                None
            }
        },
        None => None,
    }
}

/// `meta` holds the fields `f`, with a missing description read as empty.
pub open spec fn meta_holds(meta: SkillMeta, f: FrontmatterFields) -> bool {
    &&& f.name == Some(meta.name@)
    &&& meta.description@ == match f.description {
        Some(d) => d,
        None => Seq::empty(),
    }
    &&& meta.always == f.always
    &&& views(meta.requires.bins@) == f.bins
    &&& views(meta.requires.env@) == f.env
}

struct ScanState {
    name: Option<String>,
    description: Option<String>,
    always: bool,
    bins: Vec<String>,
    env: Vec<String>,
    in_requires: bool,
}

impl ScanState {
    spec fn fields(&self) -> FrontmatterFields {
        FrontmatterFields {
            name: crate::env::opt_view(self.name),
            description: crate::env::opt_view(self.description),
            always: self.always,
            bins: views(self.bins@),
            env: views(self.env@),
            in_requires: self.in_requires,
        }
    }
}

fn scan_top_level(st: &mut ScanState, t: &Vec<char>)
    ensures
        final(st).fields() == (match first_index(t@, ':') {
            Some(k) => {
                let key = trim(t@.take(k));
                let value = unquote(trim(t@.skip(k + 1)));
                FrontmatterFields {
                    name: if key == "name"@ { Some(value) } else { old(st).fields().name },
                    description: if key == "description"@ {
                        Some(value)
                    } else {
                        old(st).fields().description
                    },
                    always: if key == "always"@ { value == "true"@ } else { old(st).fields().always },
                    bins: old(st).fields().bins,
                    env: old(st).fields().env,
                    in_requires: "requires:"@.is_prefix_of(t@),
                }
            },
            None => FrontmatterFields {
                in_requires: "requires:"@.is_prefix_of(t@),
                ..old(st).fields()
            },
        }),
{
    st.in_requires = starts_with(t.as_slice(), lit("requires:").as_slice());
    match first_index_of(t.as_slice(), ':') {
        Some(k) => {
            assert(k < t.len());
            let (ka, kb) = trim_bounds(t.as_slice(), 0, k);
            let key = string_from_range(t.as_slice(), ka, kb);
            let (va, vb) = trim_bounds(t.as_slice(), k + 1, t.len());
            let (qa, qb) = unquote_bounds(t.as_slice(), va, vb);
            let value = string_from_range(t.as_slice(), qa, qb);
            proof {
                assert(t@.subrange(0, k as int) == t@.take(k as int));
                assert(t@.subrange(k + 1, t@.len() as int) == t@.skip(k + 1));
            }
            proof {
                reveal_strlit("name");
                reveal_strlit("description");
                reveal_strlit("always");
                assert("name"@.len() == 4 && "description"@.len() == 11 && "always"@.len() == 6);
            }
            if str_eq(key.as_str(), "name") {
                st.name = Some(value);
            } else if str_eq(key.as_str(), "description") {
                st.description = Some(value);
            } else if str_eq(key.as_str(), "always") {
                st.always = str_eq(value.as_str(), "true");
            }
        },
        None => {},
    }
}

fn scan_requires(st: &mut ScanState, t: &Vec<char>)
    ensures
        final(st).fields() == (match first_index(t@, ':') {
            Some(k) => {
                let key = trim(t@.take(k));
                let items = yaml_array(trim(t@.skip(k + 1)));
                FrontmatterFields {
                    bins: if key == "bins"@ { items } else { old(st).fields().bins },
                    env: if key == "env"@ { items } else { old(st).fields().env },
                    ..old(st).fields()
                }
            },
            None => old(st).fields(),
        }),
{
    match first_index_of(t.as_slice(), ':') {
        Some(k) => {
            assert(k < t.len());
            let (ka, kb) = trim_bounds(t.as_slice(), 0, k);
            let key = string_from_range(t.as_slice(), ka, kb);
            let (va, vb) = trim_bounds(t.as_slice(), k + 1, t.len());
            let value = string_from_range(t.as_slice(), va, vb);
            proof {
                assert(t@.subrange(0, k as int) == t@.take(k as int));
                assert(t@.subrange(k + 1, t@.len() as int) == t@.skip(k + 1));
            }
            let items = parse_yaml_array(value.as_str());
            proof {
                reveal_strlit("bins");
                reveal_strlit("env");
                assert("bins"@.len() == 4 && "env"@.len() == 3);
            }
            if str_eq(key.as_str(), "bins") {
                st.bins = items;
            } else if str_eq(key.as_str(), "env") {
                st.env = items;
            }
        },
        None => {},
    }
}

fn scan_one(st: &mut ScanState, line: &Vec<char>)
    ensures
        final(st).fields() == scan_line(old(st).fields(), line@),
{
    let (a, b) = trim_bounds(line.as_slice(), 0, line.len());
    proof {
        assert(line@.subrange(0, line@.len() as int) == line@);
    }
    let t = slice_vec(line.as_slice(), a, b);
    let indented = line.len() > 0 && (line[0] == ' ' || line[0] == '\t');
    if !indented && has_char(line.as_slice(), ':') {
        scan_top_level(st, &t);
    } else if st.in_requires {
        scan_requires(st, &t);
    }
}

fn split_frontmatter(content: &str) -> (r: Option<(Vec<char>, Vec<char>)>)
    ensures
        match r {
            Some((block, body)) => frontmatter_split(content@) == Some((block@, body@)),
            None => frontmatter_split(content@) is None,
        },
{
    let v = chars_of(content);
    let t = trim_start_vec(v.as_slice());
    let open = lit("---");
    proof {
        reveal_strlit("---");
        reveal_strlit("\n---");
    }
    if !starts_with(t.as_slice(), open.as_slice()) {
        return None;
    }
    let after = slice_vec(t.as_slice(), 3, t.len());
    proof {
        assert(t@.subrange(3, t@.len() as int) == t@.skip(3));
    }
    let a = trim_start_char_vec(after.as_slice(), '\r');
    if a.len() == 0 || a[0] != '\n' {
        return None;
    }
    let rest = slice_vec(a.as_slice(), 1, a.len());
    proof {
        assert(a@.subrange(1, a@.len() as int) == a@.skip(1));
    }
    let close = lit("\n---");
    let e = match find_first_index(rest.as_slice(), close.as_slice()) {
        Some(e) => e,
        None => {
            return None;
        },
    };
    let block = slice_vec(rest.as_slice(), 0, e);
    let tail = slice_vec(rest.as_slice(), e + 4, rest.len());
    proof {
        assert(rest@.subrange(0, e as int) == rest@.take(e as int));
        assert(rest@.subrange(e + 4, rest@.len() as int) == rest@.skip(e + 4));
    }
    let tail1 = trim_start_char_vec(tail.as_slice(), '\r');
    let body = trim_start_char_vec(tail1.as_slice(), '\n');
    Some((block, body))
}

fn scan_block(block: &Vec<char>) -> (r: ScanState)
    ensures
        r.fields() == scan_lines(lines(block@)),
{
    let ls = lines_of(block.as_slice());
    let mut st = ScanState {
        name: None,
        description: None,
        always: false,
        bins: Vec::new(),
        env: Vec::new(),
        in_requires: false,
    };
    proof {
        assert(views(st.bins@) =~= Seq::<Seq<char>>::empty());
        assert(views(st.env@) =~= Seq::<Seq<char>>::empty());
        assert(cviews(ls@).take(0) =~= Seq::<Seq<char>>::empty());
    }
    let mut i: usize = 0;
    while i < ls.len()
        invariant
            i <= ls.len(),
            st.fields() == scan_lines(cviews(ls@).take(i as int)),
        decreases ls.len() - i,
    {
        proof {
            let q = cviews(ls@).take(i + 1);
            assert(q.drop_last() == cviews(ls@).take(i as int));
            assert(q.last() == ls@[i as int]@);
        }
        scan_one(&mut st, &ls[i]);
        i = i + 1;
    }
    proof {
        assert(cviews(ls@).take(ls@.len() as int) == cviews(ls@));
    }
    st
}

/// Parses the front matter of a skill file into its metadata and body.
///
/// The block sits between a leading `---` line and the next `\n---`; its
/// lines are `key: value` pairs (`name`, `description`, `always`) and an
/// indented `requires:` section with `bins:` and `env:` inline arrays.
pub fn parse_frontmatter(content: &str) -> (r: Option<(SkillMeta, String)>)
    ensures
        match r {
            Some((meta, body)) => frontmatter(content@) matches Some((f, b)) && meta_holds(meta, f)
                && body@ == b,
            None => frontmatter(content@) is None,
        },
{
    reveal(frontmatter);
    let (block, body_chars) = match split_frontmatter(content) {
        Some(p) => p,
        None => {
            return None;
        },
    };
    let body = crate::text::string_from(body_chars.as_slice());
    let st = scan_block(&block);
    let ScanState { name, description, always, bins, env, in_requires: _ } = st;
    match name {
        Some(name) => {
            let description = match description {
                Some(d) => d,
                None => String::new(),
            };
            Some((
                SkillMeta { name, description, always, requires: SkillRequirements { bins, env } },
                body,
            ))
        },
        None => None,
    }
}

// ── Requirements and loading ────────────────────────────────────────────────

/// Every required binary is among `found` (the binaries located on `PATH`)
/// and every required variable is set in `env`.
pub open spec fn requirements_met(
    bins: Seq<Seq<char>>,
    vars: Seq<Seq<char>>,
    found: Seq<Seq<char>>,
    env: Env,
) -> bool {
    &&& forall|i: int| 0 <= i < bins.len() ==> found.contains(#[trigger] bins[i])
    &&& forall|i: int| 0 <= i < vars.len() ==> (#[trigger] env.lookup(vars[i])) is Some
}

/// Whether the requirements hold, given the binaries found on `PATH`.
pub fn check_requirements(reqs: &SkillRequirements, found_bins: &Vec<String>, env: &Env) -> (r:
    bool)
    ensures
        r == requirements_met(views(reqs.bins@), views(reqs.env@), views(found_bins@), *env),
{
    let mut i: usize = 0;
    while i < reqs.bins.len()
        invariant
            i <= reqs.bins.len(),
            forall|k: int| 0 <= k < i ==> views(found_bins@).contains(#[trigger] views(reqs.bins@)[k]),
        decreases reqs.bins.len() - i,
    {
        if !crate::text::contains_str(found_bins, reqs.bins[i].as_str()) {
            assert(views(reqs.bins@)[i as int] == reqs.bins@[i as int]@);
            return false;
        }
        i = i + 1;
    }
    let mut j: usize = 0;
    while j < reqs.env.len()
        invariant
            j <= reqs.env.len(),
            forall|k: int| 0 <= k < j ==> (#[trigger] env.lookup(views(reqs.env@)[k])) is Some,
        decreases reqs.env.len() - j,
    {
        if env.get(reqs.env[j].as_str()).is_none() {
            assert(views(reqs.env@)[j as int] == reqs.env@[j as int]@);
            return false;
        }
        j = j + 1;
    }
    true
}

/// The name a skill file declares, when it parses.
pub open spec fn parsed_name(content: Seq<char>) -> Option<Seq<char>> {
    match frontmatter(content) {
        Some((f, _)) => f.name,
        None => None,
    }
}

/// `s` is the skill read from the file at `path` holding `content`.
pub open spec fn skill_from(
    s: Skill,
    path: Seq<char>,
    content: Seq<char>,
    found: Seq<Seq<char>>,
    env: Env,
) -> bool {
    &&& frontmatter(content) matches Some((f, b)) && meta_holds(s.meta, f) && s.body@ == b
    &&& s.source matches SkillSource::Workspace(p) && p@ == path
    &&& s.available == requirements_met(
        views(s.meta.requires.bins@),
        views(s.meta.requires.env@),
        found,
        env,
    )
}

/// Reads a skill file; `None` when it has no front matter or no name.
pub fn parse_skill(content: &str, source: SkillSource, found_bins: &Vec<String>, env: &Env) -> (r:
    Option<Skill>)
    ensures
        match r {
            Some(s) => (source matches SkillSource::Workspace(p) && skill_from(
                s,
                p@,
                content@,
                views(found_bins@),
                *env,
            )),
            None => frontmatter(content@) is None,
        },
{
    let (meta, body) = match parse_frontmatter(content) {
        Some(p) => p,
        None => {
            return None;
        },
    };
    let available = check_requirements(&meta.requires, found_bins, env);
    Some(Skill { meta, body, source, available })
}

/// Skills in strictly increasing order of name.
pub open spec fn sorted_by_name(sk: Seq<Skill>) -> bool {
    forall|i: int, j: int|
        0 <= i < j < sk.len() ==> lex_lt(#[trigger] sk[i].meta.name@, #[trigger] sk[j].meta.name@)
}

/// No file after index `j` of `files` declares the name `n`.
pub open spec fn last_with_name(files: Seq<(String, String)>, j: int, n: Seq<char>) -> bool {
    forall|k: int| j < k < files.len() ==> parsed_name(#[trigger] files[k].1@) != Some(n)
}

/// `s` was read from a file of `files` that no later file overrides.
pub open spec fn read_from_last(
    s: Skill,
    files: Seq<(String, String)>,
    found: Seq<Seq<char>>,
    env: Env,
) -> bool {
    exists|j: int|
        0 <= j < files.len() && #[trigger] skill_from(s, files[j].0@, files[j].1@, found, env)
            && last_with_name(files, j, s.meta.name@)
}

/// `r` is what `load_all` gives for the skill files `files`, each a path and
/// its content: one skill per declared name, read from the last file that
/// declares it, sorted by name.
pub open spec fn loaded_from(
    r: Seq<Skill>,
    files: Seq<(String, String)>,
    found: Seq<Seq<char>>,
    env: Env,
) -> bool {
    &&& sorted_by_name(r)
    &&& forall|q: int| 0 <= q < r.len() ==> read_from_last(#[trigger] r[q], files, found, env)
    &&& forall|j: int|
        0 <= j < files.len() && (#[trigger] parsed_name(files[j].1@)) is Some ==> exists|q: int|
            0 <= q < r.len() && r[q].meta.name@ == parsed_name(files[j].1@)->0
}

/// The first place in `out` whose name does not sort before `name`.
fn name_position(out: &Vec<Skill>, name: &String) -> (p: usize)
    ensures
        p <= out@.len(),
        forall|q: int| 0 <= q < p ==> lex_lt(#[trigger] out@[q].meta.name@, name@),
        p < out@.len() ==> !lex_lt(out@[p as int].meta.name@, name@),
{
    let mut p: usize = 0;
    while p < out.len() && crate::text::str_less(out[p].meta.name.as_str(), name.as_str())
        invariant
            p <= out@.len(),
            forall|q: int| 0 <= q < p ==> lex_lt(#[trigger] out@[q].meta.name@, name@),
        decreases out.len() - p,
    {
        p = p + 1;
    }
    p
}

/// Puts `skill` into the sorted `out`: in place of the entry of the same
/// name, or at the place its name sorts to. Gives that place and whether an
/// entry was replaced.
fn add_skill(out: &mut Vec<Skill>, skill: Skill) -> (r: (usize, bool))
    requires
        sorted_by_name(old(out)@),
    ensures
        sorted_by_name(final(out)@),
        r.1 ==> r.0 < old(out)@.len() && final(out)@ == old(out)@.update(r.0 as int, skill)
            && old(out)@[r.0 as int].meta.name@ == skill.meta.name@,
        !r.1 ==> r.0 <= old(out)@.len() && final(out)@ == old(out)@.insert(r.0 as int, skill)
            && forall|q: int|
            0 <= q < old(out)@.len() ==> #[trigger] old(out)@[q].meta.name@ != skill.meta.name@,
{
    let p = name_position(out, &skill.meta.name);
    let ghost n = skill.meta.name@;
    let ghost old_out = out@;
    if p < out.len() && str_eq(out[p].meta.name.as_str(), skill.meta.name.as_str()) {
        out.set(p, skill);
        proof {
            assert(sorted_by_name(out@)) by {
                assert forall|a: int, b: int| 0 <= a < b < out@.len() implies lex_lt(
                    #[trigger] out@[a].meta.name@,
                    #[trigger] out@[b].meta.name@,
                ) by {
                    assert(lex_lt(old_out[a].meta.name@, old_out[b].meta.name@));
                }
            }
        }
        (p, true)
    } else {
        out.insert(p, skill);
        proof {
            if p < old_out.len() {
                lemma_lex_order(old_out[p as int].meta.name@, n);
            }
            assert forall|q: int| 0 <= q < old_out.len() implies #[trigger] old_out[q].meta.name@
                != n by {
                if q < p {
                    lemma_lex_order(old_out[q].meta.name@, n);
                } else {
                    if q > p {
                        lemma_lex_trans(n, old_out[p as int].meta.name@, old_out[q].meta.name@);
                    }
                    lemma_lex_order(n, old_out[q].meta.name@);
                }
            }
            assert(sorted_by_name(out@)) by {
                assert forall|a: int, b: int| 0 <= a < b < out@.len() implies lex_lt(
                    #[trigger] out@[a].meta.name@,
                    #[trigger] out@[b].meta.name@,
                ) by {
                    if b < p {
                        assert(lex_lt(old_out[a].meta.name@, old_out[b].meta.name@));
                    } else if b == p {
                    } else if a < p {
                        if b - 1 > p {
                            lemma_lex_trans(n, old_out[p as int].meta.name@, old_out[b - 1].meta.name@);
                        }
                        lemma_lex_trans(old_out[a].meta.name@, n, old_out[b - 1].meta.name@);
                    } else if a == p {
                        if b - 1 > p {
                            lemma_lex_trans(n, old_out[p as int].meta.name@, old_out[b - 1].meta.name@);
                        }
                    } else {
                        assert(lex_lt(old_out[a - 1].meta.name@, old_out[b - 1].meta.name@));
                    }
                }
            }
        }
        (p, false)
    }
}

/// What `load_all` keeps between its steps: `out` sorted, each entry read
/// from file `src[q]` and not declared again before file `i`, and every name
/// declared before file `i` present.
pub open spec fn load_state(
    files: Seq<(String, String)>,
    found: Seq<Seq<char>>,
    env: Env,
    i: int,
    out: Seq<Skill>,
    src: Seq<int>,
) -> bool {
    &&& src.len() == out.len()
    &&& sorted_by_name(out)
    &&& forall|q: int|
        0 <= q < out.len() ==> 0 <= #[trigger] src[q] < i && skill_from(
            out[q],
            files[src[q]].0@,
            files[src[q]].1@,
            found,
            env,
        ) && last_with_name(files.take(i), src[q], out[q].meta.name@)
    &&& forall|j: int|
        0 <= j < i && (#[trigger] parsed_name(files[j].1@)) is Some ==> exists|q: int|
            0 <= q < out.len() && out[q].meta.name@ == parsed_name(files[j].1@)->0
}

/// The entry of `out` at `q`, other than the one just added, is the entry
/// of `old_out` at the place this gives, with a name other than the added one.
proof fn lemma_kept_entry(
    i: int,
    old_out: Seq<Skill>,
    old_src: Seq<int>,
    out: Seq<Skill>,
    src: Seq<int>,
    added: bool,
    s: Skill,
    at: int,
    replaced: bool,
    q: int,
) -> (q0: int)
    requires
        sorted_by_name(old_out),
        old_src.len() == old_out.len(),
        !added ==> out == old_out && src == old_src,
        added && replaced ==> 0 <= at < old_out.len() && out == old_out.update(at, s) && src
            == old_src.update(at, i) && old_out[at].meta.name@ == s.meta.name@,
        added && !replaced ==> 0 <= at <= old_out.len() && out == old_out.insert(at, s) && src
            == old_src.insert(at, i) && forall|k: int|
            0 <= k < old_out.len() ==> #[trigger] old_out[k].meta.name@ != s.meta.name@,
        0 <= q < out.len(),
        !(added && q == at),
    ensures
        0 <= q0 < old_out.len(),
        out[q] == old_out[q0],
        src[q] == old_src[q0],
        added ==> old_out[q0].meta.name@ != s.meta.name@,
{
    let q0 = if added && !replaced && q > at { q - 1 } else { q };
    if added && replaced {
        lemma_lex_order(old_out[q].meta.name@, old_out[at].meta.name@);
        if q < at {
            assert(lex_lt(old_out[q].meta.name@, old_out[at].meta.name@));
        } else {
            assert(lex_lt(old_out[at].meta.name@, old_out[q].meta.name@));
        }
    }
    q0
}

proof fn lemma_load_step(
    files: Seq<(String, String)>,
    found: Seq<Seq<char>>,
    env: Env,
    i: int,
    old_out: Seq<Skill>,
    old_src: Seq<int>,
    out: Seq<Skill>,
    src: Seq<int>,
    added: bool,
    s: Skill,
    at: int,
    replaced: bool,
)
    requires
        0 <= i < files.len(),
        load_state(files, found, env, i, old_out, old_src),
        !added ==> parsed_name(files[i].1@) is None && out == old_out && src == old_src,
        added ==> skill_from(s, files[i].0@, files[i].1@, found, env) && sorted_by_name(out),
        added && replaced ==> 0 <= at < old_out.len() && out == old_out.update(at, s) && src
            == old_src.update(at, i) && old_out[at].meta.name@ == s.meta.name@,
        added && !replaced ==> 0 <= at <= old_out.len() && out == old_out.insert(at, s) && src
            == old_src.insert(at, i) && forall|q: int|
            0 <= q < old_out.len() ==> #[trigger] old_out[q].meta.name@ != s.meta.name@,
    ensures
        load_state(files, found, env, i + 1, out, src),
{
    let n = s.meta.name@;
    if added {
        assert(parsed_name(files[i].1@) == Some(n));
    }
    assert forall|q: int| 0 <= q < out.len() implies 0 <= #[trigger] src[q] < i + 1 && skill_from(
        out[q],
        files[src[q]].0@,
        files[src[q]].1@,
        found,
        env,
    ) && last_with_name(files.take(i + 1), src[q], out[q].meta.name@) by {
        if added && q == at {
            assert(src[q] == i);
        } else {
            let q0 = lemma_kept_entry(i, old_out, old_src, out, src, added, s, at, replaced, q);
            assert(0 <= old_src[q0] < i);
            assert(last_with_name(files.take(i), old_src[q0], old_out[q0].meta.name@));
            assert forall|k: int| src[q] < k < files.take(i + 1).len() implies parsed_name(
                #[trigger] files.take(i + 1)[k].1@,
            ) != Some(out[q].meta.name@) by {
                if k < i {
                    assert(files.take(i + 1)[k] == files.take(i)[k]);
                }
            }
        }
    }
    assert forall|j: int|
        0 <= j < i + 1 && (#[trigger] parsed_name(files[j].1@)) is Some implies exists|q: int|
        0 <= q < out.len() && out[q].meta.name@ == parsed_name(files[j].1@)->0 by {
        if j == i {
            assert(out[at].meta.name@ == n);
        } else {
            let q0 = choose|q: int|
                0 <= q < old_out.len() && old_out[q].meta.name@ == parsed_name(files[j].1@)->0;
            if added && replaced {
                assert(out[q0].meta.name@ == old_out[q0].meta.name@);
            } else if added && q0 >= at {
                assert(out[q0 + 1] == old_out[q0]);
            } else {
                assert(out[q0] == old_out[q0]);
            }
        }
    }
}

impl SkillsLoader {
    /// The skills of the workspace, given each skill file found there (its
    /// path and content) and the binaries found on `PATH`: a later file
    /// replaces an earlier one of the same name, and the skills come sorted
    /// by name.
    pub fn load_all(&self, files: &Vec<(String, String)>, found_bins: &Vec<String>, env: &Env) -> (r:
        Vec<Skill>)
        ensures
            loaded_from(r@, files@, views(found_bins@), *env),
    {
        let ghost found = views(found_bins@);
        let mut out: Vec<Skill> = Vec::new();
        let ghost mut src: Seq<int> = Seq::empty();
        let mut i: usize = 0;
        while i < files.len()
            invariant
                i <= files.len(),
                found == views(found_bins@),
                load_state(files@, found, *env, i as int, out@, src),
            decreases files.len() - i,
        {
            let path = files[i].0.clone();
            let parsed = parse_skill(files[i].1.as_str(), SkillSource::Workspace(path), found_bins, env);
            let ghost old_out = out@;
            let ghost old_src = src;
            let ghost mut added = false;
            let ghost mut s = arbitrary::<Skill>();
            let ghost mut at: int = 0;
            let ghost mut replaced = false;
            match parsed {
                None => {},
                Some(skill) => {
                    proof {
                        s = skill;
                        added = true;
                    }
                    let (p, rep) = add_skill(&mut out, skill);
                    proof {
                        at = p as int;
                        replaced = rep;
                        if rep {
                            src = src.update(p as int, i as int);
                        } else {
                            src = src.insert(p as int, i as int);
                        }
                    }
                },
            }
            proof {
                lemma_load_step(
                    files@,
                    found,
                    *env,
                    i as int,
                    old_out,
                    old_src,
                    out@,
                    src,
                    added,
                    s,
                    at,
                    replaced,
                );
            }
            i = i + 1;
        }
        proof {
            assert(files@.take(files@.len() as int) == files@);
            assert forall|q: int| 0 <= q < out@.len() implies read_from_last(
                #[trigger] out@[q],
                files@,
                found,
                *env,
            ) by {
                let j = src[q];
                assert(skill_from(out@[q], files@[j].0@, files@[j].1@, found, *env));
                assert(last_with_name(files@, j, out@[q].meta.name@));
            }
        }
        out
    }
}

// ── Prompt section ──────────────────────────────────────────────────────────

/// A skill whose whole body goes into the prompt: available and `always`.
pub open spec fn is_inline(s: Skill) -> bool {
    s.available && s.meta.always
}

pub open spec fn has_inline_named(sk: Seq<Skill>, n: Seq<char>) -> bool {
    exists|i: int| 0 <= i < sk.len() && is_inline(#[trigger] sk[i]) && sk[i].meta.name@ == n
}

/// `### name`, a blank line and the body, for each inline skill.
pub open spec fn inline_entries(sk: Seq<Skill>) -> Seq<Seq<char>>
    decreases sk.len(),
{
    if sk.len() == 0 {
        Seq::empty()
    } else {
        let init = inline_entries(sk.drop_last());
        let s = sk.last();
        if is_inline(s) {
            init.push("### "@ + s.meta.name@ + "\n\n"@ + s.body@)
        } else {
            init
        }
    }
}

/// The binaries of `bins` that are not in `found`.
pub open spec fn missing_bins(bins: Seq<Seq<char>>, found: Seq<Seq<char>>) -> Seq<Seq<char>>
    decreases bins.len(),
{
    if bins.len() == 0 {
        Seq::empty()
    } else {
        let init = missing_bins(bins.drop_last(), found);
        if found.contains(bins.last()) {
            init
        } else {
            init.push(bins.last())
        }
    }
}

/// The variables of `vars` that `env` does not set.
pub open spec fn missing_vars(vars: Seq<Seq<char>>, env: Env) -> Seq<Seq<char>>
    decreases vars.len(),
{
    if vars.len() == 0 {
        Seq::empty()
    } else {
        let init = missing_vars(vars.drop_last(), env);
        if env.lookup(vars.last()) is Some {
            init
        } else {
            init.push(vars.last())
        }
    }
}

/// ` missing="bins: ...; env: ..."` for an unavailable skill, else nothing.
pub open spec fn missing_attr(s: Skill, found: Seq<Seq<char>>, env: Env) -> Seq<char> {
    if s.available {
        Seq::empty()
    } else {
        let mb = missing_bins(views(s.meta.requires.bins@), found);
        let me = missing_vars(views(s.meta.requires.env@), env);
        let parts = (if mb.len() > 0 {
            seq!["bins: "@ + join(mb, ", "@)]
        } else {
            Seq::empty()
        }) + (if me.len() > 0 {
            seq!["env: "@ + join(me, ", "@)]
        } else {
            Seq::empty()
        });
        " missing=\""@ + join(parts, "; "@) + "\""@
    }
}

pub open spec fn bool_text(b: bool) -> Seq<char> {
    if b {
        "true"@
    } else {
        "false"@
    }
}

pub open spec fn source_path(s: Skill) -> Seq<char> {
    match s.source {
        SkillSource::Workspace(p) => p@,
    }
}

/// The opening of a `<skill>` element for an on-demand skill.
pub open spec fn skill_entry(s: Skill, found: Seq<Seq<char>>, env: Env) -> Seq<char> {
    "  <skill available=\""@ + bool_text(s.available) + "\""@ + missing_attr(s, found, env)
        + ">\n    <name>"@ + s.meta.name@ + "</name>\n    <description>"@ + s.meta.description@
        + "</description>"@ + "\n    <path>"@ + source_path(s) + "</path>"@
}

/// The two lines of each skill of `sk` that no inline skill of `all` shares
/// a name with.
pub open spec fn demand_entries(
    sk: Seq<Skill>,
    all: Seq<Skill>,
    found: Seq<Seq<char>>,
    env: Env,
) -> Seq<Seq<char>>
    decreases sk.len(),
{
    if sk.len() == 0 {
        Seq::empty()
    } else {
        let init = demand_entries(sk.drop_last(), all, found, env);
        let s = sk.last();
        if has_inline_named(all, s.meta.name@) {
            init
        } else {
            init.push(skill_entry(s, found, env)).push("  </skill>"@)
        }
    }
}

/// The lines of the skills section: a heading, the inline skills under
/// "Active Skills", and the other skills as `<skill>` elements under
/// "Available Skills".
pub open spec fn section_parts(sk: Seq<Skill>, found: Seq<Seq<char>>, env: Env) -> Seq<Seq<char>> {
    let inl = inline_entries(sk);
    let dem = demand_entries(sk, sk, found, env);
    seq!["# Skills"@] + (if inl.len() > 0 {
        seq!["\n## Active Skills\n"@] + inl
    } else {
        Seq::empty()
    }) + (if dem.len() > 0 {
        seq![
            "\n## Available Skills\n"@,
            "To use a skill, read its full instructions with the filesystem tool: `filesystem_read`\n"@,
            "<skills>"@,
        ] + dem + seq!["</skills>"@]
    } else {
        Seq::empty()
    })
}

/// The skills section of the system prompt; empty without skills.
pub open spec fn skills_section(sk: Seq<Skill>, found: Seq<Seq<char>>, env: Env) -> Seq<char> {
    if sk.len() == 0 {
        Seq::empty()
    } else {
        join(section_parts(sk, found, env), "\n"@)
    }
}

fn missing_bins_of(bins: &Vec<String>, found: &Vec<String>) -> (r: Vec<String>)
    ensures
        views(r@) == missing_bins(views(bins@), views(found@)),
{
    let mut out: Vec<String> = Vec::new();
    let mut i: usize = 0;
    while i < bins.len()
        invariant
            i <= bins.len(),
            views(out@) == missing_bins(views(bins@).take(i as int), views(found@)),
        decreases bins.len() - i,
    {
        proof {
            let q = views(bins@).take(i + 1);
            assert(q.drop_last() == views(bins@).take(i as int));
            assert(q.last() == bins@[i as int]@);
        }
        if !crate::text::contains_str(found, bins[i].as_str()) {
            out.push(bins[i].clone());
            proof {
                assert(views(out@) =~= missing_bins(views(bins@).take(i as int), views(found@)).push(
                    bins@[i as int]@,
                ));
            }
        }
        i = i + 1;
    }
    proof {
        assert(views(bins@).take(bins@.len() as int) == views(bins@));
    }
    out
}

fn missing_vars_of(vars: &Vec<String>, env: &Env) -> (r: Vec<String>)
    ensures
        views(r@) == missing_vars(views(vars@), *env),
{
    let mut out: Vec<String> = Vec::new();
    let mut i: usize = 0;
    while i < vars.len()
        invariant
            i <= vars.len(),
            views(out@) == missing_vars(views(vars@).take(i as int), *env),
        decreases vars.len() - i,
    {
        proof {
            let q = views(vars@).take(i + 1);
            assert(q.drop_last() == views(vars@).take(i as int));
            assert(q.last() == vars@[i as int]@);
        }
        if env.get(vars[i].as_str()).is_none() {
            out.push(vars[i].clone());
            proof {
                assert(views(out@) =~= missing_vars(views(vars@).take(i as int), *env).push(
                    vars@[i as int]@,
                ));
            }
        }
        i = i + 1;
    }
    proof {
        assert(views(vars@).take(vars@.len() as int) == views(vars@));
    }
    out
}

fn missing_attr_of(s: &Skill, found: &Vec<String>, env: &Env) -> (r: String)
    ensures
        r@ == missing_attr(*s, views(found@), *env),
{
    if s.available {
        return String::new();
    }
    let mb = missing_bins_of(&s.meta.requires.bins, found);
    let me = missing_vars_of(&s.meta.requires.env, env);
    let mut parts: Vec<String> = Vec::new();
    if mb.len() > 0 {
        let mut p = String::from_str("bins: ");
        crate::text::push_joined(&mut p, &mb, ", ");
        parts.push(p);
    }
    if me.len() > 0 {
        let mut p = String::from_str("env: ");
        crate::text::push_joined(&mut p, &me, ", ");
        parts.push(p);
    }
    let mut out = String::from_str(" missing=\"");
    crate::text::push_joined(&mut out, &parts, "; ");
    out.append("\"");
    proof {
        let ghost mbv = views(mb@);
        let ghost mev = views(me@);
        let ghost want = (if mbv.len() > 0 {
            seq!["bins: "@ + join(mbv, ", "@)]
        } else {
            Seq::empty()
        }) + (if mev.len() > 0 {
            seq!["env: "@ + join(mev, ", "@)]
        } else {
            Seq::empty()
        });
        assert(views(parts@) =~= want);
    }
    out
}

fn skill_entry_of(s: &Skill, found: &Vec<String>, env: &Env) -> (r: String)
    ensures
        r@ == skill_entry(*s, views(found@), *env),
{
    let mut out = String::from_str("  <skill available=\"");
    if s.available {
        out.append("true");
    } else {
        out.append("false");
    }
    out.append("\"");
    out.append(missing_attr_of(s, found, env).as_str());
    out.append(">\n    <name>");
    out.append(s.meta.name.as_str());
    out.append("</name>\n    <description>");
    out.append(s.meta.description.as_str());
    out.append("</description>");
    out.append("\n    <path>");
    match &s.source {
        SkillSource::Workspace(p) => out.append(p.as_str()),
    }
    out.append("</path>");
    out
}

fn has_inline_named_of(sk: &Vec<Skill>, name: &String) -> (r: bool)
    ensures
        r == has_inline_named(sk@, name@),
{
    let mut i: usize = 0;
    while i < sk.len()
        invariant
            i <= sk.len(),
            forall|k: int|
                0 <= k < i ==> !(is_inline(#[trigger] sk@[k]) && sk@[k].meta.name@ == name@),
        decreases sk.len() - i,
    {
        if sk[i].available && sk[i].meta.always && str_eq(sk[i].meta.name.as_str(), name.as_str()) {
            return true;
        }
        i = i + 1;
    }
    false
}

/// The skills section of the system prompt for `skills`, given the binaries
/// found on `PATH`.
pub fn prompt_section(skills: &Vec<Skill>, found_bins: &Vec<String>, env: &Env) -> (r: String)
    ensures
        r@ == skills_section(skills@, views(found_bins@), *env),
{
    if skills.len() == 0 {
        return String::new();
    }
    let ghost found = views(found_bins@);
    let mut inline: Vec<String> = Vec::new();
    let mut demand: Vec<String> = Vec::new();
    let mut i: usize = 0;
    while i < skills.len()
        invariant
            i <= skills.len(),
            found == views(found_bins@),
            views(inline@) == inline_entries(skills@.take(i as int)),
            views(demand@) == demand_entries(skills@.take(i as int), skills@, found, *env),
        decreases skills.len() - i,
    {
        let s = &skills[i];
        proof {
            let q = skills@.take(i + 1);
            assert(q.drop_last() == skills@.take(i as int));
            assert(q.last() == skills@[i as int]);
        }
        if s.available && s.meta.always {
            let mut e = String::from_str("### ");
            e.append(s.meta.name.as_str());
            e.append("\n\n");
            e.append(s.body.as_str());
            inline.push(e);
            proof {
                assert(views(inline@) =~= inline_entries(skills@.take(i + 1)));
            }
        }
        if !has_inline_named_of(skills, &s.meta.name) {
            demand.push(skill_entry_of(s, found_bins, env));
            demand.push(String::from_str("  </skill>"));
            proof {
                assert(views(demand@) =~= demand_entries(skills@.take(i + 1), skills@, found, *env));
            }
        }
        i = i + 1;
    }
    proof {
        assert(skills@.take(skills@.len() as int) == skills@);
    }
    let mut parts: Vec<String> = Vec::new();
    parts.push(String::from_str("# Skills"));
    if inline.len() > 0 {
        parts.push(String::from_str("\n## Active Skills\n"));
        parts.append(&mut inline);
    }
    if demand.len() > 0 {
        parts.push(String::from_str("\n## Available Skills\n"));
        parts.push(
            String::from_str(
                "To use a skill, read its full instructions with the filesystem tool: `filesystem_read`\n",
            ),
        );
        parts.push(String::from_str("<skills>"));
        parts.append(&mut demand);
        parts.push(String::from_str("</skills>"));
    }
    proof {
        assert(views(parts@) =~= section_parts(skills@, found, *env));
    }
    crate::text::join_strings(&parts, "\n")
}

impl SkillsLoader {
    /// The skills section of the system prompt: the skills of `load_all`,
    /// those always loaded in full, the others listed with where to read them.
    pub fn build_prompt_section(
        &self,
        files: &Vec<(String, String)>,
        found_bins: &Vec<String>,
        env: &Env,
    ) -> (r: String)
        ensures
            exists|sk: Seq<Skill>|
                loaded_from(sk, files@, views(found_bins@), *env) && r@ == skills_section(
                    sk,
                    views(found_bins@),
                    *env,
                ),
    {
        let skills = self.load_all(files, found_bins, env);
        prompt_section(&skills, found_bins, env)
    }
}

} // verus!
