use vstd::prelude::*;

use crate::config::path_join;
use crate::env::Env;
use crate::skills::{loaded_from, skills_section, Skill, SkillsLoader};
use crate::text::{chars_of, join, trim, views};

verus! {

pub const DEFAULT_BOOTSTRAP_MAX_CHARS: usize = 20000;

pub const DEFAULT_BOOTSTRAP_TOTAL_MAX_CHARS: usize = 150000;

/// How much of the workspace files goes into the prompt, in characters.
#[derive(Debug, Clone, Copy)]
pub struct PromptLimits {
    pub bootstrap_max_chars: usize,
    pub bootstrap_total_max_chars: usize,
}

/// Builds the system prompt of a workspace.
pub struct PromptManager {
    workspace_dir: String,
    skills_enabled: bool,
    limits: PromptLimits,
}

/// What reading a bootstrap file gave.
pub enum BootstrapRead {
    Content(String),
    NotFound,
    /// Another error, with its message.
    Unreadable(String),
}

/// `value`, or `default_value` when it is zero.
pub fn sanitize_limit(value: usize, default_value: usize) -> (r: usize)
    ensures
        r == if value == 0 {
            default_value
        } else {
            value
        },
{
    if value == 0 {
        default_value
    } else {
        value
    }
}

/// The bootstrap files in the order they are loaded; all but the last are
/// required.
pub open spec fn bootstrap_names() -> Seq<Seq<char>> {
    seq![
        "AGENTS.md"@,
        "SOUL.md"@,
        "TOOLS.md"@,
        "IDENTITY.md"@,
        "USER.md"@,
        "HEARTBEAT.md"@,
        "MEMORY.md"@,
    ]
}

pub open spec fn is_required(k: int) -> bool {
    k < 6
}

/// The bootstrap files in the order they are loaded, each with whether it
/// is required.
pub fn bootstrap_files() -> (r: Vec<(String, bool)>)
    ensures
        r@.len() == 7,
        forall|k: int| 0 <= k < 7 ==> #[trigger] r@[k].0@ == bootstrap_names()[k] && r@[k].1 == is_required(k),
{
    let mut v: Vec<(String, bool)> = Vec::new();
    v.push((String::from_str("AGENTS.md"), true));
    v.push((String::from_str("SOUL.md"), true));
    v.push((String::from_str("TOOLS.md"), true));
    v.push((String::from_str("IDENTITY.md"), true));
    v.push((String::from_str("USER.md"), true));
    v.push((String::from_str("HEARTBEAT.md"), true));
    v.push((String::from_str("MEMORY.md"), false));
    v
}

/// What a bootstrap file contributes: its trimmed text when not empty, a
/// marker for a required file that is missing or any unreadable file.
pub open spec fn bootstrap_content(path: Seq<char>, required: bool, read: BootstrapRead) -> Option<
    Seq<char>,
> {
    match read {
        BootstrapRead::Content(c) => if trim(c@).len() > 0 {
            Some(trim(c@))
        } else {
            None
        },
        BootstrapRead::NotFound => if required {
            Some("[MISSING] Expected file at "@ + path)
        } else {
            None
        },
        BootstrapRead::Unreadable(e) => Some("[UNREADABLE] Could not read "@ + path + ": "@ + e@),
    }
}

/// The text a bootstrap file contributes, given what reading it gave.
pub fn load_bootstrap_content(path: &str, required: bool, read: BootstrapRead) -> (r: Option<String>)
    ensures
        crate::env::opt_view(r) == bootstrap_content(path@, required, read),
{
    match read {
        BootstrapRead::Content(c) => {
            let t = crate::text::trim_str(c.as_str());
            if t.as_str().is_empty() {
                None
            } else {
                Some(t)
            }
        },
        BootstrapRead::NotFound => {
            if required {
                let mut m = String::from_str("[MISSING] Expected file at ");
                m.append(path);
                Some(m)
            } else {
                None
            }
        },
        BootstrapRead::Unreadable(e) => {
            let mut m = String::from_str("[UNREADABLE] Could not read ");
            m.append(path);
            m.append(": ");
            m.append(e.as_str());
            Some(m)
        },
    }
}

/// The first `n` characters of `s`.
pub open spec fn take_chars(s: Seq<char>, n: int) -> Seq<char> {
    if s.len() <= n {
        s
    } else {
        s.take(n)
    }
}

/// The workspace context under way: the text so far, the characters still
/// allowed, and whether the budget stopped it.
pub struct CtxState {
    pub text: Seq<char>,
    pub remaining: int,
    pub done: bool,
}

/// One file's turn: its block is `## <path>`, a blank line, the text cut to
/// the per-file limit and to what the budget leaves, and a blank line. A
/// file without text is skipped, and so is one whose cut text is blank; the
/// first one that does not fit ends the context.
pub open spec fn ctx_step(st: CtxState, path: Seq<char>, content: Option<Seq<char>>, max: int) -> CtxState {
    if st.done {
        st
    } else if st.remaining == 0 {
        CtxState { done: true, ..st }
    } else {
        match content {
            None => st,
            Some(c) => {
                let body = take_chars(c, max);
                let header = "## "@ + path + "\n\n"@;
                if header.len() >= st.remaining {
                    CtxState { done: true, ..st }
                } else if st.remaining - (header.len() + 2) <= 0 {
                    CtxState { done: true, ..st }
                } else {
                    let b = take_chars(body, st.remaining - (header.len() + 2));
                    if trim(b).len() == 0 {
                        st
                    } else {
                        let block = header + b + "\n\n"@;
                        if block.len() > st.remaining {
                            CtxState { done: true, ..st }
                        } else {
                            CtxState {
                                text: st.text + block,
                                remaining: st.remaining - block.len(),
                                done: false,
                            }
                        }
                    }
                }
            },
        }
    }
}

pub open spec fn content_at(contents: Seq<Option<String>>, k: int) -> Option<Seq<char>> {
    if 0 <= k < contents.len() {
        crate::env::opt_view(contents[k])
    } else {
        None
    }
}

/// The context after the first `k` bootstrap files.
pub open spec fn ctx_fold(
    workspace_dir: Seq<char>,
    contents: Seq<Option<String>>,
    limits: PromptLimits,
    k: int,
) -> CtxState
    decreases k,
{
    if k <= 0 {
        CtxState { text: Seq::empty(), remaining: limits.bootstrap_total_max_chars as int, done: false }
    } else {
        ctx_step(
            ctx_fold(workspace_dir, contents, limits, k - 1),
            path_join(workspace_dir, bootstrap_names()[k - 1]),
            content_at(contents, k - 1),
            limits.bootstrap_max_chars as int,
        )
    }
}

pub open spec fn context_intro() -> Seq<char> {
    "# Project Context\n\nThe following workspace files have been loaded into context:\n\n"@
}

/// The workspace context of the prompt.
pub open spec fn workspace_context(
    workspace_dir: Seq<char>,
    contents: Seq<Option<String>>,
    limits: PromptLimits,
) -> Seq<char> {
    context_intro() + ctx_fold(workspace_dir, contents, limits, 7).text
}

proof fn lemma_ctx_budget(
    workspace_dir: Seq<char>,
    contents: Seq<Option<String>>,
    limits: PromptLimits,
    k: int,
)
    ensures
        ({
            let st = ctx_fold(workspace_dir, contents, limits, k);
            0 <= st.remaining && st.text.len() + st.remaining == limits.bootstrap_total_max_chars
        }),
    decreases k,
{
    if k > 0 {
        lemma_ctx_budget(workspace_dir, contents, limits, k - 1);
    }
}

/// The first `n` characters of `v`, when it is longer.
fn take_chars_vec(v: Vec<char>, n: usize) -> (r: Vec<char>)
    ensures
        r@ == take_chars(v@, n as int),
{
    if v.len() <= n {
        v
    } else {
        let r = crate::text::slice_vec(v.as_slice(), 0, n);
        proof {
            assert(v@.subrange(0, n as int) == v@.take(n as int));
        }
        r
    }
}

fn push_chars(out: &mut Vec<char>, s: &str)
    ensures
        final(out)@ == old(out)@ + s@,
{
    let v = chars_of(s);
    let mut i: usize = 0;
    while i < v.len()
        invariant
            i <= v.len(),
            v@ == s@,
            out@ == old(out)@ + v@.take(i as int),
        decreases v.len() - i,
    {
        out.push(v[i]);
        proof {
            assert(v@.take(i + 1) == v@.take(i as int).push(v@[i as int]));
        }
        i = i + 1;
    }
    proof {
        assert(v@.take(v@.len() as int) == v@);
    }
}

fn append_vec(out: &mut Vec<char>, s: &Vec<char>)
    ensures
        final(out)@ == old(out)@ + s@,
{
    let mut i: usize = 0;
    while i < s.len()
        invariant
            i <= s.len(),
            out@ == old(out)@ + s@.take(i as int),
        decreases s.len() - i,
    {
        out.push(s[i]);
        proof {
            assert(s@.take(i + 1) == s@.take(i as int).push(s@[i as int]));
        }
        i = i + 1;
    }
    proof {
        assert(s@.take(s@.len() as int) == s@);
    }
}

impl PromptManager {
    pub closed spec fn dir(&self) -> Seq<char> {
        self.workspace_dir@
    }

    pub closed spec fn skills_on(&self) -> bool {
        self.skills_enabled
    }

    pub closed spec fn limits(&self) -> PromptLimits {
        self.limits
    }

    /// A prompt manager for a workspace directory (already created and
    /// resolved); a zero limit means the default.
    pub fn new(workspace_dir: &str, skills_enabled: bool, limits: PromptLimits) -> (r: Self)
        ensures
            r.dir() == workspace_dir@,
            r.skills_on() == skills_enabled,
            r.limits().bootstrap_max_chars == if limits.bootstrap_max_chars == 0 {
                DEFAULT_BOOTSTRAP_MAX_CHARS
            } else {
                limits.bootstrap_max_chars
            },
            r.limits().bootstrap_total_max_chars == if limits.bootstrap_total_max_chars == 0 {
                DEFAULT_BOOTSTRAP_TOTAL_MAX_CHARS
            } else {
                limits.bootstrap_total_max_chars
            },
    {
        PromptManager {
            workspace_dir: String::from_str(workspace_dir),
            skills_enabled,
            limits: PromptLimits {
                bootstrap_max_chars: sanitize_limit(
                    limits.bootstrap_max_chars,
                    DEFAULT_BOOTSTRAP_MAX_CHARS,
                ),
                bootstrap_total_max_chars: sanitize_limit(
                    limits.bootstrap_total_max_chars,
                    DEFAULT_BOOTSTRAP_TOTAL_MAX_CHARS,
                ),
            },
        }
    }

    /// The workspace directory.
    pub fn workspace_dir(&self) -> (r: &str)
        ensures
            r@ == self.dir(),
    {
        self.workspace_dir.as_str()
    }

    /// The workspace files part of the prompt, given the text each bootstrap
    /// file contributes (see `load_bootstrap_content`), in the order of
    /// `bootstrap_files`. The blocks never take more than the total limit.
    pub fn build_workspace_context(&self, contents: &Vec<Option<String>>) -> (r: String)
        ensures
            r@ == workspace_context(self.dir(), contents@, self.limits()),
            r@.len() <= context_intro().len() + self.limits().bootstrap_total_max_chars,
    {
        let names = bootstrap_files();
        let mut text: Vec<char> = Vec::new();
        let mut remaining: usize = self.limits.bootstrap_total_max_chars;
        let mut done = false;
        let mut k: usize = 0;
        while k < 7
            invariant
                k <= 7,
                names@.len() == 7,
                forall|j: int| 0 <= j < 7 ==> #[trigger] names@[j].0@ == bootstrap_names()[j],
                ({
                    let st = ctx_fold(self.dir(), contents@, self.limits(), k as int);
                    &&& text@ == st.text
                    &&& remaining as int == st.remaining
                    &&& done == st.done
                }),
            decreases 7 - k,
        {
            let ghost st = ctx_fold(self.dir(), contents@, self.limits(), k as int);
            let ghost path_v = path_join(self.dir(), bootstrap_names()[k as int]);
            proof {
                assert(names@[k as int].0@ == bootstrap_names()[k as int]);
            }
            if done {
            } else if remaining == 0 {
                done = true;
            } else {
                let content: Option<String> = if k < contents.len() {
                    match &contents[k] {
                        Some(c) => Some(c.clone()),
                        None => None,
                    }
                } else {
                    None
                };
                match content {
                    None => {},
                    Some(c) => {
                        let body = take_chars_vec(chars_of(c.as_str()), self.limits.bootstrap_max_chars);
                        let path = crate::config::join_path(self.workspace_dir.as_str(), names[k].0.as_str());
                        let mut header: Vec<char> = Vec::new();
                        push_chars(&mut header, "## ");
                        push_chars(&mut header, path.as_str());
                        push_chars(&mut header, "\n\n");
                        let hl = header.len();
                        if hl >= remaining {
                            done = true;
                        } else {
                            let avail = if remaining - hl <= 2 {
                                0
                            } else {
                                remaining - hl - 2
                            };
                            if avail == 0 {
                                done = true;
                            } else {
                                let b = take_chars_vec(body, avail);
                                let (ta, tb) = crate::text::trim_bounds(b.as_slice(), 0, b.len());
                                proof {
                                    assert(b@.subrange(0, b@.len() as int) == b@);
                                }
                                if ta == tb {
                                } else {
                                    let mut block = header;
                                    append_vec(&mut block, &b);
                                    push_chars(&mut block, "\n\n");
                                    if block.len() > remaining {
                                        done = true;
                                    } else {
                                        append_vec(&mut text, &block);
                                        remaining = remaining - block.len();
                                    }
                                }
                            }
                        }
                    },
                }
            }
            k = k + 1;
        }
        proof {
            lemma_ctx_budget(self.dir(), contents@, self.limits(), 7);
        }
        let mut out = String::from_str(
            "# Project Context\n\nThe following workspace files have been loaded into context:\n\n",
        );
        out.append(crate::text::string_from(text.as_slice()).as_str());
        out
    }
}

/// The prompt: the skills section when skills are on and it is not blank,
/// a rule, then the workspace context.
pub open spec fn prompt_text(skills_on: bool, section: Seq<char>, context: Seq<char>) -> Seq<char> {
    if skills_on && trim(section).len() > 0 {
        section + "\n\n---\n\n"@ + context
    } else {
        context
    }
}

impl PromptManager {
    /// The system prompt, given the skill files found under `skills/` of the
    /// workspace (path and content), the binaries found on `PATH`, and the
    /// text of each bootstrap file.
    pub fn build_prompt(
        &self,
        skill_files: &Vec<(String, String)>,
        found_bins: &Vec<String>,
        env: &Env,
        contents: &Vec<Option<String>>,
    ) -> (r: String)
        ensures
            self.skills_on() ==> exists|sk: Seq<Skill>|
                loaded_from(sk, skill_files@, views(found_bins@), *env) && r@ == prompt_text(
                    true,
                    skills_section(sk, views(found_bins@), *env),
                    workspace_context(self.dir(), contents@, self.limits()),
                ),
            !self.skills_on() ==> r@ == workspace_context(self.dir(), contents@, self.limits()),
    {
        let context = self.build_workspace_context(contents);
        if self.skills_enabled {
            let loader = SkillsLoader::new(Some(crate::config::join_path(self.workspace_dir.as_str(), "skills")));
            let skills = loader.load_all(skill_files, found_bins, env);
            let section = crate::skills::prompt_section(&skills, found_bins, env);
            if crate::text::trim_str(section.as_str()).as_str().is_empty() {
                return context;
            }
            let mut out = section;
            out.append("\n\n---\n\n");
            out.append(context.as_str());
            out
        } else {
            context
        }
    }
}

/// Each workspace file adds at most one block to the context: `## <path>`,
/// a blank line, a prefix of the file's text of at most
/// `bootstrap_max_chars` characters, and a blank line.
pub proof fn law_file_blocks_keep_the_per_file_limit(
    workspace_dir: Seq<char>,
    contents: Seq<Option<String>>,
    limits: PromptLimits,
    k: int,
)
    requires
        0 <= k < 7,
    ensures
        ({
            let before = ctx_fold(workspace_dir, contents, limits, k).text;
            let after = ctx_fold(workspace_dir, contents, limits, k + 1).text;
            let header = "## "@ + path_join(workspace_dir, bootstrap_names()[k]) + "\n\n"@;
            after == before || (content_at(contents, k) matches Some(c) && exists|b: Seq<char>|
                b.is_prefix_of(c) && b.len() <= limits.bootstrap_max_chars && after == before + header + b
                    + "\n\n"@)
        }),
{
    let st = ctx_fold(workspace_dir, contents, limits, k);
    let path = path_join(workspace_dir, bootstrap_names()[k]);
    let max = limits.bootstrap_max_chars as int;
    assert(ctx_fold(workspace_dir, contents, limits, k + 1) == ctx_step(st, path, content_at(contents, k), max));
    match content_at(contents, k) {
        Some(c) => {
            let body = take_chars(c, max);
            let header = "## "@ + path + "\n\n"@;
            if !st.done && st.remaining != 0 && header.len() < st.remaining && st.remaining - (header.len()
                + 2) > 0 {
                let b = take_chars(body, st.remaining - (header.len() + 2));
                assert(b.is_prefix_of(c)) by {
                    assert(b =~= c.take(b.len() as int));
                }
                assert(b.len() <= max);
            }
        },
        None => {},
    }
}

} // verus!
