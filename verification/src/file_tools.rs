use vstd::prelude::*;

use crate::json::{get_key, json_u64, JsonValue};
use crate::text::{chars_of, cviews, decimal_text, join, lines, lines_of, views};
use crate::tools::{FilesystemReadTool, FilesystemWriteTool, ToolResult};

verus! {

/// The line of `ls` at `k` (0-based), numbered from 1: `n: text`.
pub open spec fn numbered_line(ls: Seq<Seq<char>>, k: int) -> Seq<char> {
    decimal_text((k + 1) as nat) + ": "@ + ls[k]
}

/// The first line shown: `offset` counts from 1.
pub open spec fn first_shown(offset: u64, total: int) -> int {
    let s = if offset == 0 {
        0
    } else {
        offset - 1
    };
    if s < total {
        s
    } else {
        total
    }
}

/// One past the last line shown.
pub open spec fn end_shown(start: int, limit: Option<usize>, total: int) -> int {
    match limit {
        Some(l) => if start + l < total {
            start + l
        } else {
            total
        },
        None => total,
    }
}

/// The lines of `contents` from line `offset` on (at most `limit` of them),
/// each numbered, followed by where they sit in the file.
pub open spec fn formatted_lines(contents: Seq<char>, offset: u64, limit: Option<usize>) -> Seq<char> {
    let ls = lines(contents);
    let total = ls.len() as int;
    let start = first_shown(offset, total);
    let end = end_shown(start, limit, total);
    if total == 0 {
        Seq::empty()
    } else if start >= end {
        "[No lines in range, file has "@ + decimal_text(total as nat) + " lines]"@
    } else {
        join(Seq::new((end - start) as nat, |i: int| numbered_line(ls, start + i)), "\n"@) + if start
            > 0 || end < total {
            "\n[Lines "@ + decimal_text((start + 1) as nat) + "-"@ + decimal_text(end as nat)
                + " of "@ + decimal_text(total as nat) + "]"@
        } else {
            "\n["@ + decimal_text(total as nat) + " lines total]"@
        }
    }
}

/// The numbered lines `start..end` of `ls`, one per line.
pub open spec fn numbered_block(ls: Seq<Seq<char>>, start: int, end: int) -> Seq<char> {
    join(Seq::new((end - start) as nat, |i: int| numbered_line(ls, start + i)), "\n"@)
}

/// Where the shown lines sit in the file.
pub open spec fn range_summary(start: int, end: int, total: int) -> Seq<char> {
    if start > 0 || end < total {
        "\n[Lines "@ + decimal_text((start + 1) as nat) + "-"@ + decimal_text(end as nat) + " of "@
            + decimal_text(total as nat) + "]"@
    } else {
        "\n["@ + decimal_text(total as nat) + " lines total]"@
    }
}

fn numbered_block_of(ls: &Vec<Vec<char>>, start: usize, end: usize) -> (r: String)
    requires
        start <= end <= ls@.len(),
    ensures
        r@ == numbered_block(cviews(ls@), start as int, end as int),
{
    let ghost lv = cviews(ls@);
    let mut parts: Vec<String> = Vec::new();
    let mut i: usize = start;
    while i < end
        invariant
            start <= i <= end,
            end <= ls@.len(),
            lv == cviews(ls@),
            views(parts@) == Seq::new((i - start) as nat, |j: int| numbered_line(lv, start + j)),
        decreases end - i,
    {
        let mut line = String::new();
        crate::text::push_decimal(&mut line, (i + 1) as u64);
        line.append(": ");
        line.append(crate::text::string_from(ls[i].as_slice()).as_str());
        let ghost before = views(parts@);
        parts.push(line);
        proof {
            assert(lv[i as int] == ls@[i as int]@);
            assert(views(parts@) =~= before.push(line@));
            assert(views(parts@) =~= Seq::new(
                (i + 1 - start) as nat,
                |j: int| numbered_line(lv, start + j),
            ));
        }
        i = i + 1;
    }
    crate::text::join_strings(&parts, "\n")
}

fn push_range_summary(out: &mut String, start: usize, end: usize, total: usize)
    requires
        start < end,
    ensures
        final(out)@ == old(out)@ + range_summary(start as int, end as int, total as int),
{
    if start > 0 || end < total {
        out.append("\n[Lines ");
        crate::text::push_decimal(out, (start + 1) as u64);
        out.append("-");
        crate::text::push_decimal(out, end as u64);
        out.append(" of ");
        crate::text::push_decimal(out, total as u64);
        out.append("]");
    } else {
        out.append("\n[");
        crate::text::push_decimal(out, total as u64);
        out.append(" lines total]");
    }
}

/// Numbers the lines of `contents` for display.
pub fn format_lines(contents: &str, offset: u64, limit: Option<usize>) -> (r: String)
    ensures
        r@ == formatted_lines(contents@, offset, limit),
{
    let v = chars_of(contents);
    let ls = lines_of(v.as_slice());
    let total = ls.len();
    if total == 0 {
        return String::new();
    }
    let s0: u64 = if offset == 0 {
        0
    } else {
        offset - 1
    };
    let start: usize = if s0 < total as u64 {
        s0 as usize
    } else {
        total
    };
    let end: usize = match limit {
        Some(l) => {
            if l < total - start {
                start + l
            } else {
                total
            }
        },
        None => total,
    };
    if start >= end {
        let mut out = String::from_str("[No lines in range, file has ");
        crate::text::push_decimal(&mut out, total as u64);
        out.append(" lines]");
        return out;
    }
    let mut out = numbered_block_of(&ls, start, end);
    push_range_summary(&mut out, start, end, total);
    out
}

/// What a read call asks for: the path, the first line (from 1) and the
/// number of lines.
pub struct ReadRequest {
    pub path: String,
    pub offset: u64,
    pub limit: Option<usize>,
}

/// The `path` argument as a string, when it is one.
pub open spec fn str_value(v: Option<JsonValue>) -> Option<Seq<char>> {
    match v {
        Some(JsonValue::Str(s, _)) => Some(s@),
        _ => None,
    }
}

pub open spec fn u64_value(v: Option<JsonValue>) -> Option<u64> {
    match v {
        Some(x) => json_u64(x),
        None => None,
    }
}

impl FilesystemReadTool {
    /// Reads the arguments of a call: `path` (required), `offset` (default
    /// 1, at least 1) and `limit`.
    pub fn read_request(&self, args: &JsonValue) -> (r: Result<ReadRequest, String>)
        ensures
            match str_value(get_key(*args, "path"@)) {
                None => r matches Err(m) && m@ == "Missing 'path' argument"@,
                Some(p) => r matches Ok(q) && q.path@ == p && q.offset == match u64_value(
                    get_key(*args, "offset"@),
                ) {
                    Some(o) => if o == 0 {
                        1
                    } else {
                        o
                    },
                    None => 1,
                } && q.limit == match u64_value(get_key(*args, "limit"@)) {
                    Some(l) => Some(
                        if l <= usize::MAX {
                            l as usize
                        } else {
                            usize::MAX
                        },
                    ),
                    None => None,
                },
            },
    {
        let path = match args.get("path") {
            Some(v) => match v.as_str() {
                Some(s) => s.clone(),
                None => {
                    return Err(String::from_str("Missing 'path' argument"));
                },
            },
            None => {
                return Err(String::from_str("Missing 'path' argument"));
            },
        };
        let offset = match args.get("offset") {
            Some(v) => match v.as_u64() {
                Some(o) => if o == 0 {
                    1
                } else {
                    o
                },
                None => 1,
            },
            None => 1,
        };
        let limit = match args.get("limit") {
            Some(v) => match v.as_u64() {
                Some(l) => Some(
                    if l <= usize::MAX as u64 {
                        l as usize
                    } else {
                        usize::MAX
                    },
                ),
                None => None,
            },
            None => None,
        };
        Ok(ReadRequest { path, offset, limit })
    }
}

/// What a write call asks for: the path and the text.
pub struct WriteRequest {
    pub path: String,
    pub content: String,
}

impl FilesystemWriteTool {
    /// Reads the arguments of a write call: `path` and `content` (both
    /// required strings); a blank path is refused.
    pub fn write_request(&self, args: &JsonValue) -> (r: Result<Result<WriteRequest, ToolResult>, String>)
        ensures
            match str_value(get_key(*args, "path"@)) {
                None => r matches Err(m) && m@ == "Missing 'path' argument"@,
                Some(p) => match str_value(get_key(*args, "content"@)) {
                    None => r matches Err(m) && m@ == "Missing 'content' argument"@,
                    Some(c) => if crate::text::trim(p).len() == 0 {
                        r matches Ok(Err(t)) && !t.success && t.output@.len() == 0 && (t.error matches Some(
                            e,
                        ) && e@ == "Path cannot be empty"@)
                    } else {
                        r matches Ok(Ok(q)) && q.path@ == p && q.content@ == c
                    },
                },
            },
    {
        let path = match args.get("path") {
            Some(v) => match v.as_str() {
                Some(s) => s.clone(),
                None => {
                    return Err(String::from_str("Missing 'path' argument"));
                },
            },
            None => {
                return Err(String::from_str("Missing 'path' argument"));
            },
        };
        let content = match args.get("content") {
            Some(v) => match v.as_str() {
                Some(s) => s.clone(),
                None => {
                    return Err(String::from_str("Missing 'content' argument"));
                },
            },
            None => {
                return Err(String::from_str("Missing 'content' argument"));
            },
        };
        if crate::text::trim_str(path.as_str()).as_str().is_empty() {
            return Ok(
                Err(
                    ToolResult {
                        success: false,
                        output: String::new(),
                        error: Some(String::from_str("Path cannot be empty")),
                    },
                ),
            );
        }
        Ok(Ok(WriteRequest { path, content }))
    }

    /// The result of a write that went through.
    pub fn written(&self, path: &str, content: &str) -> (r: ToolResult)
        ensures
            r.success,
            r.error is None,
            r.output@ == "Written "@ + decimal_text(crate::text::utf8_len(content@) as nat) + " bytes to "@
                + path@,
    {
        let v = chars_of(content);
        let n = crate::text::utf8_len_of(v.as_slice());
        let mut o = String::from_str("Written ");
        crate::text::push_decimal_wide(&mut o, n);
        o.append(" bytes to ");
        o.append(path);
        ToolResult { success: true, output: o, error: None }
    }
}

/// The error for a path that names a directory.
pub fn directory_error(path: &str) -> (r: String)
    ensures
        r@ == "Path '"@ + path@ + "' points to a directory, not a file"@,
{
    let mut m = String::from_str("Path '");
    m.append(path);
    m.append("' points to a directory, not a file");
    m
}

/// A line shown keeps its number in the file: reading from line `offset`
/// (1-based, within the file), at least one line, starts with `offset`,
/// `: ` and that line of the file.
pub proof fn law_shown_lines_keep_their_numbers(contents: Seq<char>, offset: u64, limit: Option<usize>)
    requires
        1 <= offset <= lines(contents).len(),
        limit != Some(0usize),
    ensures
        (decimal_text(offset as nat) + ": "@ + lines(contents)[offset - 1]).is_prefix_of(
            formatted_lines(contents, offset, limit),
        ),
{
    let ls = lines(contents);
    let total = ls.len() as int;
    let start = first_shown(offset, total);
    let end = end_shown(start, limit, total);
    assert(start == offset - 1);
    assert(end > start);
    let parts = Seq::new((end - start) as nat, |i: int| numbered_line(ls, start + i));
    crate::text::lemma_join_ends(parts, "\n"@);
    assert(parts[0] == numbered_line(ls, start));
    assert((start + 1) as nat == offset as nat);
    let block = join(parts, "\n"@);
    let whole = formatted_lines(contents, offset, limit);
    let tail = if start > 0 || end < total {
        "\n[Lines "@ + decimal_text((start + 1) as nat) + "-"@ + decimal_text(end as nat) + " of "@
            + decimal_text(total as nat) + "]"@
    } else {
        "\n["@ + decimal_text(total as nat) + " lines total]"@
    };
    assert(whole == block + tail);
    let p = parts[0];
    assert(whole.subrange(0, p.len() as int) =~= block.subrange(0, p.len() as int));
}

/// Every line shown carries its own number in the file: when reading from
/// line `offset` (1-based, within the file) shows `j + 1` lines or more,
/// the output holds `offset + j`, `: ` and that line of the file.
pub proof fn law_every_shown_line_is_numbered_by_the_file(
    contents: Seq<char>,
    offset: u64,
    limit: Option<usize>,
    j: int,
)
    requires
        1 <= offset <= lines(contents).len(),
        0 <= j,
        offset - 1 + j < lines(contents).len(),
        match limit {
            Some(l) => j < l,
            None => true,
        },
    ensures
        crate::text::contains_seq(
            formatted_lines(contents, offset, limit),
            decimal_text((offset + j) as nat) + ": "@ + lines(contents)[offset - 1 + j],
        ),
{
    let ls = lines(contents);
    let total = ls.len() as int;
    let start = first_shown(offset, total);
    let end = end_shown(start, limit, total);
    assert(start == offset - 1);
    assert(start + j < end);
    let parts = Seq::new((end - start) as nat, |i: int| numbered_line(ls, start + i));
    crate::text::lemma_join_contains(parts, "\n"@, j);
    assert(parts[j] == numbered_line(ls, start + j));
    assert((start + j + 1) as nat == (offset + j) as nat);
    let block = join(parts, "\n"@);
    let whole = formatted_lines(contents, offset, limit);
    let tail = if start > 0 || end < total {
        "\n[Lines "@ + decimal_text((start + 1) as nat) + "-"@ + decimal_text(end as nat) + " of "@
            + decimal_text(total as nat) + "]"@
    } else {
        "\n["@ + decimal_text(total as nat) + " lines total]"@
    };
    assert(whole == block + tail);
    let p = parts[j];
    let i = choose|i: int| crate::text::occurs_at(block, p, i);
    assert(whole.subrange(i, i + p.len()) =~= block.subrange(i, i + p.len()));
    assert(crate::text::occurs_at(whole, p, i));
}

} // verus!
