use vstd::prelude::*;

use crate::config::path_join;
use crate::json::{get_key, JsonValue};
use crate::text::{byte_fit, chars_of, decimal_text, is_char_boundary, trim, utf8_len};
use crate::tools::{ShellTool, ToolResult};

verus! {

/// The directory a shell command is to run in, before it is resolved on
/// disk: an absolute `requested` path as it is, a relative one under
/// `default_dir`, or `default_dir` itself when none is requested.
pub open spec fn requested_dir(default_dir: Option<Seq<char>>, requested: Option<Seq<char>>) -> Result<
    Seq<char>,
    Seq<char>,
> {
    let raw = match requested {
        Some(r) => if trim(r).len() > 0 {
            Some(trim(r))
        } else {
            None
        },
        None => None,
    };
    match raw {
        Some(r) => if r[0] == '/' {
            Ok(r)
        } else {
            match default_dir {
                Some(d) => Ok(path_join(d, r)),
                None => Err("Missing base directory to resolve relative shell path '"@ + r + "'"@),
            }
        },
        None => match default_dir {
            Some(d) => Ok(d),
            None => Err("Missing workspace_dir (or current directory) for shell path default"@),
        },
    }
}

pub open spec fn opt_str(o: Option<&str>) -> Option<Seq<char>> {
    match o {
        Some(s) => Some(s@),
        None => None,
    }
}

/// The directory to run in, given the workspace directory (or, without
/// one, the current directory) and the requested path; it is then resolved
/// on disk.
pub fn resolve_requested_path(default_dir: Option<&str>, requested: Option<&str>) -> (r: Result<
    String,
    String,
>)
    ensures
        match r {
            Ok(p) => requested_dir(opt_str(default_dir), opt_str(requested)) == Ok::<Seq<char>, Seq<char>>(p@),
            Err(e) => requested_dir(opt_str(default_dir), opt_str(requested)) == Err::<Seq<char>, Seq<char>>(e@),
        },
{
    let raw: Option<String> = match requested {
        Some(r) => {
            let t = crate::text::trim_str(r);
            if t.as_str().is_empty() {
                None
            } else {
                Some(t)
            }
        },
        None => None,
    };
    match raw {
        Some(r) => {
            let rv = chars_of(r.as_str());
            if rv[0] == '/' {
                return Ok(r);
            }
            match default_dir {
                Some(d) => Ok(crate::config::join_path(d, r.as_str())),
                None => {
                    let mut m = String::from_str("Missing base directory to resolve relative shell path '");
                    m.append(r.as_str());
                    m.append("'");
                    Err(m)
                },
            }
        },
        None => match default_dir {
            Some(d) => Ok(String::from_str(d)),
            None => Err(String::from_str("Missing workspace_dir (or current directory) for shell path default")),
        },
    }
}

/// What a shell call asks for: the command and the requested directory.
pub struct ShellRequest {
    pub command: String,
    pub path: Option<String>,
}

impl ShellTool {
    /// Reads the arguments of a call: `command` must be a string, and so
    /// must `path` when given.
    pub fn shell_request(&self, args: &JsonValue) -> (r: Result<ShellRequest, String>)
        ensures
            match get_key(*args, "command"@) {
                Some(JsonValue::Str(c, _)) => match get_key(*args, "path"@) {
                    None => r matches Ok(q) && q.command@ == c@ && q.path is None,
                    Some(JsonValue::Str(p, _)) => r matches Ok(q) && q.command@ == c@ && (q.path
                        matches Some(x) && x@ == p@),
                    Some(_) => r matches Err(m) && m@ == "'path' must be a string"@,
                },
                _ => r matches Err(m) && m@ == "Missing 'command' argument"@,
            },
    {
        let command = match args.get("command") {
            Some(v) => match v.as_str() {
                Some(c) => c.clone(),
                None => {
                    return Err(String::from_str("Missing 'command' argument"));
                },
            },
            None => {
                return Err(String::from_str("Missing 'command' argument"));
            },
        };
        let path = match args.get("path") {
            Some(v) => match v.as_str() {
                Some(p) => Some(p.clone()),
                None => {
                    return Err(String::from_str("'path' must be a string"));
                },
            },
            None => None,
        };
        Ok(ShellRequest { command, path })
    }
}

/// Standard output and standard error together: one of them when the other
/// is empty, else both on separate lines.
pub open spec fn combined_output(stdout: Seq<char>, stderr: Seq<char>) -> Seq<char> {
    if stderr.len() == 0 {
        stdout
    } else if stdout.len() == 0 {
        stderr
    } else {
        stdout + "\n"@ + stderr
    }
}

/// `c` cut to its first `max` bytes, with a note, when it is longer.
pub open spec fn truncated_output(c: Seq<char>, max: int) -> Seq<char> {
    if utf8_len(c) > max {
        c.take(byte_fit(c, max)) + "...\n[output truncated, "@ + decimal_text(utf8_len(c) as nat)
            + " bytes total]"@
    } else {
        c
    }
}

/// `i` in decimal, with a minus sign when negative.
pub open spec fn int_text(i: int) -> Seq<char> {
    if i < 0 {
        "-"@ + decimal_text((-i) as nat)
    } else {
        decimal_text(i as nat)
    }
}

fn push_i32(out: &mut String, v: i32)
    ensures
        final(out)@ == old(out)@ + int_text(v as int),
{
    if v < 0 {
        out.append("-");
        let m: i64 = -(v as i64);
        crate::text::push_decimal(out, m as u64);
    } else {
        crate::text::push_decimal(out, v as u64);
    }
}

impl ShellTool {
    /// The result of a finished command: its output (cut to the longest
    /// prefix of whole characters within the byte limit)
    /// and, when it failed, its exit code (-1 when it has none).
    pub fn command_result(&self, stdout: &str, stderr: &str, success: bool, code: Option<i32>) -> (r:
        ToolResult)
        ensures
            r.success == success,
            r.output@ == truncated_output(combined_output(stdout@, stderr@), self.max_output_bytes as int),
            success ==> r.error is None,
            !success ==> (r.error matches Some(e) && e@ == "Exit code: "@ + int_text(
                match code {
                    Some(c) => c as int,
                    None => -1,
                },
            )),
    {
        let mut combined = String::new();
        let so = chars_of(stdout);
        let se = chars_of(stderr);
        if se.len() == 0 {
            combined.append(stdout);
        } else if so.len() == 0 {
            combined.append(stderr);
        } else {
            combined.append(stdout);
            combined.append("\n");
            combined.append(stderr);
        }
        let cv = chars_of(combined.as_str());
        let total = crate::text::utf8_len_of(cv.as_slice());
        let output = if total > self.max_output_bytes as u128 {
            let k = crate::text::byte_fit_of(cv.as_slice(), self.max_output_bytes);
            let mut out = crate::text::string_from_range(cv.as_slice(), 0, k);
            proof {
                assert(cv@.subrange(0, k as int) == cv@.take(k as int));
            }
            out.append("...\n[output truncated, ");
            crate::text::push_decimal_wide(&mut out, total);
            out.append(" bytes total]");
            out
        } else {
            combined
        };
        let error = if success {
            None
        } else {
            let mut e = String::from_str("Exit code: ");
            let c = match code {
                Some(c) => c,
                None => -1,
            };
            push_i32(&mut e, c);
            Some(e)
        };
        ToolResult { success, output, error }
    }

    /// The result of a command that did not finish in time.
    pub fn timeout_result(&self) -> (r: ToolResult)
        ensures
            !r.success,
            r.output@.len() == 0,
            r.error matches Some(e) && e@ == "Command timed out after "@ + decimal_text(
                self.timeout_secs as nat,
            ) + " seconds"@,
    {
        let mut e = String::from_str("Command timed out after ");
        crate::text::push_decimal(&mut e, self.timeout_secs);
        e.append(" seconds");
        ToolResult { success: false, output: String::new(), error: Some(e) }
    }
}

/// No output is lost: what a command wrote to stderr is reported too. Within
/// the byte limit, the output of a command that wrote nothing to stdout is
/// its stderr, that of one that wrote nothing to stderr is its stdout, and
/// otherwise stdout, a newline and stderr; the output is empty only when
/// both are.
pub proof fn law_command_output_keeps_both_streams(stdout: Seq<char>, stderr: Seq<char>, max: int)
    ensures
        ({
            let out = truncated_output(combined_output(stdout, stderr), max);
            &&& utf8_len(stdout + "\n"@ + stderr) <= max && stdout.len() > 0 && stderr.len() > 0 ==> out
                == stdout + "\n"@ + stderr
            &&& utf8_len(stderr) <= max && stdout.len() == 0 ==> out == stderr
            &&& utf8_len(stdout) <= max && stderr.len() == 0 ==> out == stdout
            &&& out.len() == 0 ==> stdout.len() == 0 && stderr.len() == 0
        }),
{
    let c = combined_output(stdout, stderr);
    if utf8_len(c) > max {
        let note = "...\n[output truncated, "@ + decimal_text(utf8_len(c) as nat) + " bytes total]"@;
        let out = c.take(byte_fit(c, max)) + note;
        assert(out.len() >= note.len());
        assert(note.len() > 0) by {
            reveal_strlit("...\n[output truncated, ");
        }
    } else if stdout.len() > 0 && stderr.len() > 0 {
        assert(c.len() >= stdout.len());
    }
}

} // verus!
