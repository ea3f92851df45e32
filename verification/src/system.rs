//! The shell tools' pure logic: the safety blocklist, quoting, output
//! truncation and command-line assembly. Running the processes happens
//! outside this crate.

use vstd::prelude::*;
use vstd::string::StrSliceExecFns;
use vstd::string::StringSliceAdditionalSpecFns;

use crate::messages::concat_str;
use crate::text::{
    ascii_lowercase, concat_string, contains_str, is_match_at, lower_chars, replace_spec,
    replace_str, spec_decimal, string_views, u64_to_string,
};

verus! {

pub open spec fn has_sub(s: Seq<char>, pat: Seq<char>) -> bool {
    exists|k: int| is_match_at(s, pat, k)
}

/// Whether a command matches the safety blocklist: any of the destructive
/// patterns occurring anywhere, compared ASCII case-insensitively.
pub open spec fn spec_dangerous(cmd: Seq<char>) -> bool {
    let l = lower_chars(cmd);
    ||| has_sub(l, "rm -rf /"@)
    ||| has_sub(l, "rm -rf /*"@)
    ||| has_sub(l, "mkfs"@)
    ||| has_sub(l, "dd if="@)
    ||| has_sub(l, ":(){:|:&};:"@)
    ||| has_sub(l, "shutdown"@)
    ||| has_sub(l, "reboot"@)
    ||| has_sub(l, "init 0"@)
    ||| has_sub(l, "init 6"@)
    ||| has_sub(l, "halt"@)
    ||| has_sub(l, "poweroff"@)
    ||| has_sub(l, "> /dev/sda"@)
    ||| has_sub(l, "chmod -R 777 /"@)
}

/// Whether a command is blocked for safety.
pub fn is_dangerous_command(cmd: &str) -> (r: bool)
    ensures
        r == spec_dangerous(cmd@),
{
    proof {
        reveal_strlit("rm -rf /");
        reveal_strlit("rm -rf /*");
        reveal_strlit("mkfs");
        reveal_strlit("dd if=");
        reveal_strlit(":(){:|:&};:");
        reveal_strlit("shutdown");
        reveal_strlit("reboot");
        reveal_strlit("init 0");
        reveal_strlit("init 6");
        reveal_strlit("halt");
        reveal_strlit("poweroff");
        reveal_strlit("> /dev/sda");
        reveal_strlit("chmod -R 777 /");
    }
    let lower = ascii_lowercase(cmd);
    let l = lower.as_str();
    contains_str(l, "rm -rf /") || contains_str(l, "rm -rf /*") || contains_str(l, "mkfs")
        || contains_str(l, "dd if=") || contains_str(l, ":(){:|:&};:") || contains_str(
        l,
        "shutdown",
    ) || contains_str(l, "reboot") || contains_str(l, "init 0") || contains_str(l, "init 6")
        || contains_str(l, "halt") || contains_str(l, "poweroff") || contains_str(l, "> /dev/sda")
        || contains_str(l, "chmod -R 777 /")
}

/// A string quoted for the shell: wrapped in single quotes, with embedded
/// single quotes escaped.
pub open spec fn shell_quoted(s: Seq<char>) -> Seq<char> {
    "'"@ + replace_spec(s, "'"@, "'\\''"@) + "'"@
}

pub fn shell_escape(s: &str) -> (r: String)
    ensures
        r@ == shell_quoted(s@),
{
    proof {
        reveal_strlit("'");
    }
    let mid = replace_str(s, "'", "'\\''");
    let mut out = concat_str("'", mid.as_str());
    out = concat_string(out, "'");
    out
}

/// The largest boundary at or under `pos`, as a specification.
pub open spec fn spec_floor_boundary(bytes: Seq<u8>, pos: int) -> int
    decreases pos,
{
    if pos <= 0 {
        0
    } else if vstd::utf8::is_char_boundary(bytes, pos) {
        pos
    } else {
        spec_floor_boundary(bytes, pos - 1)
    }
}

proof fn lemma_floor_boundary(bytes: Seq<u8>, pos: int, b: int)
    requires
        0 <= b <= pos,
        vstd::utf8::is_char_boundary(bytes, b),
        forall|k: int| b < k <= pos ==> !vstd::utf8::is_char_boundary(bytes, k),
    ensures
        spec_floor_boundary(bytes, pos) == b,
    decreases pos - b,
{
    if pos > b {
        lemma_floor_boundary(bytes, pos - 1, b);
    }
}

/// What truncation makes of a text: the text itself when it fits the byte
/// budget, and otherwise the longest whole-character prefix within the
/// budget, with a note counting the bytes of the full text.
pub open spec fn truncated(text: Seq<char>, max_len: int) -> Seq<char> {
    let bytes = vstd::utf8::encode_utf8(text);
    if bytes.len() <= max_len {
        text
    } else {
        let b = spec_floor_boundary(bytes, max_len);
        vstd::utf8::decode_utf8(bytes.subrange(0, b)) + "\n\n[... output truncated, "@
            + spec_decimal(bytes.len() as int) + " chars total]"@
    }
}

/// Cap a tool's output at a byte budget, never cutting a character in two.
pub fn truncate_output(text: &str, max_len: usize) -> (r: String)
    ensures
        r@ == truncated(text@, max_len as int),
{
    let n = text.as_bytes().len();
    if n <= max_len {
        return text.to_owned();
    }
    let b = crate::format::floor_char_boundary(text, max_len);
    proof {
        vstd::utf8::encode_utf8_valid_utf8(text@);
        if max_len == 0 {
            assert(vstd::utf8::is_char_boundary(text.spec_bytes(), 0));
            lemma_floor_boundary(text.spec_bytes(), max_len as int, 0);
        } else {
            lemma_floor_boundary(text.spec_bytes(), max_len as int, b as int);
        }
    }
    let pieces = text.split_at(b);
    proof {
        vstd::utf8::encode_utf8_decode_utf8(pieces.0@);
    }
    let mut out = pieces.0.to_owned();
    out = concat_string(out, "\n\n[... output truncated, ");
    let digits = u64_to_string(n as u64);
    out = concat_string(out, digits.as_str());
    out = concat_string(out, " chars total]");
    out
}

/// `n` written in decimal, with a sign when negative.
pub open spec fn spec_int_decimal(n: int) -> Seq<char> {
    if n < 0 {
        seq!['-'] + spec_decimal(-n)
    } else {
        spec_decimal(n)
    }
}

/// An exit code written in decimal.
pub fn exit_code_string(code: i64) -> (r: String)
    ensures
        r@ == spec_int_decimal(code as int),
{
    proof {
        reveal_strlit("-");
        assert("-"@ =~= seq!['-']);
    }
    if code < 0 {
        let mag: u64 = if code == i64::MIN {
            9223372036854775808u64
        } else {
            (-code) as u64
        };
        let digits = u64_to_string(mag);
        concat_str("-", digits.as_str())
    } else {
        u64_to_string(code as u64)
    }
}

/// What the shell tool reports: the capped standard output, then the capped
/// standard error under its marker, then a non-zero exit code, and a fixed
/// note when all of that is empty.
pub open spec fn exec_report(stdout: Seq<char>, stderr: Seq<char>, exit_code: int) -> Seq<char> {
    let part_out = if stdout.len() > 0 {
        truncated(stdout, 8000)
    } else {
        Seq::<char>::empty()
    };
    let part_err = if stderr.len() > 0 {
        (if part_out.len() > 0 {
            "\n"@
        } else {
            Seq::<char>::empty()
        }) + "[stderr]\n"@ + truncated(stderr, 2000)
    } else {
        Seq::<char>::empty()
    };
    let body = part_out + part_err;
    let with_code = if exit_code != 0 {
        body + "\n[exit code: "@ + spec_int_decimal(exit_code) + "]"@
    } else {
        body
    };
    if with_code.len() == 0 {
        "(no output)"@
    } else {
        with_code
    }
}

/// Assemble the shell tool's report from what the process produced.
pub fn format_exec_output(stdout: &str, stderr: &str, exit_code: i64) -> (r: String)
    ensures
        r@ == exec_report(stdout@, stderr@, exit_code as int),
{
    let mut result = String::new();
    if !stdout.is_empty() {
        let capped = truncate_output(stdout, 8000);
        result = concat_string(result, capped.as_str());
    }
    if !stderr.is_empty() {
        if !result.as_str().is_empty() {
            result = concat_string(result, "\n");
        }
        result = concat_string(result, "[stderr]\n");
        let capped = truncate_output(stderr, 2000);
        result = concat_string(result, capped.as_str());
    }
    if exit_code != 0 {
        result = concat_string(result, "\n[exit code: ");
        let digits = exit_code_string(exit_code);
        result = concat_string(result, digits.as_str());
        result = concat_string(result, "]");
    }
    if result.as_str().is_empty() {
        "(no output)".to_owned()
    } else {
        result
    }
}

/// The characters after the last slash, or the whole text when there is no
/// slash; a trailing slash yields the whole text, since no file name
/// follows it.
pub open spec fn last_path_part(s: Seq<char>) -> Seq<char> {
    let k = last_slash(s, s.len() as int - 1);
    if k < 0 || k == s.len() - 1 {
        s
    } else {
        s.skip(k + 1)
    }
}

pub open spec fn last_slash(s: Seq<char>, from: int) -> int
    decreases from + 1,
{
    if from < 0 || from >= s.len() {
        -1
    } else if s[from] == '/' {
        from
    } else {
        last_slash(s, from - 1)
    }
}

fn find_last_slash(s: &str) -> (r: Option<usize>)
    ensures
        match r {
            Some(k) => last_slash(s@, s@.len() as int - 1) == k && k < s@.len(),
            None => last_slash(s@, s@.len() as int - 1) == -1,
        },
{
    let n = s.unicode_len();
    let mut i: usize = n;
    while i > 0
        invariant
            i <= n,
            n == s@.len(),
            last_slash(s@, n as int - 1) == last_slash(s@, i as int - 1),
        decreases i,
    {
        i -= 1;
        if s.get_char(i) == '/' {
            return Some(i);
        }
    }
    None
}

/// The file-search command line: a `find` over the base directory matching
/// the pattern's file-name part, capped and sorted.
pub fn build_find_command(pattern: &str, base_dir: &str) -> (r: String)
    ensures
        r@ == "find "@ + shell_quoted(base_dir@) + " -name "@ + shell_quoted(
            last_path_part(pattern@),
        ) + " -type f 2>/dev/null | head -50 | sort"@,
{
    let n = pattern.unicode_len();
    let name_part: String = match find_last_slash(pattern) {
        Some(k) => {
            if k + 1 < n {
                proof {
                    assert(pattern@.skip(k as int + 1) =~= pattern@.subrange(
                        k as int + 1,
                        n as int,
                    ));
                }
                pattern.substring_char(k + 1, n).to_owned()
            } else {
                pattern.to_owned()
            }
        },
        None => pattern.to_owned(),
    };
    let mut cmd = concat_str("find ", shell_escape(base_dir).as_str());
    cmd = concat_string(cmd, " -name ");
    cmd = concat_string(cmd, shell_escape(name_part.as_str()).as_str());
    cmd = concat_string(cmd, " -type f 2>/dev/null | head -50 | sort");
    cmd
}

/// The content-search argument list: ripgrep or grep flags, case folding,
/// context, an include filter, then the pattern and the path.
pub open spec fn grep_args(
    pattern: Seq<char>,
    path: Seq<char>,
    glob_filter: Option<Seq<char>>,
    case_insensitive: bool,
    context: Option<u32>,
    use_rg: bool,
) -> Seq<Seq<char>> {
    let base: Seq<Seq<char>> = if use_rg {
        seq!["--no-heading"@, "--line-number"@, "--max-count=100"@, "--max-filesize=1M"@]
    } else {
        seq!["-rn"@, "--max-count=100"@]
    };
    let with_case = if case_insensitive {
        base + seq!["-i"@]
    } else {
        base
    };
    let with_ctx = match context {
        Some(c) => with_case + seq!["-C"@ + spec_decimal(c as int)],
        None => with_case,
    };
    let with_glob = match glob_filter {
        Some(g) => with_ctx + seq![
            (if use_rg {
                "--glob="@
            } else {
                "--include="@
            }) + g,
        ],
        None => with_ctx,
    };
    with_glob + seq![pattern, path]
}

/// Assemble the content-search arguments.
pub fn build_grep_args(
    pattern: &str,
    path: &str,
    glob_filter: Option<&str>,
    case_insensitive: bool,
    context: Option<u32>,
    use_rg: bool,
) -> (r: Vec<String>)
    ensures
        string_views(r@) == grep_args(
            pattern@,
            path@,
            match glob_filter {
                Some(g) => Some(g@),
                None => None,
            },
            case_insensitive,
            context,
            use_rg,
        ),
{
    let mut args: Vec<String> = Vec::new();
    if use_rg {
        args.push("--no-heading".to_owned());
        args.push("--line-number".to_owned());
        args.push("--max-count=100".to_owned());
        args.push("--max-filesize=1M".to_owned());
    } else {
        args.push("-rn".to_owned());
        args.push("--max-count=100".to_owned());
    }
    if case_insensitive {
        args.push("-i".to_owned());
    }
    match context {
        Some(c) => {
            let digits = u64_to_string(c as u64);
            args.push(concat_str("-C", digits.as_str()));
        },
        None => {},
    }
    match glob_filter {
        Some(g) => {
            if use_rg {
                args.push(concat_str("--glob=", g));
            } else {
                args.push(concat_str("--include=", g));
            }
        },
        None => {},
    }
    args.push(pattern.to_owned());
    args.push(path.to_owned());
    proof {
        assert(string_views(args@) =~= grep_args(
            pattern@,
            path@,
            match glob_filter {
                Some(g) => Some(g@),
                None => None,
            },
            case_insensitive,
            context,
            use_rg,
        ));
    }
    args
}

/// `n` spaces.
pub open spec fn spec_spaces(n: int) -> Seq<char>
    decreases n,
{
    if n <= 0 {
        Seq::empty()
    } else {
        seq![' '] + spec_spaces(n - 1)
    }
}

/// `n` in decimal, right-aligned in six columns.
pub open spec fn spec_padded6(n: int) -> Seq<char> {
    let d = spec_decimal(n);
    if d.len() >= 6 {
        d
    } else {
        spec_spaces(6 - d.len()) + d
    }
}

fn padded6(n: u64) -> (r: String)
    ensures
        r@ == spec_padded6(n as int),
{
    proof {
        reveal_strlit(" ");
    }
    let digits = u64_to_string(n);
    let dlen = digits.as_str().unicode_len();
    if dlen >= 6 {
        return digits;
    }
    let mut out = String::new();
    let mut i: usize = 0;
    while i < 6 - dlen
        invariant
            dlen == spec_decimal(n as int).len(),
            dlen < 6,
            i <= 6 - dlen,
            out@ =~= spec_spaces(i as int),
        decreases 6 - dlen - i,
    {
        crate::text::push_char(&mut out, ' ');
        proof {
            lemma_spaces_snoc(i as int + 1);
        }
        i += 1;
    }
    concat_string(out, digits.as_str())
}

proof fn lemma_spaces_snoc(n: int)
    requires
        n > 0,
    ensures
        spec_spaces(n) =~= spec_spaces(n - 1).push(' '),
    decreases n,
{
    if n > 1 {
        lemma_spaces_snoc(n - 1);
    }
}

/// A line clipped to the listing's per-line byte budget, never cutting a
/// character, with a marker when anything was dropped.
pub open spec fn clipped_line(l: Seq<char>) -> Seq<char> {
    let bytes = vstd::utf8::encode_utf8(l);
    if bytes.len() > 2000 {
        let b = spec_floor_boundary(bytes, 2000);
        vstd::utf8::decode_utf8(bytes.subrange(0, b)) + "..."@
    } else {
        l
    }
}

fn clip_line(l: &str) -> (r: String)
    ensures
        r@ == clipped_line(l@),
{
    let n = l.as_bytes().len();
    if n <= 2000 {
        return l.to_owned();
    }
    let b = crate::format::floor_char_boundary(l, 2000);
    proof {
        vstd::utf8::encode_utf8_valid_utf8(l@);
        lemma_floor_boundary(l.spec_bytes(), 2000, b as int);
    }
    let pieces = l.split_at(b);
    proof {
        vstd::utf8::encode_utf8_decode_utf8(pieces.0@);
    }
    concat_string(pieces.0.to_owned(), "...")
}

/// One listing row: the one-based line number in six columns, a tab, and
/// the clipped line.
pub open spec fn listing_row(l: Seq<char>, num: int) -> Seq<char> {
    spec_padded6(num) + "\t"@ + clipped_line(l)
}

/// What the file reader shows for a line range: numbered rows from
/// `offset`, at most `limit` of them, a note counting any lines beyond the
/// range, and an error line for an offset past the end.
pub open spec fn file_listing(content: Seq<char>, offset: int, limit: int) -> Seq<char> {
    let ls = crate::console::lines_spec(content);
    let total = ls.len() as int;
    if offset >= total {
        "Error: offset "@ + spec_decimal(offset) + " exceeds file length ("@ + spec_decimal(total)
            + " lines)"@
    } else {
        let end = if total - offset < limit {
            total
        } else {
            offset + limit
        };
        let rows = Seq::new((end - offset) as nat, |j: int| listing_row(ls[offset + j], offset + j + 1));
        crate::text::joined_from(rows, "\n"@, 0) + (if end < total {
            "\n\n[... "@ + spec_decimal(total - end) + " more lines]"@
        } else {
            Seq::empty()
        })
    }
}

/// Number and clip the requested line range of a file's text.
pub fn format_file_lines(content: &str, offset: Option<usize>, limit: Option<usize>) -> (r: String)
    ensures
        ({
            let off = match offset {
                Some(o) => o as int,
                None => 0,
            };
            let lim = match limit {
                Some(l) => l as int,
                None => 2000,
            };
            r@ == file_listing(content@, off, lim)
        }),
{
    let start: usize = match offset {
        Some(o) => o,
        None => 0,
    };
    let count: usize = match limit {
        Some(l) => l,
        None => 2000,
    };
    let ls = crate::console::lines_of(content);
    let total = ls.len();
    if start >= total {
        let mut msg = concat_str("Error: offset ", u64_to_string(start as u64).as_str());
        msg = concat_string(msg, " exceeds file length (");
        msg = concat_string(msg, u64_to_string(total as u64).as_str());
        msg = concat_string(msg, " lines)");
        return msg;
    }
    let end: usize = if total - start < count {
        total
    } else {
        start + count
    };
    let ghost lspec = crate::console::lines_spec(content@);
    let ghost rows = Seq::new(
        (end - start) as nat,
        |j: int| listing_row(lspec[start as int + j], start as int + j + 1),
    );
    let mut built: Vec<String> = Vec::new();
    let mut i: usize = start;
    while i < end
        invariant
            start <= i <= end <= total,
            total == lspec.len(),
            string_views(ls@) == lspec,
            rows == Seq::new(
                (end - start) as nat,
                |j: int| listing_row(lspec[start as int + j], start as int + j + 1),
            ),
            built@.len() == i - start,
            forall|k: int| 0 <= k < built@.len() ==> (#[trigger] built@[k])@ == rows[k],
        decreases end - i,
    {
        let mut row = padded6((i + 1) as u64);
        row = concat_string(row, "\t");
        let clipped = clip_line(ls[i].as_str());
        row = concat_string(row, clipped.as_str());
        proof {
            assert(lspec[i as int] == ls@[i as int]@);
            assert(rows[i as int - start as int] == listing_row(lspec[i as int], i as int + 1));
        }
        built.push(row);
        i += 1;
    }
    let mut out = crate::text::join_with(&built, "\n");
    proof {
        assert(string_views(built@) =~= rows);
    }
    if end < total {
        out = concat_string(out, "\n\n[... ");
        out = concat_string(out, u64_to_string((total - end) as u64).as_str());
        out = concat_string(out, " more lines]");
    } else {
        proof {
            assert(out@ =~= out@ + Seq::<char>::empty());
        }
    }
    out
}

} // verus!
