//! Reading a terminal session's pane: stripping ANSI control sequences,
//! recognising an interactive prompt, and extracting the output that
//! appeared since a baseline capture. The terminal itself is driven outside
//! this crate.

use vstd::prelude::*;
use vstd::string::StrSliceExecFns;

use crate::text::{
    concat_string, fields_char, joined_from, push_char, split_char, str_eq, string_views,
    trim_spec, trim_str,
};

verus! {

/// Info about one running console session.
#[derive(Debug, Clone)]
pub struct SessionInfo {
    pub working_dir: String,
    pub created_at: String,
    pub last_activity: String,
}

pub open spec fn is_csi_final(c: char) -> bool {
    ('a' <= c && c <= 'z') || ('A' <= c && c <= 'Z') || c == '@' || c == '~'
}

/// The position of the byte that ends a control sequence started before
/// `j`, or the end of the text.
pub open spec fn csi_end(s: Seq<char>, j: int) -> int
    decreases s.len() - j,
{
    if j < 0 || j >= s.len() {
        s.len() as int
    } else if is_csi_final(s[j]) {
        j
    } else {
        csi_end(s, j + 1)
    }
}

/// The position just after the terminator of an operating-system command
/// sequence scanned from `j`, or the end of the text.
pub open spec fn osc_end(s: Seq<char>, j: int) -> int
    decreases s.len() - j,
{
    if j < 0 || j >= s.len() {
        s.len() as int
    } else if s[j] == '\x07' {
        j + 1
    } else if s[j] == '\x1b' {
        if j + 1 < s.len() && s[j + 1] == '\\' {
            j + 2
        } else {
            j + 1
        }
    } else {
        osc_end(s, j + 1)
    }
}

pub open spec fn clamp_idx(x: int, n: int) -> int {
    if x > n {
        n
    } else {
        x
    }
}

/// The text with ANSI escape sequences and carriage returns removed,
/// reading from position `i`.
pub open spec fn stripped(s: Seq<char>, i: int) -> Seq<char>
    decreases s.len() - i,
{
    let n = s.len() as int;
    if i < 0 || i >= n {
        Seq::empty()
    } else {
        let c = s[i];
        if c == '\x1b' {
            if i + 1 < n && s[i + 1] == '[' {
                let e = csi_end(s, i + 2);
                stripped(s, if e < i + 2 {
                    n
                } else {
                    clamp_idx(e + 1, n)
                })
            } else if i + 1 < n && s[i + 1] == ']' {
                let e = osc_end(s, i + 2);
                stripped(s, if e < i + 2 {
                    n
                } else {
                    clamp_idx(e, n)
                })
            } else if i + 1 < n && (s[i + 1] == '(' || s[i + 1] == ')') {
                stripped(s, clamp_idx(i + 3, n))
            } else {
                stripped(s, clamp_idx(i + 2, n))
            }
        } else if c == '\r' {
            stripped(s, i + 1)
        } else {
            seq![c] + stripped(s, i + 1)
        }
    }
}

/// Strip ANSI control sequences — CSI, OSC and character-set selections —
/// and carriage returns from captured terminal output.
pub fn strip_ansi(input: &str) -> (r: String)
    ensures
        r@ == stripped(input@, 0),
{
    let n = input.unicode_len();
    let mut out = String::new();
    let mut i: usize = 0;
    while i < n
        invariant
            i <= n,
            n == input@.len(),
            stripped(input@, 0) == out@ + stripped(input@, i as int),
        decreases n - i,
    {
        let c = input.get_char(i);
        if c == '\x1b' {
            if i + 1 < n && input.get_char(i + 1) == '[' {
                let mut j: usize = i + 2;
                while j < n && !csi_final_exec(input.get_char(j))
                    invariant
                        i + 2 <= j <= n,
                        n == input@.len(),
                        csi_end(input@, i as int + 2) == csi_end(input@, j as int),
                    decreases n - j,
                {
                    j += 1;
                }
                let ni: usize = if j < n {
                    j + 1
                } else {
                    n
                };
                proof {
                    if j < n {
                        assert(csi_end(input@, j as int) == j as int);
                    } else {
                        assert(csi_end(input@, j as int) == n as int);
                    }
                    assert(stripped(input@, i as int) == stripped(input@, ni as int));
                }
                i = ni;
            } else if i + 1 < n && input.get_char(i + 1) == ']' {
                let mut j: usize = i + 2;
                let mut stop: usize = n;
                let mut done = false;
                while j < n && !done
                    invariant
                        i + 2 <= j <= n,
                        i + 2 <= stop <= n,
                        n == input@.len(),
                        !done ==> osc_end(input@, i as int + 2) == osc_end(input@, j as int),
                        done ==> osc_end(input@, i as int + 2) == stop as int,
                        !done ==> stop == n,
                    decreases n - j + if done {
                        0int
                    } else {
                        1int
                    },
                {
                    let cj = input.get_char(j);
                    if cj == '\x07' {
                        stop = j + 1;
                        done = true;
                    } else if cj == '\x1b' {
                        if j + 1 < n && input.get_char(j + 1) == '\\' {
                            stop = j + 2;
                        } else {
                            stop = j + 1;
                        }
                        done = true;
                    } else {
                        j += 1;
                    }
                }
                proof {
                    if !done {
                        assert(osc_end(input@, j as int) == n as int);
                    }
                    assert(stripped(input@, i as int) == stripped(input@, stop as int));
                }
                i = stop;
            } else if i + 1 < n && (input.get_char(i + 1) == '(' || input.get_char(i + 1) == ')') {
                let ni: usize = if n - i >= 3 {
                    i + 3
                } else {
                    n
                };
                proof {
                    assert(stripped(input@, i as int) == stripped(input@, ni as int));
                }
                i = ni;
            } else {
                let ni: usize = if n - i >= 2 {
                    i + 2
                } else {
                    n
                };
                proof {
                    assert(stripped(input@, i as int) == stripped(input@, ni as int));
                }
                i = ni;
            }
        } else if c == '\r' {
            proof {
                assert(stripped(input@, i as int) == stripped(input@, i as int + 1));
            }
            i += 1;
        } else {
            let ghost out0 = out@;
            push_char(&mut out, c);
            proof {
                assert(stripped(input@, i as int) =~= seq![c] + stripped(input@, i as int + 1));
                assert(out@ + stripped(input@, i as int + 1) =~= out0 + stripped(
                    input@,
                    i as int,
                ));
            }
            i += 1;
        }
    }
    proof {
        assert(out@ + stripped(input@, n as int) =~= out@);
    }
    out
}

fn csi_final_exec(c: char) -> (r: bool)
    ensures
        r == is_csi_final(c),
{
    ('a' <= c && c <= 'z') || ('A' <= c && c <= 'Z') || c == '@' || c == '~'
}

/// One trailing carriage return removed, as line splitting does.
pub open spec fn strip_cr(l: Seq<char>) -> Seq<char> {
    if l.len() > 0 && l.last() == '\r' {
        l.drop_last()
    } else {
        l
    }
}

/// The lines of a text: split at every newline, a final line ending
/// optional, and one carriage return stripped from each line's end.
pub open spec fn lines_spec(s: Seq<char>) -> Seq<Seq<char>> {
    let f = fields_char(s, '\n', 0);
    let g = if f.len() > 0 && f.last().len() == 0 {
        f.drop_last()
    } else {
        f
    };
    g.map_values(|l: Seq<char>| strip_cr(l))
}

/// Split a text into its lines.
pub fn lines_of(s: &str) -> (r: Vec<String>)
    ensures
        string_views(r@) == lines_spec(s@),
{
    let mut fields = split_char(s, '\n');
    let ghost f0 = fields@;
    let drop_tail = match fields.last() {
        Some(l) => l.as_str().is_empty(),
        None => false,
    };
    proof {
        if f0.len() > 0 {
            assert(string_views(f0).last() == f0.last()@);
        }
    }
    if drop_tail {
        let _ = fields.pop();
        proof {
            assert(string_views(fields@) =~= string_views(f0).drop_last());
        }
    }
    let ghost cleaned = if fields_char(s@, '\n', 0).len() > 0 && fields_char(
        s@,
        '\n',
        0,
    ).last().len() == 0 {
        fields_char(s@, '\n', 0).drop_last()
    } else {
        fields_char(s@, '\n', 0)
    };
    proof {
        assert(string_views(fields@) =~= cleaned);
    }
    let mut out: Vec<String> = Vec::new();
    let mut i: usize = 0;
    while i < fields.len()
        invariant
            i <= fields@.len(),
            string_views(fields@) == cleaned,
            out@.len() == i,
            forall|k: int| 0 <= k < i ==> (#[trigger] out@[k])@ == strip_cr(cleaned[k]),
        decreases fields@.len() - i,
    {
        let l = &fields[i];
        let ln = l.unicode_len();
        let has_cr = if ln > 0 {
            l.as_str().get_char(ln - 1) == '\r'
        } else {
            false
        };
        if has_cr {
            proof {
                assert(l@.subrange(0, ln as int - 1) =~= l@.drop_last());
            }
            out.push(l.as_str().substring_char(0, ln - 1).to_owned());
        } else {
            out.push(l.clone());
        }
        proof {
            assert(cleaned[i as int] == fields@[i as int]@);
        }
        i += 1;
    }
    proof {
        assert(string_views(out@) =~= cleaned.map_values(|l: Seq<char>| strip_cr(l)));
    }
    out
}

/// The trimmed text of the last line with visible content, if any.
pub open spec fn last_nonblank(ls: Seq<Seq<char>>, from: int) -> Option<Seq<char>>
    decreases from + 1,
{
    if from < 0 || from >= ls.len() {
        None
    } else if trim_spec(ls[from]).len() > 0 {
        Some(trim_spec(ls[from]))
    } else {
        last_nonblank(ls, from - 1)
    }
}

/// Whether a trimmed line reads like an interactive prompt: short, and
/// ending in a prompt marker.
pub open spec fn promptish(t: Seq<char>) -> bool {
    t.len() <= 200 && (t.len() >= 1 && (t.last() == '>' || t.last() == '❯') || (t.len() >= 2
        && t.subrange(t.len() as int - 2, t.len() as int) == "$ "@) || t == "$"@ || t == ">"@ || t
        == "❯"@)
}

/// Whether the last non-blank line of the captured pane looks like a
/// prompt waiting for input.
pub fn looks_like_prompt(content: &str) -> (r: bool)
    ensures
        r == match last_nonblank(lines_spec(content@), lines_spec(content@).len() as int - 1) {
            Some(t) => promptish(t),
            None => false,
        },
{
    let ls = lines_of(content);
    let mut i: usize = ls.len();
    while i > 0
        invariant
            i <= ls@.len(),
            string_views(ls@) == lines_spec(content@),
            last_nonblank(lines_spec(content@), lines_spec(content@).len() as int - 1)
                == last_nonblank(lines_spec(content@), i as int - 1),
        decreases i,
    {
        i -= 1;
        let trimmed = trim_str(ls[i].as_str());
        proof {
            assert(lines_spec(content@)[i as int] == ls@[i as int]@);
        }
        if !trimmed.as_str().is_empty() {
            return promptish_exec(trimmed.as_str());
        }
    }
    false
}

fn promptish_exec(t: &str) -> (r: bool)
    ensures
        r == promptish(t@),
{
    proof {
        reveal_strlit("$ ");
        reveal_strlit("$");
        reveal_strlit(">");
        reveal_strlit("❯");
    }
    let n = t.unicode_len();
    if n > 200 {
        return false;
    }
    let ends_gt = n >= 1 && t.get_char(n - 1) == '>';
    let ends_arrow = n >= 1 && t.get_char(n - 1) == '❯';
    let ends_dollar_space = n >= 2 && t.get_char(n - 2) == '$' && t.get_char(n - 1) == ' ';
    proof {
        if n >= 2 {
            assert(t@.subrange(n as int - 2, n as int) =~= seq![t@[n as int - 2], t@[n as int - 1]]);
            assert("$ "@ =~= seq!['$', ' ']);
        }
    }
    let eq_dollar = str_eq(t, "$");
    let eq_gt = str_eq(t, ">");
    let eq_arrow = str_eq(t, "❯");
    ends_gt || ends_arrow || ends_dollar_space || eq_dollar || eq_gt || eq_arrow
}

/// How many leading lines two captures share.
pub open spec fn common_prefix_len(a: Seq<Seq<char>>, b: Seq<Seq<char>>, i: int) -> int
    decreases a.len() - i,
{
    if 0 <= i < a.len() && i < b.len() && a[i] == b[i] {
        common_prefix_len(a, b, i + 1)
    } else {
        i
    }
}

/// The lines the current capture added after the baseline capture, joined
/// back into one text: both captures are stripped of control sequences,
/// their common leading lines dropped, and the rest kept verbatim.
pub fn extract_response(baseline: &str, current: &str) -> (r: String)
    ensures
        ({
            let b = lines_spec(stripped(baseline@, 0));
            let c = lines_spec(stripped(current@, 0));
            r@ == joined_from(c, "\n"@, common_prefix_len(b, c, 0))
        }),
{
    let baseline_clean = strip_ansi(baseline);
    let current_clean = strip_ansi(current);
    let b = lines_of(baseline_clean.as_str());
    let c = lines_of(current_clean.as_str());
    let ghost bs = lines_spec(stripped(baseline@, 0));
    let ghost cs = lines_spec(stripped(current@, 0));
    let mut common: usize = 0;
    while common < b.len() && common < c.len() && str_eq(
        b[common].as_str(),
        c[common].as_str(),
    )
        invariant
            common <= bs.len(),
            common <= cs.len(),
            string_views(b@) == bs,
            string_views(c@) == cs,
            common_prefix_len(bs, cs, 0) == common_prefix_len(bs, cs, common as int),
        decreases bs.len() - common,
    {
        proof {
            assert(bs[common as int] == b@[common as int]@);
            assert(cs[common as int] == c@[common as int]@);
        }
        common += 1;
    }
    proof {
        assert(common_prefix_len(bs, cs, common as int) == common) by {
            if common < bs.len() && common < cs.len() {
                assert(bs[common as int] == b@[common as int]@);
                assert(cs[common as int] == c@[common as int]@);
            }
        }
    }
    let mut tail: Vec<String> = Vec::new();
    let mut i: usize = common;
    while i < c.len()
        invariant
            common <= i <= cs.len(),
            string_views(c@) == cs,
            string_views(tail@) =~= cs.subrange(common as int, i as int),
        decreases cs.len() - i,
    {
        let ghost t0 = tail@;
        tail.push(c[i].clone());
        proof {
            crate::text::lemma_string_views_push(t0, tail@.last());
            assert(string_views(tail@) =~= cs.subrange(common as int, i as int + 1));
        }
        i += 1;
    }
    proof {
        lemma_join_skip(cs, common as int);
        assert(string_views(tail@) =~= cs.subrange(common as int, cs.len() as int));
    }
    crate::text::join_with(&tail, "\n")
}

/// Joining from an offset is joining the suffix from its start.
proof fn lemma_join_skip(ls: Seq<Seq<char>>, k: int)
    requires
        0 <= k <= ls.len(),
    ensures
        joined_from(ls, "\n"@, k) == joined_from(ls.subrange(k, ls.len() as int), "\n"@, 0),
    decreases ls.len() - k,
{
    lemma_join_shift(ls, k, 0);
}

proof fn lemma_join_shift(ls: Seq<Seq<char>>, k: int, o: int)
    requires
        0 <= k,
        0 <= o,
        k + o <= ls.len(),
    ensures
        joined_from(ls, "\n"@, k + o) == joined_from(ls.subrange(k, ls.len() as int), "\n"@, o),
    decreases ls.len() - k - o,
{
    let suffix = ls.subrange(k, ls.len() as int);
    if k + o < ls.len() {
        assert(suffix[o] == ls[k + o]);
        lemma_join_shift(ls, k, o + 1);
    }
}

} // verus!
