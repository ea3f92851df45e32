//! Chat-output formatting: per-tool icons, progress lines, and splitting
//! long messages into chunks a chat platform will accept.

use vstd::prelude::*;
use vstd::string::StrSliceExecFns;
use vstd::string::StringSliceAdditionalSpecFns;

use crate::messages::concat_str;
use crate::text::{concat_string, lower_chars, str_eq, starts_with_chars, trim_start_string};

verus! {

/// Whether `p` is a prefix of `s`.
pub open spec fn has_prefix(s: Seq<char>, p: Seq<char>) -> bool {
    s.len() >= p.len() && s.subrange(0, p.len() as int) == p
}

/// The icon shown for a tool name.
pub open spec fn spec_tool_icon(name: Seq<char>) -> Seq<char> {
    if name == "web_search"@ {
        "🌐"@
    } else if name == "web_fetch"@ {
        "📥"@
    } else if name == "memory_save"@ || name == "memory_search"@ || name == "memory_list"@
        || name == "memory_delete"@ {
        "🧠"@
    } else if name == "bash"@ {
        "⚡"@
    } else if name == "read"@ {
        "📖"@
    } else if name == "write"@ {
        "✏️"@
    } else if name == "glob"@ {
        "🔍"@
    } else if name == "grep"@ {
        "🔎"@
    } else if name == "get_datetime"@ {
        "🕐"@
    } else if has_prefix(name, "gmail_"@) {
        "📧"@
    } else if has_prefix(name, "sheets_"@) {
        "📊"@
    } else {
        "🔧"@
    }
}

pub fn tool_icon(name: &str) -> (r: &'static str)
    ensures
        r@ == spec_tool_icon(name@),
{
    if str_eq(name, "web_search") {
        "🌐"
    } else if str_eq(name, "web_fetch") {
        "📥"
    } else if str_eq(name, "memory_save") || str_eq(name, "memory_search") || str_eq(
        name,
        "memory_list",
    ) || str_eq(name, "memory_delete") {
        "🧠"
    } else if str_eq(name, "bash") {
        "⚡"
    } else if str_eq(name, "read") {
        "📖"
    } else if str_eq(name, "write") {
        "✏️"
    } else if str_eq(name, "glob") {
        "🔍"
    } else if str_eq(name, "grep") {
        "🔎"
    } else if str_eq(name, "get_datetime") {
        "🕐"
    } else if starts_with_chars(name, "gmail_") {
        "📧"
    } else if starts_with_chars(name, "sheets_") {
        "📊"
    } else {
        "🔧"
    }
}

/// The progress line shown while a tool runs.
pub fn format_progress(current_tool: &str) -> (r: String)
    ensures
        r@ == "⏳ "@ + spec_tool_icon(current_tool@) + " Đang dùng "@ + current_tool@ + "..."@,
{
    let icon = tool_icon(current_tool);
    let mut s = concat_str("⏳ ", icon);
    s = concat_string(s, " Đang dùng ");
    s = concat_string(s, current_tool);
    s = concat_string(s, "...");
    s
}

/// The largest byte index at or under `pos` that sits on a character
/// boundary, or the string's end when `pos` overshoots it.
pub fn floor_char_boundary(s: &str, pos: usize) -> (r: usize)
    ensures
        pos >= s.spec_bytes().len() ==> r == s.spec_bytes().len(),
        pos < s.spec_bytes().len() ==> {
            &&& r <= pos
            &&& vstd::utf8::is_char_boundary(s.spec_bytes(), r as int)
            &&& forall|k: int|
                r < k <= pos ==> !vstd::utf8::is_char_boundary(s.spec_bytes(), k)
        },
{
    proof {
        vstd::utf8::encode_utf8_valid_utf8(s@);
    }
    let n = s.as_bytes().len();
    if pos >= n {
        return n;
    }
    let mut i: usize = pos;
    while i > 0 && !s.is_char_boundary(i)
        invariant
            i <= pos < n,
            n == s.spec_bytes().len(),
            forall|k: int| i < k <= pos ==> !vstd::utf8::is_char_boundary(s.spec_bytes(), k),
        decreases i,
    {
        i -= 1;
    }
    i
}

/// Split a message into chunks of at most `max_len` bytes, preferring to
/// break at a newline, then at a space, and otherwise at the last character
/// boundary that fits; whitespace at a break is swallowed. A text that fits
/// comes back whole, and a split that cannot make progress returns the rest
/// unsplit rather than stall.
pub fn split_message(text: &str, max_len: usize) -> (r: Vec<String>)
    requires
        max_len >= 1,
    ensures
        r@.len() >= 1,
        text.spec_bytes().len() <= max_len ==> r@.len() == 1 && r@[0]@ == text@,
        forall|i: int|
            0 <= i < r@.len() - 1 ==> vstd::utf8::encode_utf8(#[trigger] r@[i]@).len() <= max_len,
{
    if text.len() <= max_len {
        let mut r: Vec<String> = Vec::new();
        r.push(text.to_owned());
        return r;
    }
    let mut chunks: Vec<String> = Vec::new();
    let mut remaining: String = text.to_owned();
    loop
        invariant_except_break
            forall|i: int|
                0 <= i < chunks@.len() ==> vstd::utf8::encode_utf8(#[trigger] chunks@[i]@).len()
                    <= max_len,
        invariant
            max_len >= 1,
        ensures
            chunks@.len() >= 1,
            forall|i: int|
                0 <= i < chunks@.len() - 1 ==> vstd::utf8::encode_utf8(
                    #[trigger] chunks@[i]@,
                ).len() <= max_len,
        decreases remaining@.len(),
    {
        let rem = remaining.as_str();
        if rem.is_empty() {
            if chunks.len() == 0 {
                chunks.push(String::new());
            }
            break;
        }
        if rem.len() <= max_len {
            chunks.push(rem.to_owned());
            break;
        }
        let safe_end = floor_char_boundary(rem, max_len);
        let split_pos = pick_split(rem, safe_end);
        if split_pos == 0 {
            // no boundary fits under the limit: hand the rest back unsplit
            chunks.push(rem.to_owned());
            break;
        }
        let pieces = rem.split_at(split_pos);
        let head: String = pieces.0.to_owned();
        let rest: String = trim_start_string(pieces.1);
        proof {
            lemma_nonempty_bytes(pieces.0);
            crate::text::lemma_trim_start_le(pieces.1@);
            let bytes = rem.spec_bytes();
            vstd::utf8::encode_utf8_valid_utf8(rem@);
            vstd::utf8::encode_utf8_decode_utf8(rem@);
            vstd::utf8::decode_utf8_split(bytes, split_pos as int);
            vstd::utf8::encode_utf8_decode_utf8(pieces.0@);
            vstd::utf8::encode_utf8_decode_utf8(pieces.1@);
            assert(pieces.0@ == vstd::utf8::decode_utf8(bytes.subrange(0, split_pos as int)));
            assert(pieces.1@ == vstd::utf8::decode_utf8(
                bytes.subrange(split_pos as int, bytes.len() as int),
            ));
            assert(pieces.0@.len() + pieces.1@.len() == rem@.len());
        }
        proof {
            assert(vstd::utf8::encode_utf8(head@).len() == split_pos);
        }
        chunks.push(head);
        remaining = rest;
    }
    chunks
}

/// A nonempty encoding decodes to at least one character.
proof fn lemma_nonempty_bytes(s: &str)
    requires
        s.spec_bytes().len() > 0,
    ensures
        s@.len() > 0,
{
    if s@.len() == 0 {
        assert(vstd::utf8::encode_utf8(s@) =~= Seq::<u8>::empty());
    }
}

/// The byte position to split at: the last newline in the window, else the
/// last space, else the window's end; a position that is not a character
/// boundary falls back to the window's end.
fn pick_split(rem: &str, safe_end: usize) -> (r: usize)
    requires
        safe_end <= rem.spec_bytes().len(),
        vstd::utf8::is_char_boundary(rem.spec_bytes(), safe_end as int),
    ensures
        r <= safe_end,
        vstd::utf8::is_char_boundary(rem.spec_bytes(), r as int),
{
    let zone = rem.split_at(safe_end).0;
    let cand = match rfind_byte(zone, 10u8) {
        Some(k) => Some(k),
        None => rfind_byte(zone, 32u8),
    };
    match cand {
        Some(k) => {
            if k > 0 && rem.is_char_boundary(k) {
                k
            } else {
                safe_end
            }
        },
        None => safe_end,
    }
}

/// The last position of byte `b` in `s`, if any.
fn rfind_byte(s: &str, b: u8) -> (r: Option<usize>)
    ensures
        r matches Some(k) ==> k < s.spec_bytes().len(),
{
    let bytes = s.as_bytes();
    let mut i: usize = bytes.len();
    while i > 0
        invariant
            i <= bytes@.len(),
            bytes@.len() == s.spec_bytes().len(),
        decreases i,
    {
        i -= 1;
        if bytes[i] == b {
            return Some(i);
        }
    }
    None
}

/// The provider named by an inline override prefix, with the rest of the
/// message, or nothing when no prefix matches or nothing follows it.
pub open spec fn provider_override(text: Seq<char>) -> Option<(Seq<char>, Seq<char>)> {
    let lower = lower_chars(text);
    if has_prefix(lower, "use openai "@) && text.len() > "use openai "@.len() {
        Some(("openai"@, text.skip("use openai "@.len() as int)))
    } else if has_prefix(lower, "dùng openai "@) && text.len() > "dùng openai "@.len() {
        Some(("openai"@, text.skip("dùng openai "@.len() as int)))
    } else if has_prefix(lower, "use gemini "@) && text.len() > "use gemini "@.len() {
        Some(("gemini"@, text.skip("use gemini "@.len() as int)))
    } else if has_prefix(lower, "dùng gemini "@) && text.len() > "dùng gemini "@.len() {
        Some(("gemini"@, text.skip("dùng gemini "@.len() as int)))
    } else if has_prefix(lower, "use groq "@) && text.len() > "use groq "@.len() {
        Some(("groq"@, text.skip("use groq "@.len() as int)))
    } else if has_prefix(lower, "dùng groq "@) && text.len() > "dùng groq "@.len() {
        Some(("groq"@, text.skip("dùng groq "@.len() as int)))
    } else if has_prefix(lower, "use mistral "@) && text.len() > "use mistral "@.len() {
        Some(("mistral"@, text.skip("use mistral "@.len() as int)))
    } else if has_prefix(lower, "dùng mistral "@) && text.len() > "dùng mistral "@.len() {
        Some(("mistral"@, text.skip("dùng mistral "@.len() as int)))
    } else {
        None
    }
}

/// One prefix probe of the override parser.
fn try_prefix(text: &str, lower: &str, prefix: &str, provider: &str) -> (r: Option<(String, String)>)
    requires
        lower@ == lower_chars(text@),
    ensures
        match r {
            Some(p) => has_prefix(lower_chars(text@), prefix@) && text@.len() > prefix@.len()
                && p.0@ == provider@ && p.1@ == text@.skip(prefix@.len() as int),
            None => !(has_prefix(lower_chars(text@), prefix@) && text@.len() > prefix@.len()),
        },
{
    let n = text.unicode_len();
    let m = prefix.unicode_len();
    if starts_with_chars(lower, prefix) && n > m {
        proof {
            assert(lower@.len() == text@.len());
            assert(text@.skip(m as int) =~= text@.subrange(m as int, n as int));
        }
        let rest = text.substring_char(m, n).to_owned();
        Some((provider.to_owned(), rest))
    } else {
        None
    }
}

/// Parse an inline provider override: a leading "use <provider> " or
/// "dùng <provider> " picks that provider for this one message, and the
/// rest of the text is the message itself.
pub fn parse_provider_override(text: &str) -> (r: (Option<String>, String))
    ensures
        match provider_override(text@) {
            Some(p) => r.0 matches Some(name) && name@ == p.0 && r.1@ == p.1,
            None => r.0 is None && r.1@ == text@,
        },
{
    let lower = crate::text::ascii_lowercase(text);
    if let Some(p) = try_prefix(text, lower.as_str(), "use openai ", "openai") {
        return (Some(p.0), p.1);
    }
    if let Some(p) = try_prefix(text, lower.as_str(), "dùng openai ", "openai") {
        return (Some(p.0), p.1);
    }
    if let Some(p) = try_prefix(text, lower.as_str(), "use gemini ", "gemini") {
        return (Some(p.0), p.1);
    }
    if let Some(p) = try_prefix(text, lower.as_str(), "dùng gemini ", "gemini") {
        return (Some(p.0), p.1);
    }
    if let Some(p) = try_prefix(text, lower.as_str(), "use groq ", "groq") {
        return (Some(p.0), p.1);
    }
    if let Some(p) = try_prefix(text, lower.as_str(), "dùng groq ", "groq") {
        return (Some(p.0), p.1);
    }
    if let Some(p) = try_prefix(text, lower.as_str(), "use mistral ", "mistral") {
        return (Some(p.0), p.1);
    }
    if let Some(p) = try_prefix(text, lower.as_str(), "dùng mistral ", "mistral") {
        return (Some(p.0), p.1);
    }
    (None, text.to_owned())
}

} // verus!
