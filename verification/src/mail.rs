//! The mailbox tool's data handling: credentials, message structure, header
//! lookup, the base64 and base64url codecs its wire format uses, and the
//! request URLs it sends. The HTTP calls themselves happen outside this
//! crate; they hand these functions plain values and take plain values back.

use vstd::prelude::*;
use vstd::string::StrSliceExecFns;
use vstd::string::StringSliceAdditionalSpecFns;

use crate::text::{
    concat_string, lower_chars, replace_str, replace_spec, spec_decimal, u64_to_string,
};
use crate::messages::concat_str;

verus! {

/// OAuth credentials for the mailbox and spreadsheet tools.
#[derive(Debug, Clone)]
pub struct GmailCreds {
    pub client_id: String,
    pub client_secret: String,
    pub refresh_token: String,
}

impl GmailCreds {
    /// Credentials are usable only when every part is present.
    pub fn is_configured(&self) -> (r: bool)
        ensures
            r == (self.client_id@.len() > 0 && self.client_secret@.len() > 0
                && self.refresh_token@.len() > 0),
    {
        !self.client_id.as_str().is_empty() && !self.client_secret.as_str().is_empty()
            && !self.refresh_token.as_str().is_empty()
    }
}

/// One message header, as the mailbox API reports it.
#[derive(Debug)]
pub struct Header {
    pub name: String,
    pub value: String,
}

/// A message body: base64url text, when present.
#[derive(Debug)]
pub struct Body {
    pub data: Option<String>,
}

/// One MIME part: its type, its body, and nested parts one level down.
#[derive(Debug)]
pub struct Part {
    pub mime_type: Option<String>,
    pub body: Option<Body>,
    pub parts: Option<Vec<Part>>,
}

/// A message payload: headers, a direct body, and MIME parts.
#[derive(Debug)]
pub struct Payload {
    pub headers: Option<Vec<Header>>,
    pub body: Option<Body>,
    pub parts: Option<Vec<Part>>,
}

/// The value of the first header whose name matches, ASCII
/// case-insensitively, or empty.
pub open spec fn header_value(headers: Seq<Header>, name: Seq<char>, i: int) -> Seq<char>
    decreases headers.len() - i,
{
    if i < 0 || i >= headers.len() {
        Seq::empty()
    } else if lower_chars(headers[i].name@) == lower_chars(name) {
        headers[i].value@
    } else {
        header_value(headers, name, i + 1)
    }
}

/// Look a header up by name, ASCII case-insensitively.
pub fn get_header(headers: &Vec<Header>, name: &str) -> (r: String)
    ensures
        r@ == header_value(headers@, name@, 0),
{
    let want = crate::text::ascii_lowercase(name);
    let mut i: usize = 0;
    while i < headers.len()
        invariant
            i <= headers@.len(),
            want@ == lower_chars(name@),
            header_value(headers@, name@, 0) == header_value(headers@, name@, i as int),
        decreases headers@.len() - i,
    {
        let have = crate::text::ascii_lowercase(headers[i].name.as_str());
        if have == want {
            return headers[i].value.clone();
        }
        i += 1;
    }
    String::new()
}

// ---------------------------------------------------------------------------
// base64 and base64url.
// ---------------------------------------------------------------------------

/// The base64url alphabet, by 6-bit value.
pub open spec fn b64url_char(v: int) -> char {
    if v < 26 {
        ((65 + v) as u8) as char  // 'A'..
    } else if v < 52 {
        ((97 + (v - 26)) as u8) as char  // 'a'..
    } else if v < 62 {
        ((48 + (v - 52)) as u8) as char  // '0'..
    } else if v == 62 {
        '-'
    } else {
        '_'
    }
}

/// Unpadded base64url of a byte sequence, three bytes to four characters.
pub open spec fn b64url_of(bytes: Seq<u8>) -> Seq<char>
    decreases bytes.len(),
{
    if bytes.len() == 0 {
        Seq::empty()
    } else {
        let b0 = bytes[0] as int;
        let b1 = if bytes.len() > 1 {
            bytes[1] as int
        } else {
            0
        };
        let b2 = if bytes.len() > 2 {
            bytes[2] as int
        } else {
            0
        };
        let triple = b0 * 65536 + b1 * 256 + b2;
        let head = seq![b64url_char(triple / 262144), b64url_char(triple / 4096 % 64)];
        let mid = if bytes.len() > 1 {
            seq![b64url_char(triple / 64 % 64)]
        } else {
            Seq::empty()
        };
        let tail = if bytes.len() > 2 {
            seq![b64url_char(triple % 64)]
        } else {
            Seq::empty()
        };
        if bytes.len() <= 3 {
            head + mid + tail
        } else {
            head + mid + tail + b64url_of(bytes.skip(3))
        }
    }
}

fn b64url_char_exec(v: u32) -> (c: char)
    requires
        v < 64,
    ensures
        c == b64url_char(v as int),
{
    if v < 26 {
        ((65 + v) as u8) as char
    } else if v < 52 {
        ((97 + (v - 26)) as u8) as char
    } else if v < 62 {
        ((48 + (v - 52)) as u8) as char
    } else if v == 62 {
        '-'
    } else {
        '_'
    }
}

/// Encode bytes as unpadded base64url, as the mailbox's raw-message field
/// expects.
#[verifier::rlimit(100)]
pub fn base64url_encode(input: &[u8]) -> (r: String)
    ensures
        r@ == b64url_of(input@),
{
    let n = input.len();
    let mut out = String::new();
    let mut i: usize = 0;
    proof {
        assert(input@.skip(0) =~= input@);
    }
    while i < n
        invariant
            i <= n,
            n == input@.len(),
            b64url_of(input@) == out@ + b64url_of(input@.skip(i as int)),
        decreases n - i,
    {
        let remaining = n - i;
        let b0 = input[i] as u32;
        let b1: u32 = if remaining >= 2 {
            input[i + 1] as u32
        } else {
            0
        };
        let b2: u32 = if remaining >= 3 {
            input[i + 2] as u32
        } else {
            0
        };
        let triple: u32 = b0 * 65536 + b1 * 256 + b2;
        let ghost rest = input@.skip(i as int);
        let ghost tr = rest[0] as int * 65536 + (if rest.len() > 1 {
            rest[1] as int
        } else {
            0
        }) * 256 + (if rest.len() > 2 {
            rest[2] as int
        } else {
            0
        });
        proof {
            assert(rest[0] == input@[i as int]);
            if remaining >= 2 {
                assert(rest[1] == input@[i as int + 1]);
            }
            if remaining >= 3 {
                assert(rest[2] == input@[i as int + 2]);
            }
            assert(tr == triple as int);
        }
        let ghost out0 = out@;
        push_c(&mut out, b64url_char_exec(triple / 262144));
        push_c(&mut out, b64url_char_exec(triple / 4096 % 64));
        if remaining >= 2 {
            push_c(&mut out, b64url_char_exec(triple / 64 % 64));
        }
        if remaining >= 3 {
            push_c(&mut out, b64url_char_exec(triple % 64));
        }
        proof {
            let c0 = b64url_char(tr / 262144);
            let c1 = b64url_char(tr / 4096 % 64);
            let c2 = b64url_char(tr / 64 % 64);
            let c3 = b64url_char(tr % 64);
            if remaining >= 3 {
                assert(out@ =~= out0 + seq![c0, c1, c2, c3]);
                if remaining > 3 {
                    assert(b64url_of(rest) =~= seq![c0, c1, c2, c3] + b64url_of(rest.skip(3)));
                    assert(rest.skip(3) =~= input@.skip(i as int + 3));
                } else {
                    assert(b64url_of(rest) =~= seq![c0, c1, c2, c3]);
                    assert(input@.skip(n as int) =~= Seq::<u8>::empty());
                }
            } else if remaining == 2 {
                assert(out@ =~= out0 + seq![c0, c1, c2]);
                assert(b64url_of(rest) =~= seq![c0, c1, c2]);
                assert(input@.skip(n as int) =~= Seq::<u8>::empty());
            } else {
                assert(out@ =~= out0 + seq![c0, c1]);
                assert(b64url_of(rest) =~= seq![c0, c1]);
                assert(input@.skip(n as int) =~= Seq::<u8>::empty());
            }
        }
        i = if remaining >= 3 {
            i + 3
        } else {
            n
        };
        proof {
            assert(b64url_of(input@) =~= out@ + b64url_of(input@.skip(i as int)));
        }
    }
    proof {
        assert(input@.skip(n as int) =~= Seq::<u8>::empty());
        assert(out@ + b64url_of(Seq::<u8>::empty()) =~= out@);
    }
    out
}

fn push_c(s: &mut String, c: char)
    ensures
        final(s)@ == old(s)@.push(c),
{
    crate::text::push_char(s, c)
}

/// The 6-bit value of a standard-base64 character, if it has one.
pub open spec fn b64_val(b: u8) -> Option<int> {
    if 65 <= b <= 90 {
        Some(b - 65)  // 'A'..'Z'
    } else if 97 <= b <= 122 {
        Some(26 + (b - 97))  // 'a'..'z'
    } else if 48 <= b <= 57 {
        Some(52 + (b - 48))  // '0'..'9'
    } else if b == 43 {
        Some(62)  // '+'
    } else if b == 47 {
        Some(63)  // '/'
    } else {
        None
    }
}

/// What the base64 decoder yields from position `i` on, carrying `bits`
/// buffered bits in `buf`: padding and line breaks are skipped, any other
/// byte outside the alphabet fails the whole decode.
pub open spec fn b64_decoded(bytes: Seq<u8>, i: int, buf: int, bits: int) -> Option<Seq<u8>>
    decreases bytes.len() - i,
{
    if i < 0 || i >= bytes.len() {
        Some(Seq::empty())
    } else {
        let b = bytes[i];
        if b == 61 || b == 10 || b == 13 {  // '=' and line breaks
            b64_decoded(bytes, i + 1, buf, bits)
        } else {
            match b64_val(b) {
                None => None,
                Some(v) => {
                    let buf2 = buf * 64 + v;
                    let bits2 = bits + 6;
                    if bits2 >= 8 {
                        let d = if bits2 - 8 == 0 {
                            1
                        } else if bits2 - 8 == 2 {
                            4
                        } else {
                            16
                        };
                        match b64_decoded(bytes, i + 1, buf2 % d, bits2 - 8) {
                            None => None,
                            Some(rest) => Some(seq![(buf2 / d) as u8] + rest),
                        }
                    } else {
                        b64_decoded(bytes, i + 1, buf2, bits2)
                    }
                },
            }
        }
    }
}

fn b64_val_exec(b: u8) -> (r: Option<u8>)
    ensures
        match r {
            Some(v) => b64_val(b) == Some(v as int) && v < 64,
            None => b64_val(b) is None,
        },
{
    if 65 <= b && b <= 90 {
        Some(b - 65)
    } else if 97 <= b && b <= 122 {
        Some(26 + (b - 97))
    } else if 48 <= b && b <= 57 {
        Some(52 + (b - 48))
    } else if b == 43 {
        Some(62)
    } else if b == 47 {
        Some(63)
    } else {
        None
    }
}

/// Decode standard base64, skipping padding and line breaks; any other
/// byte outside the alphabet is an error.
pub fn base64_decode(input: &str) -> (r: Result<Vec<u8>, String>)
    ensures
        match b64_decoded(input.spec_bytes(), 0, 0, 0) {
            Some(bs) => r matches Ok(v) && v@ == bs,
            None => r matches Err(e) && e@ == "invalid base64"@,
        },
{
    let bytes = input.as_bytes();
    let n = bytes.len();
    let mut out: Vec<u8> = Vec::new();
    let mut buf: u32 = 0;
    let mut bits: u32 = 0;
    let mut i: usize = 0;
    while i < n
        invariant
            i <= n,
            n == input.spec_bytes().len(),
            bytes@ == input.spec_bytes(),
            bits == 0 || bits == 2 || bits == 4 || bits == 6,
            buf < 64,
            bits == 0 ==> buf == 0,
            bits == 2 ==> buf < 4,
            bits == 4 ==> buf < 16,
            match b64_decoded(bytes@, i as int, buf as int, bits as int) {
                Some(rest) => b64_decoded(bytes@, 0, 0, 0) == Some(out@ + rest),
                None => b64_decoded(bytes@, 0, 0, 0) is None,
            },
        decreases n - i,
    {
        let b = bytes[i];
        if b == 61 || b == 10 || b == 13 {
            i += 1;
            continue ;
        }
        match b64_val_exec(b) {
            None => {
                return Err("invalid base64".to_owned());
            },
            Some(v) => {
                let buf2: u32 = buf * 64 + v as u32;
                let bits2: u32 = bits + 6;
                if bits2 >= 8 {
                    let d: u32 = if bits2 - 8 == 0 {
                        1
                    } else if bits2 - 8 == 2 {
                        4
                    } else {
                        16
                    };
                    let ghost out0 = out@;
                    out.push((buf2 / d) as u8);
                    proof {
                        assert(out@ =~= out0.push((buf2 / d) as u8));
                    }
                    buf = buf2 % d;
                    bits = bits2 - 8;
                } else {
                    buf = buf2;
                    bits = bits2;
                }
                i += 1;
            },
        }
    }
    proof {
        assert(out@ + Seq::<u8>::empty() =~= out@);
    }
    Ok(out)
}

/// What the base64url text of a message body decodes to: converted to
/// standard base64, padded, decoded, and read as UTF-8, or empty when the
/// data is not valid base64.
pub open spec fn decoded_b64url(data: Seq<char>) -> Seq<char> {
    let std_form = replace_spec(replace_spec(data, "-"@, "+"@), "_"@, "/"@);
    let std_bytes = vstd::utf8::encode_utf8(std_form);
    let padded = if std_bytes.len() % 4 == 2 {
        std_bytes + vstd::utf8::encode_utf8("=="@)
    } else if std_bytes.len() % 4 == 3 {
        std_bytes + vstd::utf8::encode_utf8("="@)
    } else {
        std_bytes
    };
    match b64_decoded(padded, 0, 0, 0) {
        Some(bs) => lossy_utf8(bs),
        None => Seq::empty(),
    }
}

/// What `String::from_utf8_lossy` reads from a byte sequence: the result
/// depends on the bytes alone.
pub uninterp spec fn lossy_utf8(bytes: Seq<u8>) -> Seq<char>;

/// Relies on `String::from_utf8_lossy`: the decoding is a function of the
/// bytes alone, and valid UTF-8 comes back unchanged.
#[verifier::external_body]
fn utf8_lossy(bytes: &Vec<u8>) -> (r: String)
    ensures
        r@ == lossy_utf8(bytes@),
        vstd::utf8::valid_utf8(bytes@) ==> r@ == vstd::utf8::decode_utf8(bytes@),
{
    String::from_utf8_lossy(bytes.as_slice()).into_owned()
}

/// Decode a base64url message body to text; bad data decodes to nothing.
pub fn decode_base64url(data: &str) -> (r: String)
    ensures
        r@ == decoded_b64url(data@),
{
    proof {
        reveal_strlit("-");
        reveal_strlit("+");
        reveal_strlit("_");
        reveal_strlit("/");
    }
    let b64 = replace_str(data, "-", "+");
    let b64 = replace_str(b64.as_str(), "_", "/");
    let ghost b64view = b64@;
    let rem = b64.as_str().as_bytes().len() % 4;
    let padded = if rem == 2 {
        concat_string(b64, "==")
    } else if rem == 3 {
        concat_string(b64, "=")
    } else {
        b64
    };
    proof {
        lemma_encode_concat(b64view, "=="@);
        lemma_encode_concat(b64view, "="@);
    }
    match base64_decode(padded.as_str()) {
        Ok(bytes) => utf8_lossy(&bytes),
        Err(_) => String::new(),
    }
}

/// Encoding distributes over concatenation.
proof fn lemma_encode_concat(a: Seq<char>, b: Seq<char>)
    ensures
        vstd::utf8::encode_utf8(a + b) =~= vstd::utf8::encode_utf8(a) + vstd::utf8::encode_utf8(b),
    decreases a.len(),
{
    if a.len() == 0 {
        assert(a + b =~= b);
    } else {
        assert((a + b).drop_first() =~= a.drop_first() + b);
        assert((a + b)[0] == a[0]);
        lemma_encode_concat(a.drop_first(), b);
    }
}

/// The text of a message: the first `text/plain` part, looking one level
/// into nested parts, and otherwise the payload's own body; all decoded
/// from base64url.
pub open spec fn body_text(p: Payload) -> Seq<char> {
    match p.parts {
        Some(parts) => match first_plain(parts@, 0) {
            Some(data) => decoded_b64url(data),
            None => direct_body(p),
        },
        None => direct_body(p),
    }
}

pub open spec fn direct_body(p: Payload) -> Seq<char> {
    match p.body {
        Some(b) => match b.data {
            Some(d) => decoded_b64url(d@),
            None => Seq::empty(),
        },
        None => Seq::empty(),
    }
}

/// The data of the first `text/plain` part at or after `i`, checking each
/// part's own nested parts one level down, as the message reader does.
pub open spec fn first_plain(parts: Seq<Part>, i: int) -> Option<Seq<char>>
    decreases parts.len() - i,
{
    if i < 0 || i >= parts.len() {
        None
    } else {
        match plain_data(parts[i]) {
            Some(d) => Some(d),
            None => match nested_plain(parts[i]) {
                Some(d) => Some(d),
                None => first_plain(parts, i + 1),
            },
        }
    }
}

pub open spec fn plain_data(p: Part) -> Option<Seq<char>> {
    match p.mime_type {
        Some(m) => if m@ == "text/plain"@ {
            match p.body {
                Some(b) => match b.data {
                    Some(d) => Some(d@),
                    None => None,
                },
                None => None,
            }
        } else {
            None
        },
        None => None,
    }
}

pub open spec fn nested_plain(p: Part) -> Option<Seq<char>> {
    match p.parts {
        Some(sub) => first_plain_shallow(sub@, 0),
        None => None,
    }
}

/// Like `first_plain`, but without looking into nested parts again: the
/// reader descends one level only.
pub open spec fn first_plain_shallow(parts: Seq<Part>, i: int) -> Option<Seq<char>>
    decreases parts.len() - i,
{
    if i < 0 || i >= parts.len() {
        None
    } else {
        match plain_data(parts[i]) {
            Some(d) => Some(d),
            None => first_plain_shallow(parts, i + 1),
        }
    }
}

fn plain_data_exec(p: &Part) -> (r: Option<String>)
    ensures
        match r {
            Some(s) => plain_data(*p) == Some(s@),
            None => plain_data(*p) is None,
        },
{
    match &p.mime_type {
        Some(m) => {
            if crate::text::str_eq(m.as_str(), "text/plain") {
                match &p.body {
                    Some(b) => match &b.data {
                        Some(d) => Some(d.clone()),
                        None => None,
                    },
                    None => None,
                }
            } else {
                None
            }
        },
        None => None,
    }
}

/// Extract the readable text of a message payload.
#[verifier::loop_isolation(false)]
pub fn extract_body_text(payload: &Payload) -> (r: String)
    ensures
        r@ == body_text(*payload),
{
    match &payload.parts {
        Some(parts) => {
            let mut i: usize = 0;
            while i < parts.len()
                invariant
                    i <= parts@.len(),
                    first_plain(parts@, 0) == first_plain(parts@, i as int),
                decreases parts@.len() - i,
            {
                match plain_data_exec(&parts[i]) {
                    Some(d) => {
                        return decode_base64url(d.as_str());
                    },
                    None => {},
                }
                match &parts[i].parts {
                    Some(sub) => {
                        let mut j: usize = 0;
                        while j < sub.len()
                            invariant
                                j <= sub@.len(),
                                parts@[i as int].parts matches Some(sv) && sv@ == sub@,
                                plain_data(parts@[i as int]) is None,
                                first_plain_shallow(sub@, 0) == first_plain_shallow(
                                    sub@,
                                    j as int,
                                ),
                            decreases sub@.len() - j,
                        {
                            match plain_data_exec(&sub[j]) {
                                Some(d) => {
                                    return decode_base64url(d.as_str());
                                },
                                None => {},
                            }
                            j += 1;
                        }
                    },
                    None => {},
                }
                i += 1;
            }
            direct_body_exec(payload)
        },
        None => direct_body_exec(payload),
    }
}

fn direct_body_exec(payload: &Payload) -> (r: String)
    ensures
        r@ == direct_body(*payload),
{
    match &payload.body {
        Some(b) => match &b.data {
            Some(d) => decode_base64url(d.as_str()),
            None => String::new(),
        },
        None => String::new(),
    }
}

// ---------------------------------------------------------------------------
// Request building.
// ---------------------------------------------------------------------------

/// Percent-encoding as the URL encoder performs it: every byte except the
/// ASCII alphanumerics and `-`, `.`, `_`, `~` becomes `%` and two uppercase
/// hex digits.
pub open spec fn url_safe_byte(b: u8) -> bool {
    (48 <= b <= 57) || (65 <= b <= 90) || (97 <= b <= 122) || b == 45 || b == 46 || b == 95 || b
        == 126
}

pub open spec fn hex_upper(d: int) -> char {
    if d < 10 {
        ((48 + d) as u8) as char
    } else {
        ((55 + d) as u8) as char
    }
}

pub open spec fn url_encoded(bytes: Seq<u8>) -> Seq<char>
    decreases bytes.len(),
{
    if bytes.len() == 0 {
        Seq::empty()
    } else {
        let b = bytes[0];
        (if url_safe_byte(b) {
            seq![b as char]
        } else {
            seq!['%', hex_upper(b as int / 16), hex_upper(b as int % 16)]
        }) + url_encoded(bytes.drop_first())
    }
}

/// Relies on `urlencoding::encode`: percent-encodes every byte except the
/// ASCII alphanumerics and `-`, `.`, `_`, `~`, as `%` and two uppercase hex
/// digits, in input order.
#[verifier::external_body]
pub(crate) fn url_encode_str(s: &str) -> (r: String)
    ensures
        r@ == url_encoded(s.spec_bytes()),
{
    urlencoding::encode(s).into_owned()
}

/// The mailbox search URL for a query and a result cap.
pub fn gmail_search_url(query: &str, max_results: u32) -> (r: String)
    ensures
        r@ == "https://gmail.googleapis.com/gmail/v1/users/me/messages?q="@ + url_encoded(
            query.spec_bytes(),
        ) + "&maxResults="@ + spec_decimal(max_results as int),
{
    let mut url = concat_str(
        "https://gmail.googleapis.com/gmail/v1/users/me/messages?q=",
        url_encode_str(query).as_str(),
    );
    url = concat_string(url, "&maxResults=");
    let digits = u64_to_string(max_results as u64);
    url = concat_string(url, digits.as_str());
    url
}

/// The RFC 2822 text of an outgoing mail, base64url-encoded as the send
/// endpoint's raw field expects.
pub fn build_mail_raw(to: &str, subject: &str, body: &str) -> (r: String)
    ensures
        r@ == b64url_of(
            vstd::utf8::encode_utf8(
                "To: "@ + to@ + "\r\nSubject: "@ + subject@
                    + "\r\nContent-Type: text/plain; charset=utf-8\r\n\r\n"@ + body@,
            ),
        ),
{
    let mut raw = concat_str("To: ", to);
    raw = concat_string(raw, "\r\nSubject: ");
    raw = concat_string(raw, subject);
    raw = concat_string(raw, "\r\nContent-Type: text/plain; charset=utf-8\r\n\r\n");
    raw = concat_string(raw, body);
    base64url_encode(raw.as_str().as_bytes())
}

/// One search-result summary, as the mailbox search reports each hit.
pub fn format_message_summary(
    id: &str,
    from: &str,
    date: &str,
    subject: &str,
    snippet: &str,
) -> (r: String)
    ensures
        r@ == "ID: "@ + id@ + "\nFrom: "@ + from@ + "\nDate: "@ + date@ + "\nSubject: "@
            + subject@ + "\nSnippet: "@ + snippet@,
{
    let mut out = concat_str("ID: ", id);
    out = concat_string(out, "\nFrom: ");
    out = concat_string(out, from);
    out = concat_string(out, "\nDate: ");
    out = concat_string(out, date);
    out = concat_string(out, "\nSubject: ");
    out = concat_string(out, subject);
    out = concat_string(out, "\nSnippet: ");
    out = concat_string(out, snippet);
    out
}

/// What reading a message shows: the address headers, then the body text,
/// capped at the reader's byte budget.
pub open spec fn email_view(p: Payload) -> Seq<char> {
    let hs = match p.headers {
        Some(h) => h@,
        None => Seq::empty(),
    };
    "Subject: "@ + header_value(hs, "Subject"@, 0) + "\nFrom: "@ + header_value(hs, "From"@, 0)
        + "\nTo: "@ + header_value(hs, "To"@, 0) + "\nDate: "@ + header_value(hs, "Date"@, 0)
        + "\n\n"@ + crate::system::truncated(body_text(p), 4000)
}

/// Format a whole message for the reader.
pub fn format_email(payload: &Payload) -> (r: String)
    ensures
        r@ == email_view(*payload),
{
    let empty_headers: Vec<Header> = Vec::new();
    let headers: &Vec<Header> = match &payload.headers {
        Some(h) => h,
        None => &empty_headers,
    };
    let subject = get_header(headers, "Subject");
    let from = get_header(headers, "From");
    let to = get_header(headers, "To");
    let date = get_header(headers, "Date");
    let body = extract_body_text(payload);
    let preview = crate::system::truncate_output(body.as_str(), 4000);
    proof {
        reveal_strlit("Subject");
        reveal_strlit("From");
        reveal_strlit("To");
        reveal_strlit("Date");
    }
    let mut out = concat_str("Subject: ", subject.as_str());
    out = concat_string(out, "\nFrom: ");
    out = concat_string(out, from.as_str());
    out = concat_string(out, "\nTo: ");
    out = concat_string(out, to.as_str());
    out = concat_string(out, "\nDate: ");
    out = concat_string(out, date.as_str());
    out = concat_string(out, "\n\n");
    out = concat_string(out, preview.as_str());
    out
}

} // verus!
