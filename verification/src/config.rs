//! The runtime configuration and the parsing of its textual settings. The
//! values themselves come from the process environment, which is read
//! outside this crate; the functions here turn the raw setting strings into
//! structured values.

use vstd::prelude::*;
use vstd::string::StrSliceExecFns;

use crate::mail::GmailCreds;
use crate::text::{concat_string, find_from, is_match_at, string_views, trim_spec, trim_str};

verus! {

/// Everything the agent reads from its environment at startup.
#[derive(Debug, Clone)]
pub struct Config {
    pub telegram_bot_token: String,
    pub allowed_users: Vec<u64>,
    pub openai_keys: Vec<String>,
    pub gemini_keys: Vec<String>,
    pub groq_keys: Vec<String>,
    pub mistral_keys: Vec<String>,
    pub default_provider: String,
    pub max_agent_turns: usize,
    pub max_queue_depth: usize,
    pub gmail_creds: GmailCreds,
    pub enable_system_tools: bool,
    pub working_dir: String,
    pub bash_timeout: u64,
    pub enable_code_sessions: bool,
    pub code_assistant_path: String,
    pub cc_timeout: u64,
}

/// The position of the first comma at or after `i`, or the end.
pub open spec fn first_comma(s: Seq<char>, i: int) -> int
    decreases s.len() - i,
{
    if i < 0 || i >= s.len() {
        s.len() as int
    } else if s[i] == ',' {
        i
    } else {
        first_comma(s, i + 1)
    }
}

/// The comma-separated fields of `s[i..]`, each trimmed, empty ones
/// dropped.
pub open spec fn clean_fields(s: Seq<char>, i: int) -> Seq<Seq<char>>
    decreases s.len() - i,
{
    if i < 0 || i > s.len() {
        Seq::empty()
    } else {
        let j = first_comma(s, i);
        if j < i || j > s.len() {
            Seq::empty()
        } else {
            let f = trim_spec(s.subrange(i, j));
            let rest = if j < s.len() {
                clean_fields(s, j + 1)
            } else {
                Seq::empty()
            };
            if f.len() > 0 {
                seq![f] + rest
            } else {
                rest
            }
        }
    }
}

proof fn lemma_first_comma_at(s: Seq<char>, i: int, j: int)
    requires
        0 <= i <= j <= s.len(),
        forall|k: int| i <= k < j ==> s[k] != ',',
        j < s.len() ==> s[j] == ',',
    ensures
        first_comma(s, i) == if j < s.len() {
            j
        } else {
            s.len() as int
        },
    decreases j - i,
{
    if i < j {
        lemma_first_comma_at(s, i + 1, j);
    }
}

/// Parse a comma-separated list of credentials: fields are trimmed and
/// empty ones dropped, so stray commas and spacing are harmless.
pub fn parse_keys(value: &str) -> (r: Vec<String>)
    ensures
        string_views(r@) == clean_fields(value@, 0),
{
    let n = value.unicode_len();
    let mut r: Vec<String> = Vec::new();
    let mut start: usize = 0;
    proof {
        reveal_strlit(",");
        assert(string_views(r@) =~= Seq::<Seq<char>>::empty());
    }
    loop
        invariant
            start <= n,
            n == value@.len(),
            clean_fields(value@, 0) == string_views(r@) + clean_fields(value@, start as int),
        decreases n - start,
    {
        proof {
            reveal_strlit(",");
        }
        let comma = find_from(value, ",", start);
        let upto: usize = match comma {
            Some(k) => k,
            None => n,
        };
        proof {
            reveal_strlit(",");
            match comma {
                Some(k) => {
                    assert(value@[k as int] == ',') by {
                        assert(","@.len() == 1);
                        assert(value@.subrange(k as int, k as int + 1) == ","@);
                        assert(value@.subrange(k as int, k as int + 1)[0] == value@[k as int]);
                        assert(","@[0] == ',');
                    }
                    assert forall|x: int| start <= x < k implies value@[x] != ',' by {
                        assert(!is_match_at(value@, ","@, x));
                        if value@[x] == ',' {
                            assert(value@.subrange(x, x + 1) =~= ","@);
                        }
                    }
                    lemma_first_comma_at(value@, start as int, k as int);
                },
                None => {
                    assert forall|x: int| start <= x < n implies value@[x] != ',' by {
                        assert(!is_match_at(value@, ","@, x));
                        if value@[x] == ',' {
                            assert(value@.subrange(x, x + 1) =~= ","@);
                        }
                    }
                    lemma_first_comma_at(value@, start as int, n as int);
                },
            }
        }
        let piece = value.substring_char(start, upto);
        let field = trim_str(piece);
        let ghost r0 = r@;
        if !field.as_str().is_empty() {
            r.push(field);
            proof {
                crate::text::lemma_string_views_push(r0, r@.last());
            }
        }
        proof {
            assert(value@.subrange(start as int, upto as int) == piece@);
            assert(string_views(r@) + clean_fields(value@, upto as int + 1) =~= string_views(r0)
                + clean_fields(value@, start as int)) by {
                assert(clean_fields(value@, start as int) == (if trim_spec(
                    value@.subrange(start as int, upto as int),
                ).len() > 0 {
                    seq![trim_spec(value@.subrange(start as int, upto as int))]
                } else {
                    Seq::<Seq<char>>::empty()
                }) + (if (upto as int) < n {
                    clean_fields(value@, upto as int + 1)
                } else {
                    Seq::<Seq<char>>::empty()
                }));
            }
        }
        match comma {
            Some(_) => {
                start = upto + 1;
            },
            None => {
                proof {
                    assert(clean_fields(value@, n as int) =~= if trim_spec(
                        value@.subrange(n as int, first_comma(value@, n as int)),
                    ).len() > 0 {
                        seq![
                            trim_spec(value@.subrange(n as int, first_comma(value@, n as int))),
                        ]
                    } else {
                        Seq::<Seq<char>>::empty()
                    });
                }
                return r;
            },
        }
    }
}

/// Expand a leading `~` to the home directory, when one is known.
pub fn expand_tilde(path: &str, home: Option<&str>) -> (r: String)
    ensures
        r@ == if (path@ == "~"@ || (path@.len() >= 2 && path@.subrange(0, 2) == "~/"@)) && home
            is Some {
            home->Some_0@ + path@.skip(1)
        } else {
            path@
        },
{
    let n = value_len(path);
    let tilde_alone = crate::text::str_eq(path, "~");
    let tilde_slash = crate::text::starts_with_chars(path, "~/");
    if (tilde_alone || tilde_slash) && home.is_some() {
        let h = match home {
            Some(h) => h,
            None => "",
        };
        proof {
            reveal_strlit("~");
            reveal_strlit("~/");
            if tilde_alone {
                assert(path@.len() == 1);
            }
            assert(path@.skip(1) =~= path@.subrange(1, n as int));
        }
        let rest = path.substring_char(1, n);
        concat_string(h.to_owned(), rest)
    } else {
        path.to_owned()
    }
}

fn value_len(s: &str) -> (n: usize)
    ensures
        n == s@.len(),
{
    s.unicode_len()
}

} // verus!
