//! Small string utilities shared across the crate.

use vstd::prelude::*;
use vstd::string::StringExecFns;

verus! {

/// Content equality of two string slices.
pub fn str_eq(a: &str, b: &str) -> (r: bool)
    ensures
        r == (a@ == b@),
{
    let sa = a.to_owned();
    let sb = b.to_owned();
    sa == sb
}

/// Relies on `String::push`: appends the given character to the end of the
/// string.
#[verifier::external_body]
pub fn push_char(s: &mut String, c: char)
    ensures
        final(s)@ == old(s)@.push(c),
{
    s.push(c)
}

/// `s` with `t` appended.
pub fn concat_string(s: String, t: &str) -> (r: String)
    ensures
        r@ == s@ + t@,
{
    let mut s = s;
    s.append(t);
    s
}

/// The decimal digits of `n`, most significant first.
pub open spec fn spec_decimal(n: int) -> Seq<char>
    decreases n,
{
    if n < 0 {
        Seq::empty()
    } else if n < 10 {
        seq![spec_digit(n)]
    } else {
        spec_decimal(n / 10).push(spec_digit(n % 10))
    }
}

pub open spec fn spec_digit(d: int) -> char {
    if d == 0 {
        '0'
    } else if d == 1 {
        '1'
    } else if d == 2 {
        '2'
    } else if d == 3 {
        '3'
    } else if d == 4 {
        '4'
    } else if d == 5 {
        '5'
    } else if d == 6 {
        '6'
    } else if d == 7 {
        '7'
    } else if d == 8 {
        '8'
    } else {
        '9'
    }
}

fn digit_char(d: u64) -> (c: char)
    requires
        d < 10,
    ensures
        c == spec_digit(d as int),
{
    match d {
        0 => '0',
        1 => '1',
        2 => '2',
        3 => '3',
        4 => '4',
        5 => '5',
        6 => '6',
        7 => '7',
        8 => '8',
        _ => '9',
    }
}

/// `n` written in decimal.
pub fn u64_to_string(n: u64) -> (r: String)
    ensures
        r@ == spec_decimal(n as int),
    decreases n,
{
    if n < 10 {
        let mut s = String::new();
        push_char(&mut s, digit_char(n));
        s
    } else {
        let mut s = u64_to_string(n / 10);
        push_char(&mut s, digit_char(n % 10));
        s
    }
}

/// Whether `s` begins with `prefix`, character by character.
pub fn starts_with_chars(s: &str, prefix: &str) -> (r: bool)
    ensures
        r == (s@.len() >= prefix@.len() && s@.subrange(0, prefix@.len() as int) == prefix@),
{
    let n = s.unicode_len();
    let m = prefix.unicode_len();
    if n < m {
        return false;
    }
    let mut i: usize = 0;
    while i < m
        invariant
            i <= m,
            m == prefix@.len(),
            n == s@.len(),
            n >= m,
            forall|k: int| 0 <= k < i ==> s@[k] == prefix@[k],
        decreases m - i,
    {
        if s.get_char(i) != prefix.get_char(i) {
            proof {
                assert(s@.subrange(0, m as int)[i as int] != prefix@[i as int]);
            }
            return false;
        }
        i += 1;
    }
    proof {
        assert(s@.subrange(0, m as int) =~= prefix@);
    }
    true
}

/// The character sequences behind a sequence of strings.
pub open spec fn string_views(s: Seq<String>) -> Seq<Seq<char>> {
    s.map_values(|x: String| x@)
}

/// Appending one string appends its characters.
pub proof fn lemma_string_views_push(s: Seq<String>, x: String)
    ensures
        string_views(s.push(x)) =~= string_views(s).push(x@),
{
}

/// Whether `pat` occurs in `s` at position `k`.
pub open spec fn is_match_at(s: Seq<char>, pat: Seq<char>, k: int) -> bool {
    0 <= k && k + pat.len() <= s.len() && s.subrange(k, k + pat.len()) == pat
}

/// Whether the characters of `pat` stand in `s` at position `k`.
fn match_at(s: &str, n: usize, pat: &str, m: usize, k: usize) -> (r: bool)
    requires
        n == s@.len(),
        m == pat@.len(),
        k + m <= n,
    ensures
        r == is_match_at(s@, pat@, k as int),
{
    let mut i: usize = 0;
    while i < m
        invariant
            i <= m,
            n == s@.len(),
            m == pat@.len(),
            k + m <= n,
            forall|x: int| 0 <= x < i ==> s@[k + x] == pat@[x],
        decreases m - i,
    {
        if s.get_char(k + i) != pat.get_char(i) {
            proof {
                assert(s@.subrange(k as int, k as int + m) [i as int] != pat@[i as int]);
            }
            return false;
        }
        i += 1;
    }
    proof {
        assert(s@.subrange(k as int, k as int + m) =~= pat@);
    }
    true
}

/// The first position at or after `from` where `pat` occurs in `s`, or -1.
pub open spec fn first_match(s: Seq<char>, pat: Seq<char>, from: int) -> int
    decreases s.len() - from,
{
    if from < 0 || from + pat.len() > s.len() {
        -1
    } else if pat.len() == 0 {
        from
    } else if is_match_at(s, pat, from) {
        from
    } else {
        first_match(s, pat, from + 1)
    }
}

proof fn lemma_first_match_at(s: Seq<char>, pat: Seq<char>, from: int, k: int)
    requires
        pat.len() > 0,
        0 <= from <= k,
        is_match_at(s, pat, k),
        forall|k2: int| from <= k2 < k ==> !is_match_at(s, pat, k2),
    ensures
        first_match(s, pat, from) == k,
    decreases k - from,
{
    if from < k {
        lemma_first_match_at(s, pat, from + 1, k);
    }
}

proof fn lemma_first_match_none(s: Seq<char>, pat: Seq<char>, from: int)
    requires
        pat.len() > 0,
        0 <= from,
        forall|k2: int| from <= k2 ==> !is_match_at(s, pat, k2),
    ensures
        first_match(s, pat, from) == -1,
    decreases s.len() + 1 - from,
{
    if from + pat.len() <= s.len() {
        lemma_first_match_none(s, pat, from + 1);
    }
}

/// The first position at or after `from` where `pat` occurs in `s`, if any.
pub fn find_from(s: &str, pat: &str, from: usize) -> (r: Option<usize>)
    requires
        pat@.len() > 0,
    ensures
        match r {
            Some(k) => is_match_at(s@, pat@, k as int) && from <= k && (forall|k2: int|
                from <= k2 < k ==> !is_match_at(s@, pat@, k2)) && first_match(
                s@,
                pat@,
                from as int,
            ) == k,
            None => (forall|k2: int| from <= k2 ==> !is_match_at(s@, pat@, k2)) && first_match(
                s@,
                pat@,
                from as int,
            ) == -1,
        },
{
    let n = s.unicode_len();
    let m = pat.unicode_len();
    if from >= n || n - from < m {
        proof {
            assert forall|k2: int| from <= k2 implies !is_match_at(s@, pat@, k2) by {}
            lemma_first_match_none(s@, pat@, from as int);
        }
        return None;
    }
    let mut k: usize = from;
    while k <= n - m
        invariant
            from <= k,
            m <= n,
            n == s@.len(),
            m == pat@.len(),
            m > 0,
            forall|k2: int| from <= k2 < k ==> !is_match_at(s@, pat@, k2),
        decreases n - k,
    {
        if match_at(s, n, pat, m, k) {
            proof {
                lemma_first_match_at(s@, pat@, from as int, k as int);
            }
            return Some(k);
        }
        k += 1;
    }
    proof {
        assert forall|k2: int| from <= k2 implies !is_match_at(s@, pat@, k2) by {}
        lemma_first_match_none(s@, pat@, from as int);
    }
    None
}

/// Whether `pat` occurs anywhere in `s`.
pub fn contains_str(s: &str, pat: &str) -> (r: bool)
    requires
        pat@.len() > 0,
    ensures
        r == exists|k: int| is_match_at(s@, pat@, k),
{
    match find_from(s, pat, 0) {
        Some(k) => {
            proof {
                assert(is_match_at(s@, pat@, k as int));
            }
            true
        },
        None => {
            proof {
                assert forall|k: int| !is_match_at(s@, pat@, k) by {
                    if is_match_at(s@, pat@, k) {
                        assert(0 <= k);
                    }
                }
            }
            false
        },
    }
}

/// `s` with every occurrence of `pat` replaced by `sub`, left to right,
/// never re-examining replaced text.
pub open spec fn replace_spec(s: Seq<char>, pat: Seq<char>, sub: Seq<char>) -> Seq<char>
    decreases s.len(),
    when pat.len() > 0
{
    if s.len() < pat.len() {
        s
    } else if s.subrange(0, pat.len() as int) == pat {
        sub + replace_spec(s.skip(pat.len() as int), pat, sub)
    } else {
        seq![s[0]] + replace_spec(s.drop_first(), pat, sub)
    }
}

pub fn replace_str(s: &str, pat: &str, sub: &str) -> (r: String)
    requires
        pat@.len() > 0,
    ensures
        r@ == replace_spec(s@, pat@, sub@),
{
    let n = s.unicode_len();
    let m = pat.unicode_len();
    let mut out = String::new();
    let mut i: usize = 0;
    proof {
        assert(s@.skip(0) =~= s@);
    }
    while i < n
        invariant
            i <= n,
            n == s@.len(),
            m == pat@.len(),
            m > 0,
            replace_spec(s@, pat@, sub@) == out@ + replace_spec(s@.skip(i as int), pat@, sub@),
        decreases n - i,
    {
        let tail_big_enough = n - i >= m;
        if tail_big_enough && match_at(s, n, pat, m, i) {
            proof {
                assert(s@.skip(i as int).subrange(0, m as int) =~= s@.subrange(
                    i as int,
                    i as int + m,
                ));
                assert(s@.skip(i as int).skip(m as int) =~= s@.skip(i as int + m));
            }
            out.append(sub);
            i += m;
        } else {
            proof {
                if n - i >= m {
                    assert(s@.skip(i as int).subrange(0, m as int) =~= s@.subrange(
                        i as int,
                        i as int + m,
                    ));
                }
                assert(s@.skip(i as int).drop_first() =~= s@.skip(i as int + 1));
                assert(s@.skip(i as int)[0] == s@[i as int]);
            }
            push_char(&mut out, s.get_char(i));
            i += 1;
        }
    }
    proof {
        assert(s@.skip(n as int) =~= Seq::<char>::empty());
        assert(out@ + Seq::<char>::empty() =~= out@);
    }
    out
}

/// ASCII whitespace, as the trimming helpers use it.
pub open spec fn is_space(c: char) -> bool {
    c == ' ' || c == '\t' || c == '\n' || c == '\r'
}

fn space_char(c: char) -> (r: bool)
    ensures
        r == is_space(c),
{
    c == ' ' || c == '\t' || c == '\n' || c == '\r'
}

/// `s` without its leading ASCII whitespace.
pub open spec fn trim_start_spec(s: Seq<char>) -> Seq<char>
    decreases s.len(),
{
    if s.len() > 0 && is_space(s[0]) {
        trim_start_spec(s.drop_first())
    } else {
        s
    }
}

/// `s` without its trailing ASCII whitespace.
pub open spec fn trim_end_spec(s: Seq<char>) -> Seq<char>
    decreases s.len(),
{
    if s.len() > 0 && is_space(s.last()) {
        trim_end_spec(s.drop_last())
    } else {
        s
    }
}

pub open spec fn trim_spec(s: Seq<char>) -> Seq<char> {
    trim_end_spec(trim_start_spec(s))
}

proof fn lemma_trim_start_skip(s: Seq<char>, a: int)
    requires
        0 <= a <= s.len(),
        forall|k: int| 0 <= k < a ==> is_space(s[k]),
        a < s.len() ==> !is_space(s[a]),
    ensures
        trim_start_spec(s) == s.skip(a),
    decreases a,
{
    if a == 0 {
        if s.len() > 0 && is_space(s[0]) {
            assert(false);
        }
        assert(s.skip(0) =~= s);
    } else {
        assert(is_space(s[0]));
        lemma_trim_start_skip(s.drop_first(), a - 1);
        assert(s.drop_first().skip(a - 1) =~= s.skip(a));
    }
}

proof fn lemma_trim_end_take(s: Seq<char>, b: int)
    requires
        0 <= b <= s.len(),
        forall|k: int| b <= k < s.len() ==> is_space(s[k]),
        b > 0 ==> !is_space(s[b - 1]),
    ensures
        trim_end_spec(s) == s.take(b),
    decreases s.len() - b,
{
    if b == s.len() {
        if s.len() > 0 && is_space(s.last()) {
            assert(false);
        }
        assert(s.take(b) =~= s);
    } else {
        assert(is_space(s.last()));
        lemma_trim_end_take(s.drop_last(), b);
        assert(s.drop_last().take(b) =~= s.take(b));
    }
}

/// `s` without leading and trailing ASCII whitespace.
pub fn trim_str(s: &str) -> (r: String)
    ensures
        r@ == trim_spec(s@),
{
    let n = s.unicode_len();
    let mut a: usize = 0;
    while a < n && space_char(s.get_char(a))
        invariant
            a <= n,
            n == s@.len(),
            forall|k: int| 0 <= k < a ==> is_space(s@[k]),
        decreases n - a,
    {
        a += 1;
    }
    let mut b: usize = n;
    while b > a && space_char(s.get_char(b - 1))
        invariant
            a <= b <= n,
            n == s@.len(),
            forall|k: int| 0 <= k < a ==> is_space(s@[k]),
            a < n ==> !is_space(s@[a as int]),
            forall|k: int| b <= k < n ==> is_space(s@[k]),
        decreases b,
    {
        b -= 1;
    }
    proof {
        lemma_trim_start_skip(s@, a as int);
        if b == a {
            lemma_trim_end_take(s@.skip(a as int), 0);
        } else {
            lemma_trim_end_take(s@.skip(a as int), b - a);
        }
        assert(s@.skip(a as int).take(b - a) =~= s@.subrange(a as int, b as int));
    }
    let piece = s.substring_char(a, b);
    piece.to_owned()
}

/// Trimming from the front only shortens.
pub proof fn lemma_trim_start_le(s: Seq<char>)
    ensures
        trim_start_spec(s).len() <= s.len(),
    decreases s.len(),
{
    if s.len() > 0 && is_space(s[0]) {
        lemma_trim_start_le(s.drop_first());
    }
}

/// `s` without its leading ASCII whitespace.
pub fn trim_start_string(s: &str) -> (r: String)
    ensures
        r@ == trim_start_spec(s@),
{
    let n = s.unicode_len();
    let mut a: usize = 0;
    while a < n && space_char(s.get_char(a))
        invariant
            a <= n,
            n == s@.len(),
            forall|k: int| 0 <= k < a ==> is_space(s@[k]),
        decreases n - a,
    {
        a += 1;
    }
    proof {
        lemma_trim_start_skip(s@, a as int);
        assert(s@.skip(a as int) =~= s@.subrange(a as int, n as int));
    }
    let piece = s.substring_char(a, n);
    piece.to_owned()
}

/// The position of the first `sep` at or after `i`, or the end.
pub open spec fn next_sep(s: Seq<char>, sep: char, i: int) -> int
    decreases s.len() - i,
{
    if i < 0 || i >= s.len() {
        s.len() as int
    } else if s[i] == sep {
        i
    } else {
        next_sep(s, sep, i + 1)
    }
}

/// The `sep`-separated fields of `s[i..]`, split at every separator.
pub open spec fn fields_char(s: Seq<char>, sep: char, i: int) -> Seq<Seq<char>>
    decreases s.len() - i,
{
    if i < 0 || i > s.len() {
        Seq::empty()
    } else {
        let j = next_sep(s, sep, i);
        if j < i || j > s.len() {
            Seq::empty()
        } else {
            seq![s.subrange(i, j)] + (if j < s.len() {
                fields_char(s, sep, j + 1)
            } else {
                Seq::empty()
            })
        }
    }
}

proof fn lemma_next_sep_at(s: Seq<char>, sep: char, i: int, j: int)
    requires
        0 <= i <= j <= s.len(),
        forall|k: int| i <= k < j ==> s[k] != sep,
        j < s.len() ==> s[j] == sep,
    ensures
        next_sep(s, sep, i) == if j < s.len() {
            j
        } else {
            s.len() as int
        },
    decreases j - i,
{
    if i < j {
        lemma_next_sep_at(s, sep, i + 1, j);
    }
}

fn find_char_from(s: &str, n: usize, sep: char, from: usize) -> (r: Option<usize>)
    requires
        n == s@.len(),
        from <= n,
    ensures
        match r {
            Some(k) => from <= k < n && next_sep(s@, sep, from as int) == k,
            None => next_sep(s@, sep, from as int) == s@.len(),
        },
{
    let mut k: usize = from;
    while k < n
        invariant
            from <= k <= n,
            n == s@.len(),
            forall|x: int| from <= x < k ==> s@[x] != sep,
        decreases n - k,
    {
        if s.get_char(k) == sep {
            proof {
                lemma_next_sep_at(s@, sep, from as int, k as int);
            }
            return Some(k);
        }
        k += 1;
    }
    proof {
        lemma_next_sep_at(s@, sep, from as int, n as int);
    }
    None
}

/// Split at every occurrence of `sep`, keeping empty fields.
pub fn split_char(s: &str, sep: char) -> (r: Vec<String>)
    ensures
        string_views(r@) == fields_char(s@, sep, 0),
{
    let n = s.unicode_len();
    let mut r: Vec<String> = Vec::new();
    let mut start: usize = 0;
    proof {
        assert(string_views(r@) =~= Seq::<Seq<char>>::empty());
    }
    loop
        invariant
            start <= n,
            n == s@.len(),
            fields_char(s@, sep, 0) == string_views(r@) + fields_char(s@, sep, start as int),
        decreases n - start,
    {
        let found = find_char_from(s, n, sep, start);
        let upto: usize = match found {
            Some(k) => k,
            None => n,
        };
        let ghost r0 = r@;
        let piece = s.substring_char(start, upto).to_owned();
        r.push(piece);
        proof {
            lemma_string_views_push(r0, r@.last());
            assert(string_views(r@) =~= r0.map_values(|x: String| x@).push(
                s@.subrange(start as int, upto as int),
            ));
        }
        match found {
            Some(_) => {
                start = upto + 1;
            },
            None => {
                return r;
            },
        }
    }
}

/// The given lines joined by `sep`.
pub open spec fn joined_from(ls: Seq<Seq<char>>, sep: Seq<char>, i: int) -> Seq<char>
    decreases ls.len() - i,
{
    if i < 0 || i >= ls.len() {
        Seq::empty()
    } else if i == ls.len() - 1 {
        ls[i]
    } else {
        ls[i] + sep + joined_from(ls, sep, i + 1)
    }
}

/// Join strings with a separator.
pub fn join_with(parts: &Vec<String>, sep: &str) -> (r: String)
    ensures
        r@ == joined_from(string_views(parts@), sep@, 0),
{
    let mut out = String::new();
    let mut i: usize = 0;
    if parts.len() == 0 {
        return out;
    }
    while i < parts.len()
        invariant
            i <= parts@.len(),
            parts@.len() > 0,
            i < parts@.len() ==> joined_from(string_views(parts@), sep@, 0) == out@ + joined_from(
                string_views(parts@),
                sep@,
                i as int,
            ),
            i == parts@.len() ==> out@ == joined_from(string_views(parts@), sep@, 0),
        decreases parts@.len() - i,
    {
        out = concat_string(out, parts[i].as_str());
        if i + 1 < parts.len() {
            out = concat_string(out, sep);
        }
        proof {
            assert(string_views(parts@)[i as int] == parts@[i as int]@);
        }
        i += 1;
    }
    out
}

/// The ASCII-lowercase counterpart of a character; other characters stay.
pub open spec fn lower_char(c: char) -> char {
    if 'A' <= c && c <= 'Z' {
        ((c as u8) + 32) as char
    } else {
        c
    }
}

pub open spec fn lower_chars(s: Seq<char>) -> Seq<char> {
    s.map_values(|c: char| lower_char(c))
}

/// `s` with every ASCII letter lowered; other characters are unchanged.
pub fn ascii_lowercase(s: &str) -> (r: String)
    ensures
        r@ == lower_chars(s@),
{
    let n = s.unicode_len();
    let mut out = String::new();
    let mut i: usize = 0;
    while i < n
        invariant
            i <= n,
            n == s@.len(),
            out@ =~= lower_chars(s@).take(i as int),
        decreases n - i,
    {
        let c = s.get_char(i);
        let lc: char = if 'A' <= c && c <= 'Z' {
            ((c as u8) + 32) as char
        } else {
            c
        };
        proof {
            assert(lc == lower_char(c));
            assert(lower_chars(s@)[i as int] == lower_char(s@[i as int]));
        }
        push_char(&mut out, lc);
        proof {
            assert(out@ =~= lower_chars(s@).take(i as int + 1));
        }
        i += 1;
    }
    proof {
        assert(lower_chars(s@).take(n as int) =~= lower_chars(s@));
    }
    out
}

} // verus!
