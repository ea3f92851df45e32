//! The web tools' pure logic: turning fetched HTML into readable text,
//! parsing the search engine's result page, and building the search URL.
//! The HTTP requests themselves happen outside this crate.

use vstd::prelude::*;
use vstd::string::StrSliceExecFns;
use vstd::string::StringSliceAdditionalSpecFns;

use crate::console::lines_spec;
use crate::mail::{url_encoded, url_encode_str};
use crate::messages::concat_str;
use crate::text::{
    concat_string, find_from, first_match, joined_from, replace_str, replace_spec, string_views,
    trim_spec, trim_str,
};

verus! {

/// The text with everything between `<` and `>` removed, reading from `i`.
pub open spec fn tags_removed(s: Seq<char>, i: int, in_tag: bool) -> Seq<char>
    decreases s.len() - i,
{
    if i < 0 || i >= s.len() {
        Seq::empty()
    } else if s[i] == '<' {
        tags_removed(s, i + 1, true)
    } else if s[i] == '>' {
        tags_removed(s, i + 1, false)
    } else if in_tag {
        tags_removed(s, i + 1, in_tag)
    } else {
        seq![s[i]] + tags_removed(s, i + 1, in_tag)
    }
}

/// The common HTML entities written back as their characters.
pub open spec fn entities_unescaped(s: Seq<char>) -> Seq<char> {
    replace_spec(
        replace_spec(
            replace_spec(replace_spec(replace_spec(s, "&amp;"@, "&"@), "&lt;"@, "<"@), "&gt;"@, ">"@),
            "&quot;"@,
            "\""@,
        ),
        "&#x27;"@,
        "'"@,
    )
}

/// What stripping tags makes of a text: tag bodies removed, entities
/// unescaped, surrounding whitespace trimmed.
pub open spec fn tags_stripped(s: Seq<char>) -> Seq<char> {
    trim_spec(entities_unescaped(tags_removed(s, 0, false)))
}

/// Remove HTML tags and unescape the common entities.
pub fn strip_html_tags(s: &str) -> (r: String)
    ensures
        r@ == tags_stripped(s@),
{
    proof {
        reveal_strlit("&amp;");
        reveal_strlit("&");
        reveal_strlit("&lt;");
        reveal_strlit("<");
        reveal_strlit("&gt;");
        reveal_strlit(">");
        reveal_strlit("&quot;");
        reveal_strlit("\"");
        reveal_strlit("&#x27;");
        reveal_strlit("'");
    }
    let n = s.unicode_len();
    let mut out = String::new();
    let mut in_tag = false;
    let mut i: usize = 0;
    while i < n
        invariant
            i <= n,
            n == s@.len(),
            tags_removed(s@, 0, false) == out@ + tags_removed(s@, i as int, in_tag),
        decreases n - i,
    {
        let c = s.get_char(i);
        if c == '<' {
            in_tag = true;
        } else if c == '>' {
            in_tag = false;
        } else if !in_tag {
            let ghost out0 = out@;
            crate::text::push_char(&mut out, c);
            proof {
                assert(out@ + tags_removed(s@, i as int + 1, in_tag) =~= out0 + (seq![c]
                    + tags_removed(s@, i as int + 1, in_tag)));
            }
        }
        i += 1;
    }
    proof {
        assert(out@ + tags_removed(s@, n as int, in_tag) =~= out@);
    }
    let mut t = replace_str(out.as_str(), "&amp;", "&");
    t = replace_str(t.as_str(), "&lt;", "<");
    t = replace_str(t.as_str(), "&gt;", ">");
    t = replace_str(t.as_str(), "&quot;", "\"");
    t = replace_str(t.as_str(), "&#x27;", "'");
    trim_str(t.as_str())
}

/// The text with every block between the open marker and its closing
/// marker replaced by one space, repeatedly, until an unmatched marker or
/// none is left.
pub open spec fn blocks_removed(s: Seq<char>, op: Seq<char>, cp: Seq<char>) -> Seq<char>
    decreases s.len(),
{
    let k = first_match(s, op, 0);
    if k < 0 {
        s
    } else {
        let c = first_match(s, cp, k);
        if c < k || c + cp.len() > s.len() || cp.len() < 2 {
            s
        } else {
            blocks_removed(s.take(k) + seq![' '] + s.skip(c + cp.len()), op, cp)
        }
    }
}

/// Remove every block between the two markers, as reading scripts out of a
/// page requires.
pub fn remove_blocks(s: &str, op: &str, cp: &str) -> (r: String)
    requires
        op@.len() > 0,
        cp@.len() >= 2,
    ensures
        r@ == blocks_removed(s@, op@, cp@),
    decreases s@.len(),
{
    let n = s.unicode_len();
    let cplen = cp.unicode_len();
    match find_from(s, op, 0) {
        None => s.to_owned(),
        Some(k) => {
            match find_from(s, cp, k) {
                None => s.to_owned(),
                Some(c) => {
                    let mut shorter = s.substring_char(0, k).to_owned();
                    shorter = concat_string(shorter, " ");
                    shorter = concat_string(shorter, s.substring_char(c + cplen, n));
                    proof {
                        reveal_strlit(" ");
                        assert(" "@ =~= seq![' ']);
                        assert(s@.take(k as int) =~= s@.subrange(0, k as int));
                        assert(s@.skip(c as int + cp@.len()) =~= s@.subrange(
                            (c + cplen) as int,
                            n as int,
                        ));
                        assert(shorter@ == s@.take(k as int) + seq![' '] + s@.skip(
                            c as int + cp@.len(),
                        ));
                        assert(shorter@.len() < s@.len());
                    }
                    remove_blocks(shorter.as_str(), op, cp)
                },
            }
        },
    }
}

/// The lines with visible content, each trimmed.
pub open spec fn kept_lines(ls: Seq<Seq<char>>, i: int) -> Seq<Seq<char>>
    decreases ls.len() - i,
{
    if i < 0 || i >= ls.len() {
        Seq::empty()
    } else {
        let t = trim_spec(ls[i]);
        (if t.len() > 0 {
            seq![t]
        } else {
            Seq::empty()
        }) + kept_lines(ls, i + 1)
    }
}

/// Trim every line and keep the non-blank ones.
pub fn clean_lines(s: &str) -> (r: Vec<String>)
    ensures
        string_views(r@) == kept_lines(lines_spec(s@), 0),
{
    let ls = crate::console::lines_of(s);
    let mut out: Vec<String> = Vec::new();
    let mut i: usize = 0;
    while i < ls.len()
        invariant
            i <= ls@.len(),
            string_views(ls@) == lines_spec(s@),
            kept_lines(lines_spec(s@), 0) == string_views(out@) + kept_lines(
                lines_spec(s@),
                i as int,
            ),
        decreases ls@.len() - i,
    {
        let t = trim_str(ls[i].as_str());
        proof {
            assert(lines_spec(s@)[i as int] == ls@[i as int]@);
        }
        let ghost out0 = out@;
        if !t.as_str().is_empty() {
            out.push(t);
            proof {
                crate::text::lemma_string_views_push(out0, out@.last());
            }
        }
        i += 1;
    }
    out
}

/// Newlines inserted around the block-level tags, so stripped text keeps
/// its line structure.
pub open spec fn with_breaks(s: Seq<char>) -> Seq<char> {
    replace_spec(replace_spec(replace_spec(replace_spec(replace_spec(replace_spec(replace_spec(replace_spec(replace_spec(replace_spec(replace_spec(replace_spec(replace_spec(replace_spec(replace_spec(replace_spec(replace_spec(replace_spec(replace_spec(replace_spec(replace_spec(replace_spec(s, "<p"@, "\n<p"@), "</p>"@, "</p>\n"@), "<div"@, "\n<div"@), "</div>"@, "</div>\n"@), "<br"@, "\n<br"@), "</br>"@, "</br>\n"@), "<h1"@, "\n<h1"@), "</h1>"@, "</h1>\n"@), "<h2"@, "\n<h2"@), "</h2>"@, "</h2>\n"@), "<h3"@, "\n<h3"@), "</h3>"@, "</h3>\n"@), "<h4"@, "\n<h4"@), "</h4>"@, "</h4>\n"@), "<h5"@, "\n<h5"@), "</h5>"@, "</h5>\n"@), "<h6"@, "\n<h6"@), "</h6>"@, "</h6>\n"@), "<li"@, "\n<li"@), "</li>"@, "</li>\n"@), "<tr"@, "\n<tr"@), "</tr>"@, "</tr>\n"@)
}

fn insert_breaks(s: &str) -> (r: String)
    ensures
        r@ == with_breaks(s@),
{
    proof {
        reveal_strlit("<p");
        reveal_strlit("\n<p");
        reveal_strlit("</p>");
        reveal_strlit("</p>\n");
        reveal_strlit("<div");
        reveal_strlit("\n<div");
        reveal_strlit("</div>");
        reveal_strlit("</div>\n");
        reveal_strlit("<br");
        reveal_strlit("\n<br");
        reveal_strlit("</br>");
        reveal_strlit("</br>\n");
        reveal_strlit("<h1");
        reveal_strlit("\n<h1");
        reveal_strlit("</h1>");
        reveal_strlit("</h1>\n");
        reveal_strlit("<h2");
        reveal_strlit("\n<h2");
        reveal_strlit("</h2>");
        reveal_strlit("</h2>\n");
        reveal_strlit("<h3");
        reveal_strlit("\n<h3");
        reveal_strlit("</h3>");
        reveal_strlit("</h3>\n");
        reveal_strlit("<h4");
        reveal_strlit("\n<h4");
        reveal_strlit("</h4>");
        reveal_strlit("</h4>\n");
        reveal_strlit("<h5");
        reveal_strlit("\n<h5");
        reveal_strlit("</h5>");
        reveal_strlit("</h5>\n");
        reveal_strlit("<h6");
        reveal_strlit("\n<h6");
        reveal_strlit("</h6>");
        reveal_strlit("</h6>\n");
        reveal_strlit("<li");
        reveal_strlit("\n<li");
        reveal_strlit("</li>");
        reveal_strlit("</li>\n");
        reveal_strlit("<tr");
        reveal_strlit("\n<tr");
        reveal_strlit("</tr>");
        reveal_strlit("</tr>\n");
    }
    let mut t = s.to_owned();
    t = replace_str(t.as_str(), "<p", "\n<p");
    t = replace_str(t.as_str(), "</p>", "</p>\n");
    t = replace_str(t.as_str(), "<div", "\n<div");
    t = replace_str(t.as_str(), "</div>", "</div>\n");
    t = replace_str(t.as_str(), "<br", "\n<br");
    t = replace_str(t.as_str(), "</br>", "</br>\n");
    t = replace_str(t.as_str(), "<h1", "\n<h1");
    t = replace_str(t.as_str(), "</h1>", "</h1>\n");
    t = replace_str(t.as_str(), "<h2", "\n<h2");
    t = replace_str(t.as_str(), "</h2>", "</h2>\n");
    t = replace_str(t.as_str(), "<h3", "\n<h3");
    t = replace_str(t.as_str(), "</h3>", "</h3>\n");
    t = replace_str(t.as_str(), "<h4", "\n<h4");
    t = replace_str(t.as_str(), "</h4>", "</h4>\n");
    t = replace_str(t.as_str(), "<h5", "\n<h5");
    t = replace_str(t.as_str(), "</h5>", "</h5>\n");
    t = replace_str(t.as_str(), "<h6", "\n<h6");
    t = replace_str(t.as_str(), "</h6>", "</h6>\n");
    t = replace_str(t.as_str(), "<li", "\n<li");
    t = replace_str(t.as_str(), "</li>", "</li>\n");
    t = replace_str(t.as_str(), "<tr", "\n<tr");
    t = replace_str(t.as_str(), "</tr>", "</tr>\n");
    t
}

/// What a page reads as: scripts, styles and vector graphics dropped,
/// block tags turned into line breaks, tags stripped, and the non-blank
/// lines, each trimmed, joined by newlines.
pub open spec fn html_text(html: Seq<char>) -> Seq<char> {
    let a = blocks_removed(html, "<script"@, "</script>"@);
    let b = blocks_removed(a, "<style"@, "</style>"@);
    let c = blocks_removed(b, "<noscript"@, "</noscript>"@);
    let d = blocks_removed(c, "<svg"@, "</svg>"@);
    let e = tags_stripped(with_breaks(d));
    joined_from(kept_lines(lines_spec(e), 0), "\n"@, 0)
}

/// Convert HTML to readable plain text.
pub fn html_to_text(html: &str) -> (r: String)
    ensures
        r@ == html_text(html@),
{
    proof {
        reveal_strlit("<script");
        reveal_strlit("</script>");
        reveal_strlit("<style");
        reveal_strlit("</style>");
        reveal_strlit("<noscript");
        reveal_strlit("</noscript>");
        reveal_strlit("<svg");
        reveal_strlit("</svg>");
    }
    let mut t = remove_blocks(html, "<script", "</script>");
    t = remove_blocks(t.as_str(), "<style", "</style>");
    t = remove_blocks(t.as_str(), "<noscript", "</noscript>");
    t = remove_blocks(t.as_str(), "<svg", "</svg>");
    t = insert_breaks(t.as_str());
    t = strip_html_tags(t.as_str());
    let lines = clean_lines(t.as_str());
    crate::text::join_with(&lines, "\n")
}

/// The web-search URL for a query.
pub fn ddg_search_url(query: &str) -> (r: String)
    ensures
        r@ == "https://html.duckduckgo.com/html/?q="@ + url_encoded(query.spec_bytes()),
{
    concat_str("https://html.duckduckgo.com/html/?q=", url_encode_str(query).as_str())
}

/// The pieces of `s[i..]` split at every occurrence of `pat`.
pub open spec fn split_pat_from(s: Seq<char>, pat: Seq<char>, i: int) -> Seq<Seq<char>>
    decreases s.len() - i,
{
    if i < 0 || i > s.len() {
        Seq::empty()
    } else {
        let k = first_match(s, pat, i);
        if k < i || k + pat.len() > s.len() || pat.len() == 0 {
            seq![s.subrange(i, s.len() as int)]
        } else {
            seq![s.subrange(i, k)] + split_pat_from(s, pat, k + pat.len())
        }
    }
}

/// Split at every occurrence of a pattern.
fn split_pattern(s: &str, pat: &str) -> (r: Vec<String>)
    requires
        pat@.len() > 0,
    ensures
        string_views(r@) == split_pat_from(s@, pat@, 0),
{
    let n = s.unicode_len();
    let plen = pat.unicode_len();
    let mut r: Vec<String> = Vec::new();
    let mut start: usize = 0;
    proof {
        assert(string_views(r@) =~= Seq::<Seq<char>>::empty());
    }
    loop
        invariant
            start <= n,
            n == s@.len(),
            plen == pat@.len(),
            plen > 0,
            split_pat_from(s@, pat@, 0) == string_views(r@) + split_pat_from(
                s@,
                pat@,
                start as int,
            ),
        decreases n - start,
    {
        let ghost r0 = r@;
        match find_from(s, pat, start) {
            Some(k) => {
                r.push(s.substring_char(start, k).to_owned());
                proof {
                    crate::text::lemma_string_views_push(r0, r@.last());
                }
                start = k + plen;
            },
            None => {
                r.push(s.substring_char(start, n).to_owned());
                proof {
                    crate::text::lemma_string_views_push(r0, r@.last());
                }
                return r;
            },
        }
    }
}

/// The text before the first occurrence of `pat`, or all of it.
pub open spec fn before_pat(s: Seq<char>, pat: Seq<char>) -> Seq<char> {
    let k = first_match(s, pat, 0);
    if k < 0 {
        s
    } else {
        s.take(k)
    }
}

fn before_pattern(s: &str, pat: &str) -> (r: String)
    requires
        pat@.len() > 0,
    ensures
        r@ == before_pat(s@, pat@),
{
    let n = s.unicode_len();
    match find_from(s, pat, 0) {
        None => s.to_owned(),
        Some(k) => {
            proof {
                assert(s@.take(k as int) =~= s@.subrange(0, k as int));
            }
            s.substring_char(0, k).to_owned()
        },
    }
}

/// The link of one result block: what stands before the first link marker,
/// cut at the first quote, as the page's markup is read.
pub open spec fn ddg_href(part: Seq<char>) -> Seq<char> {
    before_pat(before_pat(part, "href=\""@), "\""@)
}

/// The title of one result block: what stands before the closing anchor,
/// cut at the first tag end, with markup stripped.
pub open spec fn ddg_title(part: Seq<char>) -> Seq<char> {
    tags_stripped(before_pat(before_pat(part, ">"@), "</a>"@))
}

/// The snippet of one result block: the text between the first two tag
/// ends after the snippet marker, cut at the next closing tag, with markup
/// stripped; empty without a marker.
pub open spec fn ddg_snippet(part: Seq<char>) -> Seq<char> {
    let k = first_match(part, "class=\"result__snippet\""@, 0);
    if k < 0 {
        Seq::empty()
    } else {
        let after = part.skip(k);
        let g1 = first_match(after, ">"@, 0);
        if g1 < 0 {
            Seq::empty()
        } else {
            let g2 = first_match(after, ">"@, g1 + 1);
            let seg = if g2 < g1 + 1 {
                after.skip(g1 + 1)
            } else {
                after.subrange(g1 + 1, g2)
            };
            tags_stripped(before_pat(seg, "</"@))
        }
    }
}

pub open spec fn ddg_entry(part: Seq<char>, idx: int) -> Seq<char> {
    crate::text::spec_decimal(idx) + ". "@ + (if ddg_title(part).len() == 0 {
        "(no title)"@
    } else {
        ddg_title(part)
    }) + "\n   "@ + ddg_snippet(part) + "\n   "@ + ddg_href(part)
}

pub open spec fn ddg_included(part: Seq<char>) -> bool {
    ddg_title(part).len() > 0 || ddg_snippet(part).len() > 0
}

/// The numbered entries of the result blocks `parts[i..]`, at most five.
pub open spec fn ddg_entries(parts: Seq<Seq<char>>, i: int) -> Seq<Seq<char>>
    decreases 6 - i,
{
    if i < 1 || i > 5 || i >= parts.len() {
        Seq::empty()
    } else {
        (if ddg_included(parts[i]) {
            seq![ddg_entry(parts[i], i)]
        } else {
            Seq::empty()
        }) + ddg_entries(parts, i + 1)
    }
}

/// What the search page reads as: up to five numbered results, each with
/// title, snippet and link, or a fixed notice when none is found.
pub open spec fn ddg_text(html: Seq<char>) -> Seq<char> {
    let parts = split_pat_from(html, "class=\"result__a\""@, 0);
    let entries = ddg_entries(parts, 1);
    if entries.len() == 0 {
        "No results found."@
    } else {
        joined_from(entries, "\n\n"@, 0)
    }
}

fn ddg_snippet_exec(part: &str) -> (r: String)
    ensures
        r@ == ddg_snippet(part@),
{
    proof {
        reveal_strlit("class=\"result__snippet\"");
        reveal_strlit(">");
        reveal_strlit("</");
    }
    let n = part.unicode_len();
    match find_from(part, "class=\"result__snippet\"", 0) {
        None => String::new(),
        Some(k) => {
            proof {
                assert(part@.skip(k as int) =~= part@.subrange(k as int, n as int));
            }
            let after_owned = part.substring_char(k, n).to_owned();
            let after = after_owned.as_str();
            let an = after.unicode_len();
            match find_from(after, ">", 0) {
                None => String::new(),
                Some(g1) => {
                    let seg_owned: String = match find_from(after, ">", g1 + 1) {
                        None => {
                            proof {
                                assert(after@.skip(g1 as int + 1) =~= after@.subrange(
                                    g1 as int + 1,
                                    an as int,
                                ));
                            }
                            after.substring_char(g1 + 1, an).to_owned()
                        },
                        Some(g2) => after.substring_char(g1 + 1, g2).to_owned(),
                    };
                    let cut = before_pattern(seg_owned.as_str(), "</");
                    strip_html_tags(cut.as_str())
                },
            }
        },
    }
}

/// Read the search page's result blocks into numbered plain-text results.
pub fn parse_ddg_html(html: &str) -> (r: String)
    ensures
        r@ == ddg_text(html@),
{
    proof {
        reveal_strlit("class=\"result__a\"");
        reveal_strlit("href=\"");
        reveal_strlit("\"");
        reveal_strlit(">");
        reveal_strlit("</a>");
    }
    let parts = split_pattern(html, "class=\"result__a\"");
    let ghost pviews = split_pat_from(html@, "class=\"result__a\""@, 0);
    let mut results: Vec<String> = Vec::new();
    let mut i: usize = 1;
    while i < parts.len() && i <= 5
        invariant
            1 <= i <= 6,
            string_views(parts@) == pviews,
            ddg_entries(pviews, 1) == string_views(results@) + ddg_entries(pviews, i as int),
        decreases 6 - i,
    {
        let part = parts[i].as_str();
        proof {
            reveal_strlit("href=\"");
            reveal_strlit("\"");
            reveal_strlit(">");
            reveal_strlit("</a>");
            assert(pviews[i as int] == parts@[i as int]@);
        }
        let href = before_pattern(before_pattern(part, "href=\"").as_str(), "\"");
        let title = strip_html_tags(before_pattern(before_pattern(part, ">").as_str(), "</a>").as_str());
        let snippet = ddg_snippet_exec(part);
        let ghost r0 = results@;
        if !title.as_str().is_empty() || !snippet.as_str().is_empty() {
            let mut entry = crate::text::u64_to_string(i as u64);
            entry = concat_string(entry, ". ");
            if title.as_str().is_empty() {
                entry = concat_string(entry, "(no title)");
            } else {
                entry = concat_string(entry, title.as_str());
            }
            entry = concat_string(entry, "\n   ");
            entry = concat_string(entry, snippet.as_str());
            entry = concat_string(entry, "\n   ");
            entry = concat_string(entry, href.as_str());
            results.push(entry);
            proof {
                crate::text::lemma_string_views_push(r0, results@.last());
            }
        }
        i += 1;
    }
    proof {
        assert(ddg_entries(pviews, i as int) =~= Seq::<Seq<char>>::empty());
        assert(string_views(results@) =~= ddg_entries(pviews, 1));
    }
    if results.len() == 0 {
        "No results found.".to_owned()
    } else {
        crate::text::join_with(&results, "\n\n")
    }
}

} // verus!
