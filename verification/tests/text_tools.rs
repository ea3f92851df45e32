use free_agent::config::{expand_tilde, parse_keys};
use free_agent::console::{extract_response, lines_of, looks_like_prompt, strip_ansi};
use free_agent::format::{
    floor_char_boundary, format_progress, parse_provider_override, split_message, tool_icon,
};
use free_agent::mail::{
    base64_decode, base64url_encode, build_mail_raw, decode_base64url, format_email,
    format_message_summary, get_header, gmail_search_url, extract_body_text, Body, GmailCreds,
    Header, Part, Payload,
};
use free_agent::planning::{format_todo_list, is_valid_todo_status};
use free_agent::prompt::{build_system_prompt, combine_skills};
use free_agent::sheets::{extract_spreadsheet_id, sheets_read_url};
use free_agent::system::{
    build_find_command, build_grep_args, format_exec_output, format_file_lines,
    is_dangerous_command, shell_escape, truncate_output,
};
use free_agent::web::{ddg_search_url, html_to_text, parse_ddg_html, strip_html_tags};

#[test]
fn icons_cover_known_tools_and_prefixes() {
    assert_eq!(tool_icon("web_search"), "🌐");
    assert_eq!(tool_icon("bash"), "⚡");
    assert_eq!(tool_icon("gmail_send"), "📧");
    assert_eq!(tool_icon("sheets_read"), "📊");
    assert_eq!(tool_icon("anything_else"), "🔧");
}

#[test]
fn progress_line_names_the_tool() {
    assert_eq!(format_progress("bash"), "⏳ ⚡ Đang dùng bash...");
}

#[test]
fn short_messages_pass_through_whole() {
    assert_eq!(split_message("hello", 4096), vec!["hello".to_string()]);
}

#[test]
fn long_messages_split_at_spaces_and_swallow_the_break() {
    let chunks = split_message("hello world foo", 8);
    assert_eq!(chunks, vec!["hello", "world", "foo"]);
}

#[test]
fn splitting_prefers_newlines() {
    let chunks = split_message("ab\ncdef xyz", 9);
    assert_eq!(chunks, vec!["ab", "cdef xyz"]);
}

#[test]
fn boundaries_never_cut_a_character() {
    // the arrow is three bytes long; byte 4 falls inside it
    let s = "ab→cd";
    assert_eq!(floor_char_boundary(s, 4), 2);
    assert_eq!(floor_char_boundary(s, 5), 5);
    assert_eq!(floor_char_boundary(s, 99), s.len());
}

#[test]
fn provider_overrides_parse_case_insensitively() {
    let (p, rest) = parse_provider_override("Use OpenAi tell me a joke");
    assert_eq!(p.as_deref(), Some("openai"));
    assert_eq!(rest, "tell me a joke");
    let (p2, rest2) = parse_provider_override("dùng gemini xin chào");
    assert_eq!(p2.as_deref(), Some("gemini"));
    assert_eq!(rest2, "xin chào");
    let (p3, rest3) = parse_provider_override("normal message");
    assert!(p3.is_none());
    assert_eq!(rest3, "normal message");
    let (p4, _) = parse_provider_override("use openai");
    assert!(p4.is_none());
}

#[test]
fn system_prompt_includes_skills_only_when_present() {
    assert_eq!(build_system_prompt("base", "", "mem"), "basemem");
    assert_eq!(
        build_system_prompt("base", "skill text", ""),
        "base\n\n## Skills\n\nskill text"
    );
}

#[test]
fn skills_combine_under_named_markers() {
    let names = vec!["alpha".to_string(), "beta".to_string()];
    let contents = vec!["one".to_string(), "two".to_string()];
    assert_eq!(
        combine_skills(&names, &contents),
        "<!-- skill: alpha -->\none\n\n---\n\n<!-- skill: beta -->\ntwo"
    );
}

#[test]
fn key_lists_are_trimmed_and_cleaned() {
    assert_eq!(parse_keys(" a , b ,, c "), vec!["a", "b", "c"]);
    assert_eq!(parse_keys(""), Vec::<String>::new());
    assert_eq!(parse_keys("solo"), vec!["solo"]);
}

#[test]
fn tilde_expands_only_with_a_home() {
    assert_eq!(expand_tilde("~/work", Some("/home/u")), "/home/u/work");
    assert_eq!(expand_tilde("~", Some("/home/u")), "/home/u");
    assert_eq!(expand_tilde("~/work", None), "~/work");
    assert_eq!(expand_tilde("/abs/path", Some("/home/u")), "/abs/path");
}

#[test]
fn base64url_encodes_without_padding() {
    assert_eq!(base64url_encode(b"Hello"), "SGVsbG8");
    assert_eq!(base64url_encode(b"Hi"), "SGk");
    assert_eq!(base64url_encode(b""), "");
    // 62 and 63 map to the url-safe alphabet
    assert_eq!(base64url_encode(&[0xfb, 0xff]), "-_8");
}

#[test]
fn base64_decodes_standard_text() {
    assert_eq!(base64_decode("SGVsbG8=").unwrap(), b"Hello");
    assert_eq!(base64_decode("SGk=\n").unwrap(), b"Hi");
    assert!(base64_decode("not base64!").is_err());
}

#[test]
fn base64url_bodies_round_trip_to_text() {
    // "Hello" in base64url, unpadded, as mailbox bodies arrive
    assert_eq!(decode_base64url("SGVsbG8"), "Hello");
    assert_eq!(decode_base64url("bad!data"), "");
}

#[test]
fn headers_match_case_insensitively() {
    let headers = vec![
        Header { name: "From".to_string(), value: "a@b".to_string() },
        Header { name: "SUBJECT".to_string(), value: "hi".to_string() },
    ];
    assert_eq!(get_header(&headers, "subject"), "hi");
    assert_eq!(get_header(&headers, "from"), "a@b");
    assert_eq!(get_header(&headers, "date"), "");
}

#[test]
fn body_text_prefers_the_plain_part() {
    let payload = Payload {
        headers: None,
        body: Some(Body { data: Some(base64url_encode(b"fallback")) }),
        parts: Some(vec![
            Part {
                mime_type: Some("text/html".to_string()),
                body: Some(Body { data: Some(base64url_encode(b"<p>html</p>")) }),
                parts: None,
            },
            Part {
                mime_type: Some("text/plain".to_string()),
                body: Some(Body { data: Some(base64url_encode(b"plain text")) }),
                parts: None,
            },
        ]),
    };
    assert_eq!(extract_body_text(&payload), "plain text");
}

#[test]
fn body_text_descends_one_level_of_nesting() {
    let payload = Payload {
        headers: None,
        body: None,
        parts: Some(vec![Part {
            mime_type: Some("multipart/alternative".to_string()),
            body: None,
            parts: Some(vec![Part {
                mime_type: Some("text/plain".to_string()),
                body: Some(Body { data: Some(base64url_encode(b"nested")) }),
                parts: None,
            }]),
        }]),
    };
    assert_eq!(extract_body_text(&payload), "nested");
}

#[test]
fn todo_lists_draw_their_checkboxes() {
    let todos = vec![
        (1u64, "first".to_string(), "pending".to_string()),
        (2u64, "second".to_string(), "in_progress".to_string()),
        (3u64, "third".to_string(), "completed".to_string()),
    ];
    assert_eq!(format_todo_list(&todos), "#1 [ ] first\n#2 [~] second\n#3 [x] third");
    assert!(is_valid_todo_status("pending"));
    assert!(!is_valid_todo_status("done"));
}

#[test]
fn emails_format_with_headers_and_body() {
    let payload = Payload {
        headers: Some(vec![
            Header { name: "Subject".to_string(), value: "Hi".to_string() },
            Header { name: "From".to_string(), value: "a@b".to_string() },
            Header { name: "To".to_string(), value: "c@d".to_string() },
            Header { name: "Date".to_string(), value: "today".to_string() },
        ]),
        body: Some(Body { data: Some(base64url_encode(b"the body")) }),
        parts: None,
    };
    assert_eq!(
        format_email(&payload),
        "Subject: Hi\nFrom: a@b\nTo: c@d\nDate: today\n\nthe body"
    );
    assert_eq!(
        format_message_summary("m1", "a@b", "today", "Hi", "snip"),
        "ID: m1\nFrom: a@b\nDate: today\nSubject: Hi\nSnippet: snip"
    );
}

#[test]
fn credentials_need_every_part() {
    let full = GmailCreds {
        client_id: "i".to_string(),
        client_secret: "s".to_string(),
        refresh_token: "t".to_string(),
    };
    assert!(full.is_configured());
    let partial = GmailCreds {
        client_id: "i".to_string(),
        client_secret: String::new(),
        refresh_token: "t".to_string(),
    };
    assert!(!partial.is_configured());
}

#[test]
fn search_url_percent_encodes_the_query() {
    assert_eq!(
        gmail_search_url("is:unread from:a b", 10),
        "https://gmail.googleapis.com/gmail/v1/users/me/messages?q=is%3Aunread%20from%3Aa%20b&maxResults=10"
    );
}

#[test]
fn outgoing_mail_encodes_its_rfc2822_form() {
    let raw = build_mail_raw("a@b", "Hi", "Line");
    assert_eq!(
        base64_decode(&raw).unwrap(),
        b"To: a@b\r\nSubject: Hi\r\nContent-Type: text/plain; charset=utf-8\r\n\r\nLine"
    );
}

#[test]
fn spreadsheet_ids_come_out_of_pasted_urls() {
    assert_eq!(
        extract_spreadsheet_id("https://docs.google.com/spreadsheets/d/abc123/edit#gid=0"),
        "abc123"
    );
    assert_eq!(extract_spreadsheet_id("abc123"), "abc123");
}

#[test]
fn sheet_urls_name_the_range() {
    assert_eq!(
        sheets_read_url("abc", Some("Sheet2!A1:B2")),
        "https://sheets.googleapis.com/v4/spreadsheets/abc/values/Sheet2%21A1%3AB2"
    );
    assert_eq!(
        sheets_read_url("abc", None),
        "https://sheets.googleapis.com/v4/spreadsheets/abc/values/Sheet1"
    );
}

#[test]
fn dangerous_commands_are_recognised_in_any_case() {
    assert!(is_dangerous_command("sudo SHUTDOWN now"));
    assert!(is_dangerous_command("rm -rf / --no-preserve-root"));
    assert!(is_dangerous_command("dd if=/dev/zero of=/dev/sda"));
    assert!(!is_dangerous_command("ls -la"));
    assert!(!is_dangerous_command("cargo build"));
}

#[test]
fn shell_quoting_escapes_embedded_quotes() {
    assert_eq!(shell_escape("plain"), "'plain'");
    assert_eq!(shell_escape("it's"), "'it'\\''s'");
}

#[test]
fn truncation_keeps_short_output_and_counts_long_output() {
    assert_eq!(truncate_output("short", 100), "short");
    assert_eq!(
        truncate_output("aaaaaaaaaa", 5),
        "aaaaa\n\n[... output truncated, 10 chars total]"
    );
}

#[test]
fn file_listings_number_and_bound_their_lines() {
    assert_eq!(
        format_file_lines("alpha\nbeta\ngamma", None, None),
        "     1\talpha\n     2\tbeta\n     3\tgamma"
    );
    assert_eq!(
        format_file_lines("alpha\nbeta\ngamma", Some(1), Some(1)),
        "     2\tbeta\n\n[... 1 more lines]"
    );
    assert_eq!(
        format_file_lines("alpha", Some(9), None),
        "Error: offset 9 exceeds file length (1 lines)"
    );
}

#[test]
fn exec_reports_assemble_stdout_stderr_and_exit() {
    assert_eq!(format_exec_output("", "", 0), "(no output)");
    assert_eq!(format_exec_output("ok", "", 0), "ok");
    assert_eq!(format_exec_output("ok", "warn", 0), "ok\n[stderr]\nwarn");
    assert_eq!(format_exec_output("", "", 2), "\n[exit code: 2]");
    assert_eq!(format_exec_output("x", "", -1), "x\n[exit code: -1]");
}

#[test]
fn find_commands_quote_and_take_the_name_part() {
    assert_eq!(
        build_find_command("src/*.rs", "."),
        "find '.' -name '*.rs' -type f 2>/dev/null | head -50 | sort"
    );
    assert_eq!(
        build_find_command("*.md", "/docs"),
        "find '/docs' -name '*.md' -type f 2>/dev/null | head -50 | sort"
    );
}

#[test]
fn grep_arguments_follow_the_chosen_tool() {
    let rg = build_grep_args("pat", ".", Some("*.rs"), true, Some(2), true);
    assert_eq!(
        rg,
        vec![
            "--no-heading",
            "--line-number",
            "--max-count=100",
            "--max-filesize=1M",
            "-i",
            "-C2",
            "--glob=*.rs",
            "pat",
            "."
        ]
    );
    let grep = build_grep_args("pat", "src", None, false, None, false);
    assert_eq!(grep, vec!["-rn", "--max-count=100", "pat", "src"]);
}

#[test]
fn ansi_sequences_and_carriage_returns_vanish() {
    assert_eq!(strip_ansi("\u{1b}[31mred\u{1b}[0m\rX"), "redX");
    assert_eq!(strip_ansi("\u{1b}]0;title\u{7}body"), "body");
    assert_eq!(strip_ansi("plain"), "plain");
}

#[test]
fn prompts_are_recognised_on_the_last_meaningful_line() {
    assert!(looks_like_prompt("output\n$ "));
    assert!(looks_like_prompt("done\n❯\n\n"));
    assert!(looks_like_prompt("λ>"));
    assert!(!looks_like_prompt("still working on it"));
    assert!(!looks_like_prompt(""));
}

#[test]
fn new_console_output_is_what_follows_the_shared_prefix() {
    let baseline = "line1\nline2";
    let current = "line1\nline2\nline3\nline4";
    assert_eq!(extract_response(baseline, current), "line3\nline4");
    assert_eq!(lines_of("a\nb\n"), vec!["a", "b"]);
}

#[test]
fn tags_strip_and_entities_unescape() {
    assert_eq!(strip_html_tags("<b>hi &amp; bye</b>"), "hi & bye");
    assert_eq!(strip_html_tags("  <i>x</i>  "), "x");
}

#[test]
fn pages_read_as_their_visible_lines() {
    let html = "<html><script>var x = 1;</script><p>First</p><div>Second</div></html>";
    assert_eq!(html_to_text(html), "First\nSecond");
}

#[test]
fn search_pages_parse_into_numbered_results() {
    let html = "<html><body>\
        <a class=\"result__a\" href=\"u\">The Title</a>\
        <a class=\"result__snippet\" href=\"u\">A snippet here</a>\
        </body></html>";
    let parsed = parse_ddg_html(html);
    assert!(parsed.starts_with("1. "), "got: {parsed}");
    assert!(parsed.contains("A snippet here"), "got: {parsed}");
}

#[test]
fn pages_without_results_say_so() {
    assert_eq!(parse_ddg_html("<html>nothing here</html>"), "No results found.");
}

#[test]
fn web_search_url_is_percent_encoded() {
    assert_eq!(
        ddg_search_url("rust verus"),
        "https://html.duckduckgo.com/html/?q=rust%20verus"
    );
}
