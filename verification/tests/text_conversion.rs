use reduced::ansi::{ansi_to_html, strip_ansi};
use reduced::discord::{
    discord_payload, embed_description, filter_diff_content, json_escape, webhook_url,
    DiscordConfig,
};
use reduced::mail::{mail_args, mail_body, MailConfig};
use regex::Regex;

const RED: &str = "<span style=\"color: #dc3545;\">";
const GREEN: &str = "<span style=\"color: #28a745;\">";

fn regex_strip(text: &str) -> String {
    let re = Regex::new(r"\x1b\[[0-9;]*m").unwrap();
    re.replace_all(text, "").to_string()
}

fn regex_filter(diff: &str) -> String {
    let clean = regex_strip(diff);
    let re = Regex::new(r"^[+-][^-+].+").unwrap();
    clean
        .lines()
        .filter(|line| re.is_match(line))
        .take(15)
        .collect::<Vec<&str>>()
        .join("\n")
}

const SAMPLES: &[&str] = &[
    "",
    "plain text",
    "\x1b[31mred\x1b[0m plain",
    "\x1b[1;32mbold green\x1b[m",
    "\x1b[31",
    "\x1b[31x",
    "\x1b\x1b[m[m",
    "a\x1b[b\x1b[12;34;56mc",
    "\x1b[;m\x1b[0;0m\x1b[x]m",
    "diff --git a/x b/x\n\x1b[32m+added\x1b[m\n\x1b[31m-removed\x1b[m\n ctx\n",
    "über \x1b[33mgelb\x1b[0m ✓",
];

#[test]
fn strip_ansi_removes_complete_sequences() {
    assert_eq!(strip_ansi("\x1b[31mred\x1b[0m plain"), "red plain");
    assert_eq!(strip_ansi("\x1b[1;32mgreen\x1b[m"), "green");
}

#[test]
fn strip_ansi_keeps_incomplete_sequences() {
    assert_eq!(strip_ansi("\x1b[31"), "\x1b[31");
    assert_eq!(strip_ansi("\x1b[31x"), "\x1b[31x");
}

#[test]
fn strip_ansi_resumes_after_a_removed_sequence() {
    // The removal can bring a new sequence together; it is left in place.
    assert_eq!(strip_ansi("\x1b\x1b[m[m"), "\x1b[m");
}

#[test]
fn strip_ansi_agrees_with_the_regex() {
    for s in SAMPLES {
        assert_eq!(strip_ansi(s), regex_strip(s), "input {:?}", s);
    }
}

#[test]
fn strip_ansi_leaves_plain_text() {
    assert_eq!(strip_ansi("no escapes at all"), "no escapes at all");
}

#[test]
fn ansi_to_html_colours_and_escapes() {
    let out = ansi_to_html("\x1b[32m+added\x1b[0m\n<b>&\"'");
    assert_eq!(out, format!("{}+added</span><br>&lt;b&gt;&amp;&quot;&#x27;", GREEN));
}

#[test]
fn ansi_to_html_all_colours() {
    let out = ansi_to_html("\x1b[31ma\x1b[32mb\x1b[33mc\x1b[34md\x1b[35me\x1b[36mf");
    assert_eq!(
        out,
        "<span style=\"color: #dc3545;\">a</span><span style=\"color: #28a745;\">b</span>\
<span style=\"color: #ffc107;\">c</span><span style=\"color: #007bff;\">d</span>\
<span style=\"color: #6f42c1;\">e</span><span style=\"color: #17a2b8;\">f</span>"
    );
}

#[test]
fn ansi_to_html_closes_open_span_at_end() {
    assert_eq!(ansi_to_html("\x1b[31mred"), format!("{}red</span>", RED));
}

#[test]
fn ansi_to_html_reset_with_empty_code() {
    assert_eq!(ansi_to_html("\x1b[31mred\x1b[mx"), format!("{}red</span>x", RED));
}

#[test]
fn ansi_to_html_unknown_code_closes_but_stays_open() {
    // An unknown code closes the span without opening one, and the span
    // still counts as open, so a second closing tag follows at the end.
    assert_eq!(ansi_to_html("\x1b[31mA\x1b[1mB"), format!("{}A</span>B</span>", RED));
}

#[test]
fn ansi_to_html_code_without_m() {
    assert_eq!(ansi_to_html("\x1b[31x"), format!("{}x</span>", RED));
}

#[test]
fn ansi_to_html_lone_escape_is_kept() {
    assert_eq!(ansi_to_html("a\x1bb"), "a\x1bb");
}

#[test]
fn ansi_to_html_plain_text_is_escaped() {
    assert_eq!(ansi_to_html("a<b\nc"), "a&lt;b<br>c");
}

#[test]
fn json_escape_escapes_specials() {
    assert_eq!(json_escape("a\"b\\c\nd\re\tf"), "a\\\"b\\\\c\\nd\\re\\tf");
}

#[test]
fn json_escape_matches_replace_chain() {
    let inputs = ["", "x", "\\\"", "\n\r\t", "quote \" and \\n literal", "ünï\tcode"];
    for s in inputs {
        let chain = s
            .replace("\\", "\\\\")
            .replace("\"", "\\\"")
            .replace("\n", "\\n")
            .replace("\r", "\\r")
            .replace("\t", "\\t");
        assert_eq!(json_escape(s), chain);
    }
}

#[test]
fn json_escape_is_injective_on_examples() {
    assert_ne!(json_escape("\\n"), json_escape("\n"));
    assert_ne!(json_escape("\\\""), json_escape("\""));
}

#[test]
fn json_escape_output_has_no_raw_controls() {
    let out = json_escape("line1\nline2\r\tend");
    assert!(!out.contains('\n') && !out.contains('\r') && !out.contains('\t'));
}

#[test]
fn webhook_url_joins_id_and_token() {
    let cfg = DiscordConfig { webhook_id: "123".to_string(), webhook_token: "abc".to_string() };
    assert_eq!(webhook_url(&cfg), "https://discord.com/api/webhooks/123/abc");
}

#[test]
fn embed_description_without_diff() {
    assert_eq!(embed_description("desc", None), "desc");
}

#[test]
fn embed_description_with_diff() {
    assert_eq!(
        embed_description("desc", Some("\x1b[32m+x\x1b[m")),
        "desc\n\n```diff\n+x```"
    );
}

#[test]
fn discord_payload_matches_template() {
    let title = "T \"q\"";
    let description = "line1\nline2";
    let ts = "2024-01-02T03:04:05+00:00";
    let expected = format!(
        r#"{{
            "username": "Reduced",
            "embeds": [{{
                "title": "{}",
                "description": "{}",
                "color": {},
                "footer": {{
                    "text": "Reduced Notification System"
                }},
                "timestamp": "{}"
            }}]
        }}"#,
        "T \\\"q\\\"",
        "line1\\nline2",
        3066993,
        ts
    );
    assert_eq!(discord_payload(title, description, 3066993, ts), expected);
}

#[test]
fn discord_payload_colour_zero_and_max() {
    assert!(discord_payload("", "", 0, "").contains("\"color\": 0,"));
    assert!(discord_payload("", "", u32::MAX, "").contains("\"color\": 4294967295,"));
}

#[test]
fn filter_diff_content_keeps_changes() {
    let diff = "diff --git a/x b/x\n--- a/x\n+++ b/x\n\x1b[32m+added line\x1b[m\n-removed line\n context\n+-x\n+a\n";
    assert_eq!(filter_diff_content(diff), "+added line\n-removed line");
}

#[test]
fn filter_diff_content_limits_to_fifteen() {
    let mut diff = String::new();
    for i in 0..20 {
        diff.push_str(&format!("+line {}\n", i));
    }
    let out = filter_diff_content(&diff);
    assert_eq!(out.lines().count(), 15);
    assert!(out.ends_with("+line 14"));
}

#[test]
fn filter_diff_content_agrees_with_regex() {
    let mut samples: Vec<String> = SAMPLES.iter().map(|s| s.to_string()).collect();
    samples.push("+ab\r\n-cd\r\n+\r\n++x\n-+y\n+z".to_string());
    samples.push("+é\n-ü€\n".to_string());
    for s in samples {
        assert_eq!(filter_diff_content(&s), regex_filter(&s), "input {:?}", s);
    }
}

#[test]
fn mail_body_without_diff() {
    assert_eq!(mail_body("<p>hi</p>", None), "<p>hi</p>");
}

#[test]
fn mail_body_with_diff() {
    let expected = format!(
        "<p>hi</p><br><br><h3>Configuration Changes:</h3><pre style=\"background-color: #f5f5f5; padding: 10px; border: 1px solid #ddd; font-family: 'Courier New', monospace; white-space: pre-wrap; line-height: 1.2;\">{}</pre>",
        format!("{}-x</span>", RED)
    );
    assert_eq!(mail_body("<p>hi</p>", Some("\x1b[31m-x\x1b[0m")), expected);
}

#[test]
fn mail_args_with_all_lists() {
    let cfg = MailConfig {
        recipients: vec!["a@x".to_string(), "b@x".to_string()],
        cc: Some(vec!["c@x".to_string()]),
        bcc: Some(vec!["d@x".to_string(), "e@x".to_string()]),
    };
    assert_eq!(
        mail_args(&cfg, "Subj"),
        vec!["-s", "Subj", "-a", "Content-Type: text/html", "-c", "c@x", "-b", "d@x,e@x", "a@x,b@x"]
    );
}

#[test]
fn mail_args_skip_empty_lists() {
    let cfg = MailConfig {
        recipients: vec!["a@x".to_string()],
        cc: Some(vec![]),
        bcc: None,
    };
    assert_eq!(mail_args(&cfg, "S"), vec!["-s", "S", "-a", "Content-Type: text/html", "a@x"]);
}

#[test]
fn json_escape_reads_back_with_serde_json() {
    let inputs = ["", "plain", "quote \" back \\ slash", "a\nb\r\tc", "ünï ✓ 🔄", "\\n\\\"", "del\u{7f}"];
    for s in inputs {
        let literal = format!("\"{}\"", json_escape(s));
        let back: String = serde_json::from_str(&literal).unwrap();
        assert_eq!(back, s);
    }
}

#[test]
fn ansi_to_html_unknown_code_without_open_span_is_dropped() {
    assert_eq!(ansi_to_html("\x1b[1mbold\x1b[31mred\x1b[0m"), format!("bold{}red</span>", RED));
}
