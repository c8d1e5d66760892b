//! Mail notifications: the HTML body with the coloured diff, and the
//! arguments of the `mail` command.

use vstd::prelude::*;
use crate::ansi::{ansi_to_html, html_of};
use crate::text::{has_prefix, join_strings, joined, views};

verus! {

/// Who receives mail notifications.
#[derive(Debug, Clone)]
pub struct MailConfig {
    pub recipients: Vec<String>,
    pub cc: Option<Vec<String>>,
    pub bcc: Option<Vec<String>>,
}

/// The opening of the block that holds the diff in a mail.
pub open spec fn diff_block_start() -> Seq<char> {
    "<br><br><h3>Configuration Changes:</h3><pre style=\"background-color: #f5f5f5; padding: 10px; border: 1px solid #ddd; font-family: 'Courier New', monospace; white-space: pre-wrap; line-height: 1.2;\">"@
}

/// The body of a mail: `body`, then, when there is a diff, a block with
/// the diff rendered as HTML.
pub open spec fn mail_body_of(body: Seq<char>, diff: Option<Seq<char>>) -> Seq<char> {
    match diff {
        Some(d) => body + diff_block_start() + html_of(d, false) + "</pre>"@,
        None => body,
    }
}

/// Builds the HTML body of a mail, with the diff when there is one.
pub fn mail_body(body: &str, diff_content: Option<&str>) -> (r: String)
    ensures
        r@ == mail_body_of(
            body@,
            match diff_content {
                Some(d) => Some(d@),
                None => None,
            },
        ),
{
    let mut email_body = String::from_str(body);
    match diff_content {
        Some(diff) => {
            let html_diff = ansi_to_html(diff);
            email_body.append(
                "<br><br><h3>Configuration Changes:</h3><pre style=\"background-color: #f5f5f5; padding: 10px; border: 1px solid #ddd; font-family: 'Courier New', monospace; white-space: pre-wrap; line-height: 1.2;\">",
            );
            email_body.append(html_diff.as_str());
            email_body.append("</pre>");
        },
        None => {},
    }
    email_body
}

/// The arguments of the `mail` command: subject, HTML content type, the
/// copy and blind-copy lists when they are given and not empty, then the
/// recipients, each list joined with commas.
pub open spec fn mail_args_of(config: MailConfig, subject: Seq<char>) -> Seq<Seq<char>> {
    seq!["-s"@, subject, "-a"@, "Content-Type: text/html"@] + match config.cc {
        Some(cc) if cc.len() > 0 => seq!["-c"@, joined(views(cc@), ","@)],
        _ => seq![],
    } + match config.bcc {
        Some(bcc) if bcc.len() > 0 => seq!["-b"@, joined(views(bcc@), ","@)],
        _ => seq![],
    } + seq![joined(views(config.recipients@), ","@)]
}

/// Arguments for `mail` that send a mail with `subject` to the configured
/// people.
pub fn mail_args(mail_config: &MailConfig, subject: &str) -> (r: Vec<String>)
    ensures
        views(r@) == mail_args_of(*mail_config, subject@),
{
    let mut r: Vec<String> = Vec::new();
    r.push(String::from_str("-s"));
    r.push(String::from_str(subject));
    r.push(String::from_str("-a"));
    r.push(String::from_str("Content-Type: text/html"));
    let ghost base = views(r@);
    match &mail_config.cc {
        Some(cc_list) => {
            if cc_list.len() > 0 {
                r.push(String::from_str("-c"));
                r.push(join_strings(cc_list, ","));
            }
        },
        None => {},
    }
    let ghost with_cc = views(r@);
    assert(with_cc =~= base + match mail_config.cc {
        Some(cc) if cc.len() > 0 => seq!["-c"@, joined(views(cc@), ","@)],
        _ => seq![],
    });
    match &mail_config.bcc {
        Some(bcc_list) => {
            if bcc_list.len() > 0 {
                r.push(String::from_str("-b"));
                r.push(join_strings(bcc_list, ","));
            }
        },
        None => {},
    }
    let ghost with_bcc = views(r@);
    assert(with_bcc =~= with_cc + match mail_config.bcc {
        Some(bcc) if bcc.len() > 0 => seq!["-b"@, joined(views(bcc@), ","@)],
        _ => seq![],
    });
    r.push(join_strings(&mail_config.recipients, ","));
    assert(views(r@) =~= mail_args_of(*mail_config, subject@));
    r
}

/// The `mail` arguments are, in order: `-s` and the subject, `-a` and the
/// HTML content type; `-c` and the copy list joined with commas, exactly
/// when a non-empty copy list is given; `-b` and the blind-copy list joined
/// with commas, exactly when a non-empty blind-copy list is given, whatever
/// the copy list is; and last the recipients joined with commas.
pub proof fn mail_args_layout(config: MailConfig, subject: Seq<char>)
    ensures
        ({
            let args = mail_args_of(config, subject);
            let has_cc = config.cc is Some && config.cc.unwrap().len() > 0;
            let has_bcc = config.bcc is Some && config.bcc.unwrap().len() > 0;
            let b = if has_cc {
                6int
            } else {
                4int
            };
            &&& args.len() == 5 + (if has_cc {
                2int
            } else {
                0int
            }) + (if has_bcc {
                2int
            } else {
                0int
            })
            &&& args[0] == "-s"@
            &&& args[1] == subject
            &&& args[2] == "-a"@
            &&& args[3] == "Content-Type: text/html"@
            &&& has_cc ==> args[4] == "-c"@ && args[5] == joined(views(config.cc.unwrap()@), ","@)
            &&& has_bcc ==> args[b] == "-b"@ && args[b + 1] == joined(
                views(config.bcc.unwrap()@),
                ","@,
            )
            &&& args.last() == joined(views(config.recipients@), ","@)
        }),
{
    let base = seq!["-s"@, subject, "-a"@, "Content-Type: text/html"@];
    let cc_part = match config.cc {
        Some(cc) if cc.len() > 0 => seq!["-c"@, joined(views(cc@), ","@)],
        _ => Seq::<Seq<char>>::empty(),
    };
    let bcc_part = match config.bcc {
        Some(bcc) if bcc.len() > 0 => seq!["-b"@, joined(views(bcc@), ","@)],
        _ => Seq::<Seq<char>>::empty(),
    };
    let last = seq![joined(views(config.recipients@), ","@)];
    let args = mail_args_of(config, subject);
    assert(args == base + cc_part + bcc_part + last);
    let b: int = base.len() as int + cc_part.len() as int;
    assert((base + cc_part + bcc_part + last)[0] == "-s"@);
    assert((base + cc_part + bcc_part + last)[1] == subject);
    assert((base + cc_part + bcc_part + last)[2] == "-a"@);
    assert((base + cc_part + bcc_part + last)[3] == "Content-Type: text/html"@);
    if cc_part.len() > 0 {
        assert((base + cc_part + bcc_part + last)[4] == cc_part[0]);
        assert((base + cc_part + bcc_part + last)[5] == cc_part[1]);
    }
    if bcc_part.len() > 0 {
        assert((base + cc_part + bcc_part + last)[b] == bcc_part[0]);
        assert((base + cc_part + bcc_part + last)[b + 1] == bcc_part[1]);
    }
}

/// A mail body is the given body, and, when there is a diff, after it a
/// "Configuration Changes" heading and a preformatted block that holds the
/// diff rendered as HTML.
pub proof fn mail_body_layout(body: Seq<char>, diff: Seq<char>)
    ensures
        mail_body_of(body, None) == body,
        exists|mid: Seq<char>|
            {
                &&& mail_body_of(body, Some(diff)) == body + mid + html_of(diff, false) + "</pre>"@
                &&& has_prefix(mid, "<br><br><h3>Configuration Changes:</h3><pre"@)
                &&& mid.last() == '>'
            },
{
    let mid = diff_block_start();
    reveal_strlit("<br><br><h3>Configuration Changes:</h3><pre");
    reveal_strlit(
        "<br><br><h3>Configuration Changes:</h3><pre style=\"background-color: #f5f5f5; padding: 10px; border: 1px solid #ddd; font-family: 'Courier New', monospace; white-space: pre-wrap; line-height: 1.2;\">",
    );
    assert(mid.take("<br><br><h3>Configuration Changes:</h3><pre"@.len() as int)
        =~= "<br><br><h3>Configuration Changes:</h3><pre"@);
    assert(has_prefix(mid, "<br><br><h3>Configuration Changes:</h3><pre"@));
    assert(mid.last() == '>');
    assert(mail_body_of(body, Some(diff)) == body + mid + html_of(diff, false) + "</pre>"@);
}

} // verus!
