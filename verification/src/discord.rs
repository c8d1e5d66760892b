//! Discord webhook notifications: escaping text for JSON, the webhook
//! address, and the JSON payload of an embed.

use vstd::prelude::*;
use crate::ansi::{strip_ansi, stripped};
use crate::text::{all_digits, digits_value, has_prefix, lemma_decimal_digits, lemma_decimal_no_leading_zero, chars_of, push_char, push_decimal, decimal, lines_of, line_bounds, string_from, joined};

verus! {

/// Where Discord notifications go: the id and token of a webhook.
#[derive(Debug, Clone)]
pub struct DiscordConfig {
    pub webhook_id: String,
    pub webhook_token: String,
}

/// The address of the webhook.
pub open spec fn webhook_url_of(config: DiscordConfig) -> Seq<char> {
    "https://discord.com/api/webhooks/"@ + config.webhook_id@ + "/"@ + config.webhook_token@
}

/// The address that notifications are posted to.
pub fn webhook_url(discord_config: &DiscordConfig) -> (r: String)
    ensures
        r@ == webhook_url_of(*discord_config),
{
    let mut url = String::from_str("https://discord.com/api/webhooks/");
    url.append(discord_config.webhook_id.as_str());
    url.append("/");
    url.append(discord_config.webhook_token.as_str());
    url
}

/// The description of an embed: the given one, then, when there is a diff,
/// the diff without colours in a `diff` code block.
pub open spec fn embed_description_of(description: Seq<char>, diff: Option<Seq<char>>) -> Seq<
    char,
> {
    match diff {
        Some(d) => description + "\n\n```diff\n"@ + stripped(d) + "```"@,
        None => description,
    }
}

/// Builds the description of an embed.
pub fn embed_description(description: &str, diff_content: Option<&str>) -> (r: String)
    ensures
        r@ == embed_description_of(
            description@,
            match diff_content {
                Some(d) => Some(d@),
                None => None,
            },
        ),
{
    let mut out = String::from_str(description);
    match diff_content {
        Some(diff) => {
            out.append("\n\n```diff\n");
            let clean = strip_ansi(diff);
            out.append(clean.as_str());
            out.append("```");
        },
        None => {},
    }
    out
}

/// The webhook address is the Discord webhook base followed by the id, a
/// slash and the token; the embed description is the given one, followed,
/// when there is a diff, by an empty line and the diff without colour
/// sequences in a `diff` code block.
pub proof fn discord_texts_layout(config: DiscordConfig, description: Seq<char>, diff: Seq<char>)
    ensures
        webhook_url_of(config) == "https://discord.com/api/webhooks/"@ + config.webhook_id@ + seq![
            '/',
        ] + config.webhook_token@,
        embed_description_of(description, None) == description,
        embed_description_of(description, Some(diff)) == description + seq!['\n', '\n'] + "```diff"@
            + seq!['\n'] + stripped(diff) + "```"@,
{
    reveal_strlit("/");
    reveal_strlit("\n\n```diff\n");
    reveal_strlit("```diff");
    assert("/"@ =~= seq!['/']);
    assert("\n\n```diff\n"@ =~= seq!['\n', '\n'] + "```diff"@ + seq!['\n']);
    assert(embed_description_of(description, Some(diff)) =~= description + seq!['\n', '\n']
        + "```diff"@ + seq!['\n'] + stripped(diff) + "```"@);
}

/// The JSON body posted to the webhook: one embed with the title,
/// description, colour and time stamp, sent as user "Reduced".
pub open spec fn payload_of(title: Seq<char>, description: Seq<char>, color: u32, timestamp: Seq<
    char,
>) -> Seq<char> {
    "{\n            \"username\": \"Reduced\",\n            \"embeds\": [{\n                \"title\": \""@
        + json_escaped(title) + "\",\n                \"description\": \""@ + json_escaped(
        description,
    ) + "\",\n                \"color\": "@ + decimal(color as nat)
        + ",\n                \"footer\": {\n                    \"text\": \"Reduced Notification System\"\n                },\n                \"timestamp\": \""@
        + timestamp + "\"\n            }]\n        }"@
}

/// The colour field of the payload is `"color": ` followed by a JSON
/// number that reads back as the colour: one or more digits, without a
/// leading zero unless the colour is 0, spelling `color`, followed by a
/// comma.
pub proof fn payload_color_field(title: Seq<char>, description: Seq<char>, color: u32, timestamp: Seq<char>)
    ensures
        exists|pre: Seq<char>, digits: Seq<char>, post: Seq<char>|
            {
                &&& payload_of(title, description, color, timestamp) == pre + "\"color\": "@
                    + digits + post
                &&& digits.len() > 0
                &&& all_digits(digits)
                &&& (digits.len() > 1 ==> digits[0] != '0')
                &&& digits_value(digits) == color
                &&& has_prefix(post, ","@)
            },
{
    reveal_strlit("\",\n                \"color\": ");
    reveal_strlit("\",\n                ");
    reveal_strlit("\"color\": ");
    reveal_strlit(",");
    reveal_strlit(
        ",\n                \"footer\": {\n                    \"text\": \"Reduced Notification System\"\n                },\n                \"timestamp\": \"",
    );
    let p3 = "\",\n                \"color\": "@;
    let gap = "\",\n                "@;
    let key = "\"color\": "@;
    assert(p3 =~= gap + key);
    let p4 =
        ",\n                \"footer\": {\n                    \"text\": \"Reduced Notification System\"\n                },\n                \"timestamp\": \""@;
    let pre = "{\n            \"username\": \"Reduced\",\n            \"embeds\": [{\n                \"title\": \""@
        + json_escaped(title) + "\",\n                \"description\": \""@ + json_escaped(
        description,
    ) + gap;
    let digits = decimal(color as nat);
    let post = p4 + timestamp + "\"\n            }]\n        }"@;
    assert(payload_of(title, description, color, timestamp) =~= pre + key + digits + post);
    lemma_decimal_digits(color as nat);
    lemma_decimal_no_leading_zero(color as nat);
    assert(post.take(1) =~= ","@);
    assert(has_prefix(post, ","@));
}

/// Builds the JSON body of a notification.  `timestamp` is the time of
/// sending in RFC 3339 form.
pub fn discord_payload(title: &str, description: &str, color: u32, timestamp: &str) -> (r: String)
    ensures
        r@ == payload_of(title@, description@, color, timestamp@),
{
    let mut out = String::from_str(
        "{\n            \"username\": \"Reduced\",\n            \"embeds\": [{\n                \"title\": \"",
    );
    let t = json_escape(title);
    out.append(t.as_str());
    out.append("\",\n                \"description\": \"");
    let d = json_escape(description);
    out.append(d.as_str());
    out.append("\",\n                \"color\": ");
    push_decimal(color as u64, &mut out);
    out.append(
        ",\n                \"footer\": {\n                    \"text\": \"Reduced Notification System\"\n                },\n                \"timestamp\": \"",
    );
    out.append(timestamp);
    out.append("\"\n            }]\n        }");
    out
}

/// Whether a line shows an added or removed line of a diff: `+` or `-`,
/// then a character that is neither, then at least one more character that
/// is not a line break (the pattern `^[+-][^-+].+`).
pub open spec fn is_change_line(line: Seq<char>) -> bool {
    &&& line.len() >= 3
    &&& (line[0] == '+' || line[0] == '-')
    &&& line[1] != '+' && line[1] != '-'
    &&& line[2] != '\n'
}

/// The lines of `lines` that show changes, in order.
pub open spec fn change_lines(lines: Seq<Seq<char>>) -> Seq<Seq<char>>
    decreases lines.len(),
{
    if lines.len() == 0 {
        seq![]
    } else {
        (if is_change_line(lines[0]) {
            seq![lines[0]]
        } else {
            seq![]
        }) + change_lines(lines.drop_first())
    }
}

/// At most the first fifteen of `lines`.
pub open spec fn first_fifteen(lines: Seq<Seq<char>>) -> Seq<Seq<char>> {
    if lines.len() > 15 {
        lines.take(15)
    } else {
        lines
    }
}

/// The added and removed lines of a diff without colours, at most fifteen,
/// one per line.
pub open spec fn filtered_diff_of(diff: Seq<char>) -> Seq<char> {
    joined(first_fifteen(change_lines(lines_of(stripped(diff)))), "\n"@)
}

/// Keeps the first fifteen added or removed lines of a diff, without
/// colours.
pub fn filter_diff_content(diff: &str) -> (r: String)
    ensures
        r@ == filtered_diff_of(diff@),
{
    let clean = strip_ansi(diff);
    let v = chars_of(clean.as_str());
    let bounds = line_bounds(&v, 0, v.len());
    assert(v@.subrange(0, v@.len() as int) =~= v@);
    let ghost all = lines_of(v@);
    let ghost kept = change_lines(all);
    let mut out = String::new();
    let mut count: usize = 0;
    let mut i: usize = 0;
    assert(all.take(0) =~= Seq::<Seq<char>>::empty());
    assert(all.skip(0) =~= all);
    assert(change_lines(all.take(0)) =~= Seq::<Seq<char>>::empty());
    assert(kept =~= change_lines(all.take(0)) + change_lines(all.skip(0)));
    while i < bounds.len() && count < 15
        invariant
            i <= bounds.len() == all.len(),
            all == lines_of(v@),
            kept == change_lines(all),
            forall|k: int|
                #![trigger bounds@[k]]
                0 <= k < bounds.len() ==> bounds@[k].0 <= bounds@[k].1 <= v.len() && v@.subrange(
                    bounds@[k].0 as int,
                    bounds@[k].1 as int,
                ) == all[k],
            count <= 15,
            kept == change_lines(all.take(i as int)) + change_lines(all.skip(i as int)),
            change_lines(all.take(i as int)).len() == count,
            out@ == joined(change_lines(all.take(i as int)), "\n"@),
        decreases bounds.len() - i,
    {
        let (lo, hi) = bounds[i];
        let line_len = hi - lo;
        let ghost line = all[i as int];
        assert(v@.subrange(lo as int, hi as int) == line);
        let keep = line_len >= 3 && (v[lo] == '+' || v[lo] == '-') && v[lo + 1] != '+' && v[lo + 1]
            != '-' && v[lo + 2] != '\n';
        assert(keep == is_change_line(line));
        proof {
            lemma_change_lines_split(all, i as int);
        }
        if keep {
            if count > 0 {
                out.append("\n");
            }
            let text = string_from(&v, lo, hi);
            out.append(text.as_str());
            count = count + 1;
            proof {
                let prev = change_lines(all.take(i as int));
                let next = change_lines(all.take(i + 1));
                assert(next =~= prev.push(line));
                if prev.len() > 0 {
                    crate::text::lemma_joined_push(next, "\n"@);
                    assert(next.drop_last() =~= prev);
                } else {
                    assert(joined(next, "\n"@) == line);
                }
            }
        } else {
            proof {
                assert(change_lines(all.take(i + 1)) =~= change_lines(all.take(i as int)));
            }
        }
        i = i + 1;
    }
    proof {
        let done = change_lines(all.take(i as int));
        if i == bounds.len() {
            assert(all.take(i as int) =~= all);
            assert(all.skip(i as int) =~= Seq::<Seq<char>>::empty());
            assert(kept =~= done);
        } else if kept.len() > 15 {
            assert(kept.take(15) =~= done);
        } else {
            assert(kept =~= done);
        }
    }
    out
}

/// The change lines of a list are those of its first `i` items followed by
/// those of the rest; the first `i + 1` items add item `i` when it shows a
/// change.
proof fn lemma_change_lines_split(lines: Seq<Seq<char>>, i: int)
    requires
        0 <= i < lines.len(),
    ensures
        change_lines(lines.take(i + 1)) == change_lines(lines.take(i)) + (if is_change_line(
            lines[i],
        ) {
            seq![lines[i]]
        } else {
            seq![]
        }),
        change_lines(lines) == change_lines(lines.take(i + 1)) + change_lines(lines.skip(i + 1)),
{
    lemma_change_lines_concat(lines.take(i), lines.subrange(i, i + 1));
    assert(lines.take(i) + lines.subrange(i, i + 1) =~= lines.take(i + 1));
    let one = lines.subrange(i, i + 1);
    assert(one.drop_first() =~= Seq::<Seq<char>>::empty());
    assert(change_lines(one.drop_first()) == Seq::<Seq<char>>::empty());
    assert(one[0] == lines[i]);
    lemma_change_lines_concat(lines.take(i + 1), lines.skip(i + 1));
    assert(lines.take(i + 1) + lines.skip(i + 1) =~= lines);
    let h = if is_change_line(lines[i]) {
        seq![lines[i]]
    } else {
        seq![]
    };
    assert(h + Seq::<Seq<char>>::empty() =~= h);
}

proof fn lemma_change_lines_concat(a: Seq<Seq<char>>, b: Seq<Seq<char>>)
    ensures
        change_lines(a + b) == change_lines(a) + change_lines(b),
    decreases a.len(),
{
    if a.len() == 0 {
        assert(a + b =~= b);
        assert(change_lines(a) + change_lines(b) =~= change_lines(b));
    } else {
        assert((a + b).drop_first() =~= a.drop_first() + b);
        assert((a + b)[0] == a[0]);
        lemma_change_lines_concat(a.drop_first(), b);
        let h = if is_change_line(a[0]) {
            seq![a[0]]
        } else {
            seq![]
        };
        assert(h + (change_lines(a.drop_first()) + change_lines(b)) =~= (h + change_lines(
            a.drop_first(),
        )) + change_lines(b));
    }
}

/// The JSON escape of one character.
pub open spec fn json_escape_char(c: char) -> Seq<char> {
    if c == '\\' {
        seq!['\\', '\\']
    } else if c == '"' {
        seq!['\\', '"']
    } else if c == '\n' {
        seq!['\\', 'n']
    } else if c == '\r' {
        seq!['\\', 'r']
    } else if c == '\t' {
        seq!['\\', 't']
    } else {
        seq![c]
    }
}

/// `s` with backslash, double quote, newline, carriage return and tab
/// escaped for a JSON string.
pub open spec fn json_escaped(s: Seq<char>) -> Seq<char>
    decreases s.len(),
{
    if s.len() == 0 {
        seq![]
    } else {
        json_escape_char(s[0]) + json_escaped(s.drop_first())
    }
}

/// Escapes `text` so that it can stand inside a JSON string literal.
pub fn json_escape(text: &str) -> (r: String)
    ensures
        r@ == json_escaped(text@),
{
    let v = chars_of(text);
    let mut out = String::new();
    let mut i: usize = 0;
    assert(v@.skip(0) =~= v@);
    while i < v.len()
        invariant
            i <= v.len(),
            out@ + json_escaped(v@.skip(i as int)) == json_escaped(v@),
        decreases v.len() - i,
    {
        let ghost rest = v@.skip(i as int);
        let ghost before = out@;
        let c = v[i];
        if c == '\\' {
            push_char(&mut out, '\\');
            push_char(&mut out, '\\');
        } else if c == '"' {
            push_char(&mut out, '\\');
            push_char(&mut out, '"');
        } else if c == '\n' {
            push_char(&mut out, '\\');
            push_char(&mut out, 'n');
        } else if c == '\r' {
            push_char(&mut out, '\\');
            push_char(&mut out, 'r');
        } else if c == '\t' {
            push_char(&mut out, '\\');
            push_char(&mut out, 't');
        } else {
            push_char(&mut out, c);
        }
        assert(out@ =~= before + json_escape_char(c));
        assert(rest.drop_first() =~= v@.skip(i + 1));
        assert(out@ + json_escaped(v@.skip(i + 1)) =~= before + json_escaped(rest));
        i = i + 1;
    }
    assert(v@.skip(i as int) =~= Seq::<char>::empty());
    assert(out@ + Seq::<char>::empty() =~= out@);
    out
}


/// `s` with every occurrence of the character `c` replaced by `rep`.
pub open spec fn replace_char(s: Seq<char>, c: char, rep: Seq<char>) -> Seq<char>
    decreases s.len(),
{
    if s.len() == 0 {
        seq![]
    } else {
        (if s[0] == c {
            rep
        } else {
            seq![s[0]]
        }) + replace_char(s.drop_first(), c, rep)
    }
}

/// Escaping as five replacements in turn: backslashes first, then double
/// quotes, newlines, carriage returns and tabs.
pub open spec fn json_replace_chain(s: Seq<char>) -> Seq<char> {
    replace_char(
        replace_char(
            replace_char(
                replace_char(replace_char(s, '\\', seq!['\\', '\\']), '"', seq!['\\', '"']),
                '\n',
                seq!['\\', 'n'],
            ),
            '\r',
            seq!['\\', 'r'],
        ),
        '\t',
        seq!['\\', 't'],
    )
}

proof fn lemma_replace_char_concat(a: Seq<char>, b: Seq<char>, c: char, rep: Seq<char>)
    ensures
        replace_char(a + b, c, rep) == replace_char(a, c, rep) + replace_char(b, c, rep),
    decreases a.len(),
{
    if a.len() == 0 {
        assert(a + b =~= b);
        assert(replace_char(a, c, rep) + replace_char(b, c, rep) =~= replace_char(b, c, rep));
    } else {
        assert((a + b).drop_first() =~= a.drop_first() + b);
        assert((a + b)[0] == a[0]);
        lemma_replace_char_concat(a.drop_first(), b, c, rep);
        let head = if a[0] == c {
            rep
        } else {
            seq![a[0]]
        };
        assert(head + (replace_char(a.drop_first(), c, rep) + replace_char(b, c, rep)) =~= (head
            + replace_char(a.drop_first(), c, rep)) + replace_char(b, c, rep));
    }
}

proof fn lemma_replace_char_absent(s: Seq<char>, c: char, rep: Seq<char>)
    requires
        forall|i: int| 0 <= i < s.len() ==> s[i] != c,
    ensures
        replace_char(s, c, rep) == s,
    decreases s.len(),
{
    if s.len() > 0 {
        assert forall|i: int| 0 <= i < s.drop_first().len() implies s.drop_first()[i] != c by {
            assert(s.drop_first()[i] == s[i + 1]);
        }
        lemma_replace_char_absent(s.drop_first(), c, rep);
        assert(seq![s[0]] + s.drop_first() =~= s);
    }
}

proof fn lemma_replace_char_single(x: char, c: char, rep: Seq<char>)
    ensures
        replace_char(seq![x], c, rep) == if x == c {
            rep
        } else {
            seq![x]
        },
{
    let s = seq![x];
    assert(s.drop_first() =~= Seq::<char>::empty());
    assert(replace_char(s.drop_first(), c, rep) == Seq::<char>::empty());
    assert(s[0] == x);
    let head = if x == c {
        rep
    } else {
        seq![x]
    };
    assert(head + Seq::<char>::empty() =~= head);
}

proof fn lemma_replace_chain_concat(a: Seq<char>, b: Seq<char>)
    ensures
        json_replace_chain(a + b) == json_replace_chain(a) + json_replace_chain(b),
{
    let bs = seq!['\\', '\\'];
    let q = seq!['\\', '"'];
    let n = seq!['\\', 'n'];
    let r = seq!['\\', 'r'];
    let t = seq!['\\', 't'];
    lemma_replace_char_concat(a, b, '\\', bs);
    let a1 = replace_char(a, '\\', bs);
    let b1 = replace_char(b, '\\', bs);
    lemma_replace_char_concat(a1, b1, '"', q);
    let a2 = replace_char(a1, '"', q);
    let b2 = replace_char(b1, '"', q);
    lemma_replace_char_concat(a2, b2, '\n', n);
    let a3 = replace_char(a2, '\n', n);
    let b3 = replace_char(b2, '\n', n);
    lemma_replace_char_concat(a3, b3, '\r', r);
    let a4 = replace_char(a3, '\r', r);
    let b4 = replace_char(b3, '\r', r);
    lemma_replace_char_concat(a4, b4, '\t', t);
}

/// The replacement chain leaves a sequence unchanged when it holds none of
/// the five special characters.
proof fn lemma_replace_chain_plain(s: Seq<char>)
    requires
        forall|i: int|
            0 <= i < s.len() ==> s[i] != '\\' && s[i] != '"' && s[i] != '\n' && s[i] != '\r'
                && s[i] != '\t',
    ensures
        json_replace_chain(s) == s,
{
    lemma_replace_char_absent(s, '\\', seq!['\\', '\\']);
    lemma_replace_char_absent(s, '"', seq!['\\', '"']);
    lemma_replace_char_absent(s, '\n', seq!['\\', 'n']);
    lemma_replace_char_absent(s, '\r', seq!['\\', 'r']);
    lemma_replace_char_absent(s, '\t', seq!['\\', 't']);
}

proof fn lemma_replace_chain_single(x: char)
    ensures
        json_replace_chain(seq![x]) == json_escape_char(x),
{
    let bs = seq!['\\', '\\'];
    let q = seq!['\\', '"'];
    let n = seq!['\\', 'n'];
    let r = seq!['\\', 'r'];
    let t = seq!['\\', 't'];
    lemma_replace_char_single(x, '\\', bs);
    if x == '\\' {
        lemma_replace_char_absent(bs, '"', q);
        lemma_replace_char_absent(bs, '\n', n);
        lemma_replace_char_absent(bs, '\r', r);
        lemma_replace_char_absent(bs, '\t', t);
    } else {
        lemma_replace_char_single(x, '"', q);
        if x == '"' {
            lemma_replace_char_absent(q, '\n', n);
            lemma_replace_char_absent(q, '\r', r);
            lemma_replace_char_absent(q, '\t', t);
        } else {
            lemma_replace_char_single(x, '\n', n);
            if x == '\n' {
                lemma_replace_char_absent(n, '\r', r);
                lemma_replace_char_absent(n, '\t', t);
            } else {
                lemma_replace_char_single(x, '\r', r);
                if x == '\r' {
                    lemma_replace_char_absent(r, '\t', t);
                } else {
                    lemma_replace_char_single(x, '\t', t);
                }
            }
        }
    }
}

/// Escaping in one pass gives the same text as replacing backslashes,
/// double quotes, newlines, carriage returns and tabs one after another,
/// backslashes first.
pub proof fn json_escape_is_replace_chain(s: Seq<char>)
    ensures
        json_escaped(s) == json_replace_chain(s),
    decreases s.len(),
{
    if s.len() > 0 {
        json_escape_is_replace_chain(s.drop_first());
        assert(s =~= seq![s[0]] + s.drop_first());
        lemma_replace_chain_concat(seq![s[0]], s.drop_first());
        lemma_replace_chain_single(s[0]);
    } else {
        lemma_replace_chain_plain(s);
    }
}

/// Reads back one escaped character: the letter after a backslash.
spec fn json_unescape_char(c: char) -> char {
    if c == 'n' {
        '\n'
    } else if c == 'r' {
        '\r'
    } else if c == 't' {
        '\t'
    } else {
        c
    }
}

/// Reads an escaped text back.
spec fn json_unescaped(s: Seq<char>) -> Seq<char>
    decreases s.len(),
{
    if s.len() == 0 {
        seq![]
    } else if s[0] == '\\' && s.len() >= 2 {
        seq![json_unescape_char(s[1])] + json_unescaped(s.skip(2))
    } else {
        seq![s[0]] + json_unescaped(s.drop_first())
    }
}

proof fn lemma_json_round_trip(s: Seq<char>)
    ensures
        json_unescaped(json_escaped(s)) == s,
    decreases s.len(),
{
    if s.len() > 0 {
        let x = s[0];
        let rest = json_escaped(s.drop_first());
        lemma_json_round_trip(s.drop_first());
        let e = json_escape_char(x) + rest;
        if e.len() >= 2 && json_escape_char(x).len() == 2 {
            assert(e.skip(2) =~= rest);
        } else {
            assert(e.drop_first() =~= rest);
        }
        assert(seq![x] + s.drop_first() =~= s);
    }
}

/// The value of a hexadecimal digit.
pub open spec fn hex_value(c: char) -> Option<int> {
    if '0' <= c && c <= '9' {
        Some(c as int - '0' as int)
    } else if 'a' <= c && c <= 'f' {
        Some(c as int - 'a' as int + 10)
    } else if 'A' <= c && c <= 'F' {
        Some(c as int - 'A' as int + 10)
    } else {
        None
    }
}

/// The number that the first four characters of `s` spell in hexadecimal.
pub open spec fn hex4(s: Seq<char>) -> Option<int> {
    if s.len() >= 4 && hex_value(s[0]) is Some && hex_value(s[1]) is Some && hex_value(s[2]) is Some
        && hex_value(s[3]) is Some {
        Some(
            ((hex_value(s[0]).unwrap() * 16 + hex_value(s[1]).unwrap()) * 16 + hex_value(
                s[2],
            ).unwrap()) * 16 + hex_value(s[3]).unwrap(),
        )
    } else {
        None
    }
}

/// The character that a JSON escape of one letter stands for.
pub open spec fn json_short_escape(c: char) -> Option<char> {
    if c == '"' {
        Some('"')
    } else if c == '\\' {
        Some('\\')
    } else if c == '/' {
        Some('/')
    } else if c == 'b' {
        Some('\u{8}')
    } else if c == 'f' {
        Some('\u{c}')
    } else if c == 'n' {
        Some('\n')
    } else if c == 'r' {
        Some('\r')
    } else if c == 't' {
        Some('\t')
    } else {
        None
    }
}

/// `c` in front of a text, if there is one.
pub open spec fn prepend_char(c: char, rest: Option<Seq<char>>) -> Option<Seq<char>> {
    match rest {
        Some(t) => Some(seq![c] + t),
        None => None,
    }
}

/// The text that the inside of a JSON string literal (RFC 8259) stands
/// for, or nothing when it is not valid there: an unescaped `"` or control
/// character, an unknown escape, or a `\u` escape of a lone surrogate.
pub open spec fn json_string_content(s: Seq<char>) -> Option<Seq<char>>
    decreases s.len(),
{
    if s.len() == 0 {
        Some(seq![])
    } else if s[0] == '"' || (s[0] as int) < 0x20 {
        None
    } else if s[0] == '\\' {
        if s.len() >= 2 && json_short_escape(s[1]) is Some {
            prepend_char(json_short_escape(s[1]).unwrap(), json_string_content(s.skip(2)))
        } else if s.len() >= 6 && s[1] == 'u' && hex4(s.skip(2)) is Some {
            let u = hex4(s.skip(2)).unwrap();
            if 0xD800 <= u < 0xDC00 {
                if s.len() >= 12 && s[6] == '\\' && s[7] == 'u' && hex4(s.skip(8)) is Some && 0xDC00
                    <= hex4(s.skip(8)).unwrap() < 0xE000 {
                    let l = hex4(s.skip(8)).unwrap();
                    prepend_char(
                        ((u - 0xD800) * 0x400 + (l - 0xDC00) + 0x10000) as char,
                        json_string_content(s.skip(12)),
                    )
                } else {
                    None
                }
            } else if 0xDC00 <= u < 0xE000 {
                None
            } else {
                prepend_char(u as char, json_string_content(s.skip(6)))
            }
        } else {
            None
        }
    } else {
        prepend_char(s[0], json_string_content(s.drop_first()))
    }
}

/// The text that a JSON string literal, quotes included, stands for.
pub open spec fn json_string_value(literal: Seq<char>) -> Option<Seq<char>> {
    if literal.len() >= 2 && literal[0] == '"' && literal.last() == '"' {
        json_string_content(literal.subrange(1, literal.len() - 1))
    } else {
        None
    }
}

/// Whether `s` holds no control character other than newline, carriage
/// return and tab: the characters that escaping leaves as they are and
/// JSON does not allow raw.
pub open spec fn json_safe_controls(s: Seq<char>) -> bool {
    forall|i: int|
        0 <= i < s.len() ==> (s[i] as int) >= 0x20 || s[i] == '\n' || s[i] == '\r' || s[i]
            == '\t'
}

proof fn lemma_json_content_of_escaped(s: Seq<char>)
    requires
        json_safe_controls(s),
    ensures
        json_string_content(json_escaped(s)) == Some(s),
    decreases s.len(),
{
    if s.len() > 0 {
        let x = s[0];
        let rest = s.drop_first();
        assert(json_safe_controls(rest)) by {
            assert forall|i: int| 0 <= i < rest.len() implies (rest[i] as int) >= 0x20 || rest[i]
                == '\n' || rest[i] == '\r' || rest[i] == '\t' by {
                assert(rest[i] == s[i + 1]);
            }
        }
        lemma_json_content_of_escaped(rest);
        let r = json_escaped(rest);
        let e = json_escape_char(x) + r;
        assert(json_escaped(s) == e);
        if x == '\\' || x == '"' || x == '\n' || x == '\r' || x == '\t' {
            assert(e[0] == '\\');
            assert(e.skip(2) =~= r);
        } else {
            assert(e[0] == x);
            assert(e.drop_first() =~= r);
        }
        assert(seq![x] + rest =~= s);
    } else {
        assert(json_escaped(s) == Seq::<char>::empty());
    }
}

/// Escaped text inside double quotes is a JSON string literal that stands
/// for the text again, when the text holds no control character other than
/// newline, carriage return and tab.
pub proof fn json_escape_decodes_back(s: Seq<char>)
    requires
        json_safe_controls(s),
    ensures
        json_string_value(seq!['"'] + json_escaped(s) + seq!['"']) == Some(s),
{
    lemma_json_content_of_escaped(s);
    let lit = seq!['"'] + json_escaped(s) + seq!['"'];
    assert(lit.subrange(1, lit.len() - 1) =~= json_escaped(s));
}

/// Escaping loses nothing: two texts with the same escape are equal.
pub proof fn json_escape_injective(a: Seq<char>, b: Seq<char>)
    requires
        json_escaped(a) == json_escaped(b),
    ensures
        a == b,
{
    lemma_json_round_trip(a);
    lemma_json_round_trip(b);
}

/// An escaped text holds no raw newline, carriage return or tab.
pub proof fn json_escape_has_no_raw_controls(s: Seq<char>)
    ensures
        forall|i: int|
            0 <= i < json_escaped(s).len() ==> #[trigger] json_escaped(s)[i] != '\n'
                && json_escaped(s)[i] != '\r' && json_escaped(s)[i] != '\t',
    decreases s.len(),
{
    if s.len() > 0 {
        json_escape_has_no_raw_controls(s.drop_first());
        let h = json_escape_char(s[0]);
        let t = json_escaped(s.drop_first());
        assert forall|i: int| 0 <= i < (h + t).len() implies #[trigger] (h + t)[i] != '\n' && (h
            + t)[i] != '\r' && (h + t)[i] != '\t' by {
            if i >= h.len() {
                assert((h + t)[i] == t[i - h.len()]);
            }
        }
    }
}

} // verus!
