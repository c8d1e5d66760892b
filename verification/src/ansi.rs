//! ANSI colour escapes (`ESC [ <digits and ';'> m`, as `git --color=always`
//! emits them): removing them, and turning coloured text into HTML.

use vstd::prelude::*;
use crate::text::{chars_of, has_prefix, push_char};

verus! {

/// The escape character that starts every ANSI control sequence.
pub const ESC: char = '\x1b';

/// A character that may appear between `ESC [` and the final `m`.
pub open spec fn is_code_char(c: char) -> bool {
    ('0' <= c && c <= '9') || c == ';'
}

/// Number of leading code characters of `s`.
pub open spec fn code_run(s: Seq<char>) -> nat
    decreases s.len(),
{
    if s.len() > 0 && is_code_char(s[0]) {
        1 + code_run(s.drop_first())
    } else {
        0
    }
}

pub proof fn lemma_code_run_bound(s: Seq<char>)
    ensures
        code_run(s) <= s.len(),
        forall|i: int| 0 <= i < code_run(s) ==> is_code_char(#[trigger] s[i]),
        code_run(s) < s.len() ==> !is_code_char(s[code_run(s) as int]),
    decreases s.len(),
{
    if s.len() > 0 && is_code_char(s[0]) {
        lemma_code_run_bound(s.drop_first());
        assert forall|i: int| 0 <= i < code_run(s) implies is_code_char(#[trigger] s[i]) by {
            if i > 0 {
                assert(s[i] == s.drop_first()[i - 1]);
            }
        }
    }
}

/// Whether `s` starts with `ESC [`.
pub open spec fn starts_escape(s: Seq<char>) -> bool {
    s.len() >= 2 && s[0] == ESC && s[1] == '['
}

/// Length of the complete colour sequence `ESC [ <code chars> m` at the
/// start of `s`, if there is one.
pub open spec fn sgr_len(s: Seq<char>) -> Option<nat> {
    if starts_escape(s) {
        let n = code_run(s.skip(2));
        if 2 + n < s.len() && s[2 + n as int] == 'm' {
            Some((3 + n) as nat)
        } else {
            None
        }
    } else {
        None
    }
}

/// `s` with every complete colour sequence removed, scanning from the left
/// and resuming after each removed sequence.
pub open spec fn stripped(s: Seq<char>) -> Seq<char>
    decreases s.len(),
{
    if s.len() == 0 {
        seq![]
    } else {
        match sgr_len(s) {
            Some(n) => {
                proof {
                    lemma_code_run_bound(s.skip(2));
                }
                stripped(s.skip(n as int))
            },
            None => seq![s[0]] + stripped(s.drop_first()),
        }
    }
}

/// Length of the code run in `v` starting at index `start`.
fn code_run_at(v: &Vec<char>, start: usize) -> (n: usize)
    requires
        start <= v.len(),
    ensures
        n == code_run(v@.skip(start as int)),
        start + n <= v.len(),
{
    let mut j = start;
    while j < v.len() && ((v[j] >= '0' && v[j] <= '9') || v[j] == ';')
        invariant
            start <= j <= v.len(),
            code_run(v@.skip(start as int)) == (j - start) + code_run(v@.skip(j as int)),
        decreases v.len() - j,
    {
        assert(v@.skip(j as int).drop_first() =~= v@.skip(j + 1));
        j = j + 1;
    }
    j - start
}

/// Removes the ANSI colour sequences from `text`.
pub fn strip_ansi(text: &str) -> (r: String)
    ensures
        r@ == stripped(text@),
{
    let v = chars_of(text);
    let mut out = String::new();
    let mut i: usize = 0;
    assert(v@.skip(0) =~= v@);
    while i < v.len()
        invariant
            i <= v.len(),
            out@ + stripped(v@.skip(i as int)) == stripped(v@),
        decreases v.len() - i,
    {
        let ghost rest = v@.skip(i as int);
        let mut matched = false;
        if i + 1 < v.len() && v[i] == ESC && v[i + 1] == '[' {
            assert(rest.skip(2) =~= v@.skip(i + 2));
            let n = code_run_at(&v, i + 2);
            if i + 2 + n < v.len() && v[i + 2 + n] == 'm' {
                matched = true;
                assert(rest.skip(3 + n) =~= v@.skip(i + 3 + n));
                i = i + 3 + n;
            }
        }
        if !matched {
            assert(rest.drop_first() =~= v@.skip(i + 1));
            let ghost before = out@;
            push_char(&mut out, v[i]);
            assert(out@ + stripped(v@.skip(i + 1)) =~= before + stripped(rest));
            i = i + 1;
        }
    }
    assert(v@.skip(i as int) =~= Seq::<char>::empty());
    assert(out@ + Seq::<char>::empty() =~= out@);
    out
}


/// The markup that `<` `&` and the other HTML-special characters become.
pub open spec fn html_escape_char(c: char) -> Seq<char> {
    if c == '&' {
        "&amp;"@
    } else if c == '<' {
        "&lt;"@
    } else if c == '>' {
        "&gt;"@
    } else if c == '"' {
        "&quot;"@
    } else if c == '\'' {
        "&#x27;"@
    } else if c == '\n' {
        "<br>"@
    } else {
        seq![c]
    }
}

/// Whether `code` is the two characters `3` `d`.
pub open spec fn is_code_3x(code: Seq<char>, d: char) -> bool {
    code.len() == 2 && code[0] == '3' && code[1] == d
}

/// The opening tag that a colour code starts, for the six colours known.
pub open spec fn color_tag(code: Seq<char>) -> Option<Seq<char>> {
    if is_code_3x(code, '1') {
        Some("<span style=\"color: #dc3545;\">"@)
    } else if is_code_3x(code, '2') {
        Some("<span style=\"color: #28a745;\">"@)
    } else if is_code_3x(code, '3') {
        Some("<span style=\"color: #ffc107;\">"@)
    } else if is_code_3x(code, '4') {
        Some("<span style=\"color: #007bff;\">"@)
    } else if is_code_3x(code, '5') {
        Some("<span style=\"color: #6f42c1;\">"@)
    } else if is_code_3x(code, '6') {
        Some("<span style=\"color: #17a2b8;\">"@)
    } else {
        None
    }
}

/// A code that resets the colour: empty, or `0`.
pub open spec fn is_reset_code(code: Seq<char>) -> bool {
    code.len() == 0 || (code.len() == 1 && code[0] == '0')
}

pub open spec fn close_tag() -> Seq<char> {
    "</span>"@
}

/// What an escape with `code` adds to the HTML: a closing tag when a colour
/// was open, then the opening tag of a known colour.
pub open spec fn code_html(code: Seq<char>, open: bool) -> Seq<char> {
    (if open {
        close_tag()
    } else {
        seq![]
    }) + match color_tag(code) {
        Some(tag) => tag,
        None => seq![],
    }
}

/// Whether a colour counts as open after an escape with `code`: a known
/// colour opens one, a reset closes it, any other code leaves it as it was.
pub open spec fn code_open_after(code: Seq<char>, open: bool) -> bool {
    color_tag(code) is Some || (!is_reset_code(code) && open)
}

/// The code characters of the escape that starts `s`.
pub open spec fn escape_code(s: Seq<char>) -> Seq<char> {
    s.subrange(2, 2 + code_run(s.skip(2)) as int)
}

/// Where the escape that starts `s` ends: after its code, and after an `m`
/// that follows the code.
pub open spec fn escape_end(s: Seq<char>) -> nat {
    let n = code_run(s.skip(2));
    if 2 + n < s.len() && s[2 + n as int] == 'm' {
        (3 + n) as nat
    } else {
        (2 + n) as nat
    }
}

/// The HTML rendering of coloured text `s`, `open` telling whether a colour
/// span is open when `s` begins.
pub open spec fn html_of(s: Seq<char>, open: bool) -> Seq<char>
    decreases s.len(),
{
    if s.len() == 0 {
        if open {
            close_tag()
        } else {
            seq![]
        }
    } else if starts_escape(s) {
        proof {
            lemma_code_run_bound(s.skip(2));
        }
        code_html(escape_code(s), open) + html_of(
            s.skip(escape_end(s) as int),
            code_open_after(escape_code(s), open),
        )
    } else {
        html_escape_char(s[0]) + html_of(s.drop_first(), open)
    }
}

/// Whether `v[start..start + 2]` is `3` followed by `d`.
fn is_code_3x_at(v: &Vec<char>, start: usize, n: usize, d: char) -> (b: bool)
    requires
        start + n <= v.len(),
    ensures
        b == is_code_3x(v@.subrange(start as int, start + n), d),
{
    n == 2 && v[start] == '3' && v[start + 1] == d
}

/// Appends what the escape with code `v[start..start + n]` adds to the HTML,
/// and returns whether a colour is open afterwards.
fn render_code(v: &Vec<char>, start: usize, n: usize, open: bool, out: &mut String) -> (open_after: bool)
    requires
        start + n <= v.len(),
    ensures
        final(out)@ == old(out)@ + code_html(v@.subrange(start as int, start + n), open),
        open_after == code_open_after(v@.subrange(start as int, start + n), open),
{
    let ghost code = v@.subrange(start as int, start + n);
    let ghost before = old(out)@;
    if open {
        out.append("</span>");
    }
    let ghost after_close = out@;
    let known = if is_code_3x_at(v, start, n, '1') {
        out.append("<span style=\"color: #dc3545;\">");
        true
    } else if is_code_3x_at(v, start, n, '2') {
        out.append("<span style=\"color: #28a745;\">");
        true
    } else if is_code_3x_at(v, start, n, '3') {
        out.append("<span style=\"color: #ffc107;\">");
        true
    } else if is_code_3x_at(v, start, n, '4') {
        out.append("<span style=\"color: #007bff;\">");
        true
    } else if is_code_3x_at(v, start, n, '5') {
        out.append("<span style=\"color: #6f42c1;\">");
        true
    } else if is_code_3x_at(v, start, n, '6') {
        out.append("<span style=\"color: #17a2b8;\">");
        true
    } else {
        false
    };
    proof {
        if color_tag(code) is None {
            assert(after_close + Seq::<char>::empty() =~= after_close);
        }
    }
    if known {
        true
    } else if n == 0 || (n == 1 && v[start] == '0') {
        false
    } else {
        open
    }
}

/// Appends the HTML form of one ordinary character.
fn push_escaped(c: char, out: &mut String)
    ensures
        final(out)@ == old(out)@ + html_escape_char(c),
{
    if c == '&' {
        out.append("&amp;");
    } else if c == '<' {
        out.append("&lt;");
    } else if c == '>' {
        out.append("&gt;");
    } else if c == '"' {
        out.append("&quot;");
    } else if c == '\'' {
        out.append("&#x27;");
    } else if c == '\n' {
        out.append("<br>");
    } else {
        let ghost before = out@;
        push_char(out, c);
        assert(out@ =~= before + seq![c]);
    }
}

/// Converts text with ANSI colour escapes into HTML: the six known colours
/// become `<span>`s, a reset closes the span, and HTML-special characters
/// and line breaks are escaped.
pub fn ansi_to_html(ansi_text: &str) -> (html: String)
    ensures
        html@ == html_of(ansi_text@, false),
{
    let v = chars_of(ansi_text);
    let mut html = String::new();
    let mut open = false;
    let mut i: usize = 0;
    assert(v@.skip(0) =~= v@);
    while i < v.len()
        invariant
            i <= v.len(),
            html@ + html_of(v@.skip(i as int), open) == html_of(v@, false),
        decreases v.len() - i,
    {
        let ghost rest = v@.skip(i as int);
        let ghost before = html@;
        let ghost open_before = open;
        if i + 1 < v.len() && v[i] == ESC && v[i + 1] == '[' {
            assert(rest.skip(2) =~= v@.skip(i + 2));
            let n = code_run_at(&v, i + 2);
            assert(escape_code(rest) =~= v@.subrange(i + 2, i + 2 + n));
            open = render_code(&v, i + 2, n, open, &mut html);
            let end = if i + 2 + n < v.len() && v[i + 2 + n] == 'm' {
                i + 3 + n
            } else {
                i + 2 + n
            };
            assert(rest.skip(escape_end(rest) as int) =~= v@.skip(end as int));
            assert(html@ + html_of(v@.skip(end as int), open) =~= before + html_of(rest, open_before));
            i = end;
        } else {
            push_escaped(v[i], &mut html);
            assert(rest.drop_first() =~= v@.skip(i + 1));
            assert(html@ + html_of(v@.skip(i + 1), open) =~= before + html_of(rest, open));
            i = i + 1;
        }
    }
    assert(v@.skip(i as int) =~= Seq::<char>::empty());
    if open {
        html.append("</span>");
    } else {
        assert(html@ + Seq::<char>::empty() =~= html@);
    }
    html
}


/// Whether `s` holds no escape character.
pub open spec fn has_no_escape(s: Seq<char>) -> bool {
    forall|i: int| 0 <= i < s.len() ==> s[i] != ESC
}

/// Text without escape characters passes `strip_ansi` unchanged.
pub proof fn strip_plain_text(s: Seq<char>)
    requires
        has_no_escape(s),
    ensures
        stripped(s) == s,
    decreases s.len(),
{
    if s.len() > 0 {
        assert(sgr_len(s) is None);
        assert(has_no_escape(s.drop_first())) by {
            assert forall|i: int| 0 <= i < s.drop_first().len() implies s.drop_first()[i] != ESC by {
                assert(s.drop_first()[i] == s[i + 1]);
            }
        }
        strip_plain_text(s.drop_first());
        assert(seq![s[0]] + s.drop_first() =~= s);
    }
}

/// Removing colour sequences never makes a text longer.
pub proof fn strip_never_grows(s: Seq<char>)
    ensures
        stripped(s).len() <= s.len(),
    decreases s.len(),
{
    if s.len() > 0 {
        match sgr_len(s) {
            Some(n) => {
                lemma_code_run_bound(s.skip(2));
                strip_never_grows(s.skip(n as int));
            },
            None => {
                strip_never_grows(s.drop_first());
            },
        }
    }
}

/// Every character HTML-escaped, one after another.
pub open spec fn html_escaped(s: Seq<char>) -> Seq<char>
    decreases s.len(),
{
    if s.len() == 0 {
        seq![]
    } else {
        html_escape_char(s[0]) + html_escaped(s.drop_first())
    }
}

/// Text without escape characters becomes its HTML escape, with no span.
pub proof fn html_of_plain_text(s: Seq<char>)
    requires
        has_no_escape(s),
    ensures
        html_of(s, false) == html_escaped(s),
    decreases s.len(),
{
    if s.len() > 0 {
        assert(!starts_escape(s));
        assert(has_no_escape(s.drop_first())) by {
            assert forall|i: int| 0 <= i < s.drop_first().len() implies s.drop_first()[i] != ESC by {
                assert(s.drop_first()[i] == s[i + 1]);
            }
        }
        html_of_plain_text(s.drop_first());
    }
}

/// Whether `s` holds no line break.
pub open spec fn has_no_newline(s: Seq<char>) -> bool {
    forall|i: int| 0 <= i < s.len() ==> s[i] != '\n'
}

proof fn lemma_concat_no_newline(a: Seq<char>, b: Seq<char>)
    requires
        has_no_newline(a),
        has_no_newline(b),
    ensures
        has_no_newline(a + b),
{
    assert forall|i: int| 0 <= i < (a + b).len() implies (a + b)[i] != '\n' by {
        if i >= a.len() {
            assert((a + b)[i] == b[i - a.len()]);
        } else {
            assert((a + b)[i] == a[i]);
        }
    }
}

proof fn lemma_pieces_no_newline(c: char, code: Seq<char>, open: bool)
    ensures
        has_no_newline(html_escape_char(c)),
        has_no_newline(code_html(code, open)),
        has_no_newline(close_tag()),
{
    reveal_strlit("&amp;");
    reveal_strlit("&lt;");
    reveal_strlit("&gt;");
    reveal_strlit("&quot;");
    reveal_strlit("&#x27;");
    reveal_strlit("<br>");
    reveal_strlit("</span>");
    reveal_strlit("<span style=\"color: #dc3545;\">");
    reveal_strlit("<span style=\"color: #28a745;\">");
    reveal_strlit("<span style=\"color: #ffc107;\">");
    reveal_strlit("<span style=\"color: #007bff;\">");
    reveal_strlit("<span style=\"color: #6f42c1;\">");
    reveal_strlit("<span style=\"color: #17a2b8;\">");
    let t = match color_tag(code) {
        Some(tag) => tag,
        None => seq![],
    };
    let c0 = if open {
        close_tag()
    } else {
        seq![]
    };
    assert(has_no_newline(t));
    assert(has_no_newline(c0));
    lemma_concat_no_newline(c0, t);
}

/// The HTML holds no raw line break: each one became `<br>`.
pub proof fn html_has_no_raw_newline(s: Seq<char>, open: bool)
    ensures
        has_no_newline(html_of(s, open)),
    decreases s.len(),
{
    if s.len() == 0 {
        lemma_pieces_no_newline(' ', seq![], open);
        if !open {
            assert(has_no_newline(Seq::<char>::empty()));
        }
    } else if starts_escape(s) {
        lemma_code_run_bound(s.skip(2));
        let code = escape_code(s);
        html_has_no_raw_newline(s.skip(escape_end(s) as int), code_open_after(code, open));
        lemma_pieces_no_newline(' ', code, open);
        lemma_concat_no_newline(
            code_html(code, open),
            html_of(s.skip(escape_end(s) as int), code_open_after(code, open)),
        );
    } else {
        html_has_no_raw_newline(s.drop_first(), open);
        lemma_pieces_no_newline(s[0], seq![], open);
        lemma_concat_no_newline(html_escape_char(s[0]), html_of(s.drop_first(), open));
    }
}


/// Whether, rendering `s` with a span `open` or not at the start, no
/// escape with a code other than a known colour or a reset comes while a
/// span is open.
pub open spec fn no_unknown_code_in_span(s: Seq<char>, open: bool) -> bool
    decreases s.len(),
{
    if s.len() == 0 {
        true
    } else if starts_escape(s) {
        proof {
            lemma_code_run_bound(s.skip(2));
        }
        (color_tag(escape_code(s)) is Some || is_reset_code(escape_code(s)) || !open)
            && no_unknown_code_in_span(
            s.skip(escape_end(s) as int),
            code_open_after(escape_code(s), open),
        )
    } else {
        no_unknown_code_in_span(s.drop_first(), open)
    }
}

/// Reading HTML from the left and counting `<span` openings and `</span>`
/// closings from depth `d`: the depth at the end, or nothing when a
/// closing tag comes with no span open.
pub open spec fn span_depth_after(h: Seq<char>, d: int) -> Option<int>
    decreases h.len(),
{
    if h.len() == 0 {
        Some(d)
    } else if has_prefix(h, "</span>"@) {
        if d <= 0 {
            None
        } else {
            span_depth_after(h.drop_first(), d - 1)
        }
    } else if has_prefix(h, "<span"@) {
        span_depth_after(h.drop_first(), d + 1)
    } else {
        span_depth_after(h.drop_first(), d)
    }
}

/// Whether each `<` of `h` is followed, later in `h`, by a `>`.
pub open spec fn tags_closed(h: Seq<char>) -> bool {
    forall|i: int| 0 <= i < h.len() && h[i] == '<' ==> exists|j: int| i < j < h.len() && h[j] == '>'
}

/// What `span_depth_after` sees at the front of `a + b` it sees in `a`
/// alone, when `a`'s tags are closed.
proof fn lemma_prefix_stays_in(a: Seq<char>, b: Seq<char>, p: Seq<char>)
    requires
        tags_closed(a),
        a.len() > 0,
        p.len() > 0,
        p[0] == '<',
        forall|k: int| 0 <= k < p.len() - 1 ==> p[k] != '>',
    ensures
        has_prefix(a + b, p) == has_prefix(a, p),
{
    if has_prefix(a + b, p) && a.len() < p.len() {
        assert((a + b)[0] == p[0]);
        assert(a[0] == '<');
        let j = choose|j: int| 0 < j < a.len() && a[j] == '>';
        assert((a + b).take(p.len() as int)[j] == p[j]);
    }
    if has_prefix(a, p) {
        assert((a + b).take(p.len() as int) =~= a.take(p.len() as int));
    }
    if has_prefix(a + b, p) && a.len() >= p.len() {
        assert((a + b).take(p.len() as int) =~= a.take(p.len() as int));
    }
}

proof fn lemma_span_patterns()
    ensures
        "</span>"@.len() == 7,
        "</span>"@[0] == '<',
        forall|k: int| 0 <= k < 6 ==> "</span>"@[k] != '>',
        "<span"@.len() == 5,
        "<span"@[0] == '<',
        forall|k: int| 0 <= k < 5 ==> "<span"@[k] != '>',
{
    reveal_strlit("</span>");
    reveal_strlit("<span");
}

/// Depth counting splits at the end of a text whose tags are closed.
proof fn lemma_span_depth_concat(a: Seq<char>, b: Seq<char>, d: int)
    requires
        tags_closed(a),
    ensures
        span_depth_after(a + b, d) == match span_depth_after(a, d) {
            Some(d2) => span_depth_after(b, d2),
            None => None,
        },
    decreases a.len(),
{
    if a.len() == 0 {
        assert(a + b =~= b);
    } else {
        lemma_span_patterns();
        lemma_prefix_stays_in(a, b, "</span>"@);
        lemma_prefix_stays_in(a, b, "<span"@);
        assert((a + b).drop_first() =~= a.drop_first() + b);
        assert(tags_closed(a.drop_first())) by {
            let t = a.drop_first();
            assert forall|i: int| 0 <= i < t.len() && t[i] == '<' implies exists|j: int|
                i < j < t.len() && t[j] == '>' by {
                assert(a[i + 1] == '<');
                let j = choose|j: int| i + 1 < j < a.len() && a[j] == '>';
                assert(t[j - 1] == '>');
            }
        }
        lemma_span_depth_concat(a.drop_first(), b, d);
        lemma_span_depth_concat(a.drop_first(), b, d - 1);
        lemma_span_depth_concat(a.drop_first(), b, d + 1);
    }
}

/// A text that holds no `<` leaves the depth as it is.
proof fn lemma_span_depth_no_tag(h: Seq<char>, d: int)
    requires
        forall|i: int| 0 <= i < h.len() ==> h[i] != '<',
    ensures
        span_depth_after(h, d) == Some(d),
        tags_closed(h),
    decreases h.len(),
{
    if h.len() > 0 {
        lemma_span_patterns();
        assert(!has_prefix(h, "</span>"@)) by {
            if has_prefix(h, "</span>"@) {
                assert(h.take(7)[0] == h[0]);
            }
        }
        assert(!has_prefix(h, "<span"@)) by {
            if has_prefix(h, "<span"@) {
                assert(h.take(5)[0] == h[0]);
            }
        }
        assert forall|i: int| 0 <= i < h.drop_first().len() implies h.drop_first()[i] != '<' by {
            assert(h.drop_first()[i] == h[i + 1]);
        }
        lemma_span_depth_no_tag(h.drop_first(), d);
    }
}

/// A tag: `<`, then characters other than `<`, ending with `>`.
proof fn lemma_tag_piece(t: Seq<char>, d: int)
    requires
        t.len() >= 2,
        t[0] == '<',
        t.last() == '>',
        forall|i: int| 1 <= i < t.len() ==> t[i] != '<',
    ensures
        tags_closed(t),
        span_depth_after(t, d) == if has_prefix(t, "</span>"@) {
            if d <= 0 {
                None
            } else {
                Some(d - 1)
            }
        } else if has_prefix(t, "<span"@) {
            Some(d + 1)
        } else {
            Some(d)
        },
{
    assert forall|i: int| 0 <= i < t.drop_first().len() implies t.drop_first()[i] != '<' by {
        assert(t.drop_first()[i] == t[i + 1]);
    }
    lemma_span_depth_no_tag(t.drop_first(), d - 1);
    lemma_span_depth_no_tag(t.drop_first(), d + 1);
    lemma_span_depth_no_tag(t.drop_first(), d);
    assert forall|i: int| 0 <= i < t.len() && t[i] == '<' implies exists|j: int|
        i < j < t.len() && t[j] == '>' by {
        assert(t[t.len() - 1] == '>');
    }
}

proof fn lemma_concat_closed(a: Seq<char>, b: Seq<char>)
    requires
        tags_closed(a),
        tags_closed(b),
    ensures
        tags_closed(a + b),
{
    let h = a + b;
    assert forall|i: int| 0 <= i < h.len() && h[i] == '<' implies exists|j: int|
        i < j < h.len() && h[j] == '>' by {
        if i < a.len() {
            assert(a[i] == '<');
            let j = choose|j: int| i < j < a.len() && a[j] == '>';
            assert(h[j] == '>');
        } else {
            assert(b[i - a.len()] == '<');
            let j = choose|j: int| i - a.len() < j < b.len() && b[j] == '>';
            assert(h[j + a.len()] == '>');
        }
    }
}

/// The HTML escape of a character has closed tags and leaves the depth.
proof fn lemma_escape_piece(c: char, d: int)
    ensures
        tags_closed(html_escape_char(c)),
        span_depth_after(html_escape_char(c), d) == Some(d),
{
    reveal_strlit("&amp;");
    reveal_strlit("&lt;");
    reveal_strlit("&gt;");
    reveal_strlit("&quot;");
    reveal_strlit("&#x27;");
    reveal_strlit("<br>");
    lemma_span_patterns();
    let e = html_escape_char(c);
    if c == '\n' {
        lemma_tag_piece(e, d);
        assert(!has_prefix(e, "</span>"@));
        assert(!has_prefix(e, "<span"@));
    } else {
        lemma_span_depth_no_tag(e, d);
    }
}

/// Each opening tag starts `<span`, ends with `>` and holds no other `<`.
proof fn lemma_color_tag_shape(code: Seq<char>)
    ensures
        color_tag(code) matches Some(t) ==> {
            &&& t.len() >= 7
            &&& t[0] == '<'
            &&& t[1] == 's'
            &&& t.last() == '>'
            &&& forall|i: int| 1 <= i < t.len() ==> t[i] != '<'
            &&& t.take(5) == "<span"@
        },
{
    reveal_strlit("<span");
    reveal_strlit("<span style=\"color: #dc3545;\">");
    reveal_strlit("<span style=\"color: #28a745;\">");
    reveal_strlit("<span style=\"color: #ffc107;\">");
    reveal_strlit("<span style=\"color: #007bff;\">");
    reveal_strlit("<span style=\"color: #6f42c1;\">");
    reveal_strlit("<span style=\"color: #17a2b8;\">");
    let t0 = "<span style=\"color: #dc3545;\">"@;
    assert(t0.take(5) =~= "<span"@);
    let t1 = "<span style=\"color: #28a745;\">"@;
    assert(t1.take(5) =~= "<span"@);
    let t2 = "<span style=\"color: #ffc107;\">"@;
    assert(t2.take(5) =~= "<span"@);
    let t3 = "<span style=\"color: #007bff;\">"@;
    assert(t3.take(5) =~= "<span"@);
    let t4 = "<span style=\"color: #6f42c1;\">"@;
    assert(t4.take(5) =~= "<span"@);
    let t5 = "<span style=\"color: #17a2b8;\">"@;
    assert(t5.take(5) =~= "<span"@);
}

/// What the escape with `code` adds moves the depth from 1 (span open) or
/// 0 to 1 for a known colour, to 0 for a reset, and leaves 0 for any other
/// code when no span is open.
proof fn lemma_code_piece(code: Seq<char>, open: bool)
    requires
        color_tag(code) is Some || is_reset_code(code) || !open,
    ensures
        tags_closed(code_html(code, open)),
        span_depth_after(code_html(code, open), if open {
            1int
        } else {
            0int
        }) == Some(
            if code_open_after(code, open) {
                1int
            } else {
                0int
            },
        ),
{
    lemma_span_patterns();
    reveal_strlit("</span>");
    reveal_strlit("<span style=\"color: #dc3545;\">");
    reveal_strlit("<span style=\"color: #28a745;\">");
    reveal_strlit("<span style=\"color: #ffc107;\">");
    reveal_strlit("<span style=\"color: #007bff;\">");
    reveal_strlit("<span style=\"color: #6f42c1;\">");
    reveal_strlit("<span style=\"color: #17a2b8;\">");
    let c0 = if open {
        close_tag()
    } else {
        seq![]
    };
    let t = match color_tag(code) {
        Some(tag) => tag,
        None => seq![],
    };
    let d0: int = if open {
        1
    } else {
        0
    };
    if open {
        lemma_tag_piece(c0, 1);
        assert(c0.take(7) =~= "</span>"@);
    } else {
        lemma_span_depth_no_tag(c0, 0);
    }
    assert(span_depth_after(c0, d0) == Some(0int));
    match color_tag(code) {
        Some(tag) => {
            lemma_color_tag_shape(code);
            lemma_tag_piece(tag, 0);
            assert(!has_prefix(tag, "</span>"@)) by {
                assert(tag.take(7)[1] != "</span>"@[1]);
            }
            assert(span_depth_after(t, 0) == Some(1int));
        },
        None => {
            lemma_span_depth_no_tag(t, 0);
        },
    }
    lemma_concat_closed(c0, t);
    lemma_span_depth_concat(c0, t, d0);
}

/// The rendering of `s` from a state with the span `open` or not ends with
/// every span closed, when no unknown code comes while a span is open.
proof fn lemma_html_depth(s: Seq<char>, open: bool)
    requires
        no_unknown_code_in_span(s, open),
    ensures
        span_depth_after(html_of(s, open), if open {
            1int
        } else {
            0int
        }) == Some(0int),
    decreases s.len(),
{
    let d0: int = if open {
        1
    } else {
        0
    };
    if s.len() == 0 {
        if open {
            lemma_span_patterns();
            reveal_strlit("</span>");
            lemma_tag_piece(close_tag(), 1);
            assert(close_tag().take(7) =~= "</span>"@);
        } else {
            assert(span_depth_after(Seq::<char>::empty(), 0) == Some(0int));
        }
    } else if starts_escape(s) {
        lemma_code_run_bound(s.skip(2));
        let code = escape_code(s);
        let rest = s.skip(escape_end(s) as int);
        lemma_code_piece(code, open);
        lemma_html_depth(rest, code_open_after(code, open));
        lemma_span_depth_concat(
            code_html(code, open),
            html_of(rest, code_open_after(code, open)),
            d0,
        );
    } else {
        lemma_escape_piece(s[0], d0);
        lemma_html_depth(s.drop_first(), open);
        lemma_span_depth_concat(html_escape_char(s[0]), html_of(s.drop_first(), open), d0);
    }
}

/// Unless a code other than the six known colours and the reset comes
/// while a colour span is open, the HTML closes each span it opens and
/// closes none it did not open.
pub proof fn html_spans_balanced(s: Seq<char>)
    requires
        no_unknown_code_in_span(s, false),
    ensures
        span_depth_after(html_of(s, false), 0) == Some(0int),
{
    lemma_html_depth(s, false);
}

/// Whether `c` is one of the characters that HTML rendering replaces:
/// `&`, `<`, `>`, `"`, `'` and the line break.
pub open spec fn is_html_special(c: char) -> bool {
    c == '&' || c == '<' || c == '>' || c == '"' || c == '\'' || c == '\n'
}

proof fn lemma_html_escaped_ordinary(s: Seq<char>)
    requires
        forall|i: int| 0 <= i < s.len() ==> !is_html_special(#[trigger] s[i]),
    ensures
        html_escaped(s) == s,
    decreases s.len(),
{
    if s.len() > 0 {
        assert forall|i: int| 0 <= i < s.drop_first().len() implies !is_html_special(
            #[trigger] s.drop_first()[i],
        ) by {
            assert(s.drop_first()[i] == s[i + 1]);
        }
        assert(!is_html_special(s[0]));
        lemma_html_escaped_ordinary(s.drop_first());
        assert(seq![s[0]] + s.drop_first() =~= s);
    }
}

/// Text without escapes and without `&`, `<`, `>`, `"`, `'` or line
/// breaks comes out of the HTML rendering unchanged: spaces, letters,
/// `+` and `-` stay what they are.
pub proof fn html_keeps_ordinary_text(s: Seq<char>)
    requires
        has_no_escape(s),
        forall|i: int| 0 <= i < s.len() ==> !is_html_special(#[trigger] s[i]),
    ensures
        html_of(s, false) == s,
{
    html_of_plain_text(s);
    lemma_html_escaped_ordinary(s);
}

proof fn lemma_html_escaped_concat(a: Seq<char>, b: Seq<char>)
    ensures
        html_escaped(a + b) == html_escaped(a) + html_escaped(b),
    decreases a.len(),
{
    if a.len() == 0 {
        assert(a + b =~= b);
        assert(html_escaped(a) + html_escaped(b) =~= html_escaped(b));
    } else {
        assert((a + b).drop_first() =~= a.drop_first() + b);
        assert((a + b)[0] == a[0]);
        lemma_html_escaped_concat(a.drop_first(), b);
        let h = html_escape_char(a[0]);
        assert(h + (html_escaped(a.drop_first()) + html_escaped(b)) =~= (h + html_escaped(
            a.drop_first(),
        )) + html_escaped(b));
    }
}

/// Without escapes, text is rendered piece by piece: rendering two texts
/// one after the other gives the two renderings one after the other.
pub proof fn html_of_plain_concat(a: Seq<char>, b: Seq<char>)
    requires
        has_no_escape(a),
        has_no_escape(b),
    ensures
        html_of(a + b, false) == html_of(a, false) + html_of(b, false),
{
    assert(has_no_escape(a + b)) by {
        assert forall|i: int| 0 <= i < (a + b).len() implies (a + b)[i] != ESC by {
            if i < a.len() {
                assert((a + b)[i] == a[i]);
            } else {
                assert((a + b)[i] == b[i - a.len()]);
            }
        }
    }
    html_of_plain_text(a);
    html_of_plain_text(b);
    html_of_plain_text(a + b);
    lemma_html_escaped_concat(a, b);
}

/// Each character other than the escape character is rendered on its own
/// as: `&amp;`, `&lt;`, `&gt;`, `&quot;`, `&#x27;` and `<br>` for the six
/// special ones, and as itself for every other.
pub proof fn html_of_one_char(c: char)
    requires
        c != ESC,
    ensures
        html_of(seq![c], false) == if c == '&' {
            "&amp;"@
        } else if c == '<' {
            "&lt;"@
        } else if c == '>' {
            "&gt;"@
        } else if c == '"' {
            "&quot;"@
        } else if c == '\'' {
            "&#x27;"@
        } else if c == '\n' {
            "<br>"@
        } else {
            seq![c]
        },
{
    let s = seq![c];
    assert(!starts_escape(s));
    assert(s.drop_first() =~= Seq::<char>::empty());
    assert(html_of(s.drop_first(), false) == Seq::<char>::empty());
    assert(html_escape_char(c) + Seq::<char>::empty() =~= html_escape_char(c));
}

/// A complete colour sequence at the front, `ESC [` then digits and `;`
/// then `m`, is removed, and the rest is handled on its own.
pub proof fn strip_removes_leading_sequence(code: Seq<char>, rest: Seq<char>)
    requires
        forall|i: int| 0 <= i < code.len() ==> is_code_char(#[trigger] code[i]),
    ensures
        stripped(seq![ESC, '['] + code + seq!['m'] + rest) == stripped(rest),
{
    let s = seq![ESC, '['] + code + seq!['m'] + rest;
    let t = s.skip(2);
    assert(t =~= code + seq!['m'] + rest);
    lemma_code_run_exact(code, seq!['m'] + rest);
    assert(code + (seq!['m'] + rest) =~= t);
    assert(s[2 + code.len() as int] == 'm');
    assert(sgr_len(s) == Some((3 + code.len()) as nat));
    assert(s.skip(3 + code.len() as int) =~= rest);
}

proof fn lemma_code_run_exact(code: Seq<char>, tail: Seq<char>)
    requires
        forall|i: int| 0 <= i < code.len() ==> is_code_char(#[trigger] code[i]),
        tail.len() > 0,
        !is_code_char(tail[0]),
    ensures
        code_run(code + tail) == code.len(),
    decreases code.len(),
{
    if code.len() == 0 {
        assert(code + tail =~= tail);
    } else {
        assert((code + tail).drop_first() =~= code.drop_first() + tail);
        assert((code + tail)[0] == code[0]);
        assert forall|i: int| 0 <= i < code.drop_first().len() implies is_code_char(
            #[trigger] code.drop_first()[i],
        ) by {
            assert(code.drop_first()[i] == code[i + 1]);
        }
        lemma_code_run_exact(code.drop_first(), tail);
    }
}

/// A character that does not start a complete colour sequence is kept,
/// in front of what the rest becomes.
pub proof fn strip_keeps_other_char(c: char, rest: Seq<char>)
    requires
        sgr_len(seq![c] + rest) is None,
    ensures
        stripped(seq![c] + rest) == seq![c] + stripped(rest),
{
    let s = seq![c] + rest;
    assert(s.drop_first() =~= rest);
    assert(s[0] == c);
}

/// Every character other than the escape character is kept by
/// `strip_ansi`, in front of what the rest becomes.
pub proof fn strip_keeps_non_escape(c: char, rest: Seq<char>)
    requires
        c != ESC,
    ensures
        stripped(seq![c] + rest) == seq![c] + stripped(rest),
{
    assert((seq![c] + rest)[0] == c);
    strip_keeps_other_char(c, rest);
}

} // verus!
