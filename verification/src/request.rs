//! The request that the client sends to the daemon over its socket: the
//! kind of request on the first line, then one `NAME=VALUE` line for each
//! `OX_` variable of the client's environment.

use vstd::prelude::*;
use crate::git::pairs_view;
use crate::text::{
    chars_of, is_ws, lemma_index_of_at, strip_cr, trim_end, trim_start, find_char, has_prefix, index_of, line_bounds, lines_of, push_char, starts_with,
    string_from, trim_bounds, trimmed,
};

verus! {

/// Whether a variable is one that Oxidized sets: its name starts `OX_`.
pub open spec fn is_ox_name(name: Seq<char>) -> bool {
    has_prefix(name, "OX_"@)
}

/// The `OX_` variables of `env`, in order.
pub open spec fn ox_vars(env: Seq<(Seq<char>, Seq<char>)>) -> Seq<(Seq<char>, Seq<char>)>
    decreases env.len(),
{
    if env.len() == 0 {
        seq![]
    } else {
        (if is_ox_name(env[0].0) {
            seq![env[0]]
        } else {
            seq![]
        }) + ox_vars(env.drop_first())
    }
}

/// The line `NAME=VALUE` of a variable.
pub open spec fn var_line(var: (Seq<char>, Seq<char>)) -> Seq<char> {
    var.0 + seq!['='] + var.1
}

/// The text of variable lines, one per line.
pub open spec fn var_block(vars: Seq<(Seq<char>, Seq<char>)>) -> Seq<char>
    decreases vars.len(),
{
    if vars.len() == 0 {
        seq![]
    } else if vars.len() == 1 {
        var_line(vars[0])
    } else {
        var_line(vars[0]) + seq!['\n'] + var_block(vars.drop_first())
    }
}

/// The message the client sends: the request, a line break, and the `OX_`
/// variables of `env` as `NAME=VALUE` lines.
pub open spec fn request_message_of(request: Seq<char>, env: Seq<(Seq<char>, Seq<char>)>) -> Seq<
    char,
> {
    request + seq!['\n'] + var_block(ox_vars(env))
}

proof fn lemma_ox_vars_concat(a: Seq<(Seq<char>, Seq<char>)>, b: Seq<(Seq<char>, Seq<char>)>)
    ensures
        ox_vars(a + b) == ox_vars(a) + ox_vars(b),
    decreases a.len(),
{
    if a.len() == 0 {
        assert(a + b =~= b);
        assert(ox_vars(a) + ox_vars(b) =~= ox_vars(b));
    } else {
        assert((a + b).drop_first() =~= a.drop_first() + b);
        assert((a + b)[0] == a[0]);
        lemma_ox_vars_concat(a.drop_first(), b);
        let h = if is_ox_name(a[0].0) {
            seq![a[0]]
        } else {
            seq![]
        };
        assert(h + (ox_vars(a.drop_first()) + ox_vars(b)) =~= (h + ox_vars(a.drop_first()))
            + ox_vars(b));
    }
}

proof fn lemma_ox_vars_one(p: (Seq<char>, Seq<char>))
    ensures
        ox_vars(seq![p]) == if is_ox_name(p.0) {
            seq![p]
        } else {
            seq![]
        },
{
    let s = seq![p];
    assert(s.drop_first() =~= Seq::<(Seq<char>, Seq<char>)>::empty());
    assert(ox_vars(s.drop_first()) == Seq::<(Seq<char>, Seq<char>)>::empty());
    assert(s[0] == p);
    let h = if is_ox_name(p.0) {
        seq![p]
    } else {
        seq![]
    };
    assert(h + Seq::<(Seq<char>, Seq<char>)>::empty() =~= h);
}

proof fn lemma_var_block_push(vars: Seq<(Seq<char>, Seq<char>)>, p: (Seq<char>, Seq<char>))
    ensures
        var_block(vars.push(p)) == if vars.len() == 0 {
            var_line(p)
        } else {
            var_block(vars) + seq!['\n'] + var_line(p)
        },
    decreases vars.len(),
{
    let w = vars.push(p);
    if vars.len() == 0 {
        assert(w.len() == 1 && w[0] == p);
    } else if vars.len() == 1 {
        assert(w.drop_first() =~= seq![p]);
        assert(var_block(seq![p]) == var_line(p));
        assert(w[0] == vars[0]);
    } else {
        assert(w.drop_first() =~= vars.drop_first().push(p));
        lemma_var_block_push(vars.drop_first(), p);
        assert(w[0] == vars[0]);
        let a = var_line(vars[0]);
        let n = seq!['\n'];
        let m = var_block(vars.drop_first());
        assert(a + n + (m + n + var_line(p)) =~= (a + n + m) + n + var_line(p));
    }
}

/// Builds the message that asks the daemon for `request`, passing on the
/// `OX_` variables of `env_vars`.
pub fn request_message(request: &str, env_vars: &[(String, String)]) -> (r: String)
    ensures
        r@ == request_message_of(request@, pairs_view(env_vars@)),
{
    let ghost env = pairs_view(env_vars@);
    let mut block = String::new();
    let mut first = true;
    let mut i: usize = 0;
    assert(env.take(0) =~= Seq::<(Seq<char>, Seq<char>)>::empty());
    while i < env_vars.len()
        invariant
            i <= env_vars.len(),
            env == pairs_view(env_vars@),
            block@ == var_block(ox_vars(env.take(i as int))),
            first == (ox_vars(env.take(i as int)).len() == 0),
        decreases env_vars.len() - i,
    {
        let ghost prev = ox_vars(env.take(i as int));
        let ghost p = env[i as int];
        assert(env.take(i + 1) =~= env.take(i as int) + seq![p]);
        proof {
            lemma_ox_vars_concat(env.take(i as int), seq![p]);
            lemma_ox_vars_one(p);
        }
        if starts_with(env_vars[i].0.as_str(), "OX_") {
            if !first {
                push_char(&mut block, '\n');
            }
            block.append(env_vars[i].0.as_str());
            push_char(&mut block, '=');
            block.append(env_vars[i].1.as_str());
            first = false;
            proof {
                lemma_var_block_push(prev, p);
                assert(ox_vars(env.take(i + 1)) =~= prev.push(p));
            }
            assert(block@ =~= var_block(ox_vars(env.take(i + 1))));
        } else {
            assert(ox_vars(env.take(i + 1)) =~= prev);
        }
        i = i + 1;
    }
    assert(env.take(i as int) =~= env);
    let mut message = String::from_str(request);
    push_char(&mut message, '\n');
    message.append(block.as_str());
    message
}

/// The name and the value of a `NAME=VALUE` line, split at the first `=`;
/// nothing for a line without `=`.
pub open spec fn split_var(line: Seq<char>) -> Option<(Seq<char>, Seq<char>)> {
    match index_of(line, '=') {
        Some(k) => Some((line.take(k as int), line.skip(k + 1 as int))),
        None => None,
    }
}

/// The variables of the lines that hold an `=`, in order.
pub open spec fn vars_of_lines(lines: Seq<Seq<char>>) -> Seq<(Seq<char>, Seq<char>)>
    decreases lines.len(),
{
    if lines.len() == 0 {
        seq![]
    } else {
        (match split_var(lines[0]) {
            Some(p) => seq![p],
            None => seq![],
        }) + vars_of_lines(lines.drop_first())
    }
}

/// The lines of a received message once it is trimmed.
pub open spec fn message_lines(message: Seq<char>) -> Seq<Seq<char>> {
    lines_of(trimmed(message))
}

/// The request of a message: its first line, or nothing.
pub open spec fn request_kind_of(message: Seq<char>) -> Seq<char> {
    if message_lines(message).len() > 0 {
        message_lines(message)[0]
    } else {
        seq![]
    }
}

/// The variables of a message: those of its other lines.
pub open spec fn request_vars_of(message: Seq<char>) -> Seq<(Seq<char>, Seq<char>)> {
    if message_lines(message).len() > 0 {
        vars_of_lines(message_lines(message).drop_first())
    } else {
        seq![]
    }
}

/// A request as the daemon reads it.
pub struct Request {
    /// The first line: `diff`, `failure`, or something the daemon does not
    /// know.
    pub kind: String,
    /// The `NAME=VALUE` pairs of the following lines.
    pub env_vars: Vec<(String, String)>,
}

proof fn lemma_vars_of_lines_concat(a: Seq<Seq<char>>, b: Seq<Seq<char>>)
    ensures
        vars_of_lines(a + b) == vars_of_lines(a) + vars_of_lines(b),
    decreases a.len(),
{
    if a.len() == 0 {
        assert(a + b =~= b);
        assert(vars_of_lines(a) + vars_of_lines(b) =~= vars_of_lines(b));
    } else {
        assert((a + b).drop_first() =~= a.drop_first() + b);
        assert((a + b)[0] == a[0]);
        lemma_vars_of_lines_concat(a.drop_first(), b);
        let h = match split_var(a[0]) {
            Some(p) => seq![p],
            None => seq![],
        };
        assert(h + (vars_of_lines(a.drop_first()) + vars_of_lines(b)) =~= (h + vars_of_lines(
            a.drop_first(),
        )) + vars_of_lines(b));
    }
}

proof fn lemma_vars_of_one_line(line: Seq<char>)
    ensures
        vars_of_lines(seq![line]) == match split_var(line) {
            Some(p) => seq![p],
            None => seq![],
        },
{
    let s = seq![line];
    assert(s.drop_first() =~= Seq::<Seq<char>>::empty());
    assert(vars_of_lines(s.drop_first()) == Seq::<(Seq<char>, Seq<char>)>::empty());
    assert(s[0] == line);
    let h = match split_var(line) {
        Some(p) => seq![p],
        None => seq![],
    };
    assert(h + Seq::<(Seq<char>, Seq<char>)>::empty() =~= h);
}

/// Reads a received message: it is trimmed, its first line is the request,
/// and each later line with an `=` gives a variable, split at the first
/// `=`.
pub fn parse_request(message: &str) -> (r: Request)
    ensures
        r.kind@ == request_kind_of(message@),
        pairs_view(r.env_vars@) == request_vars_of(message@),
{
    let v = chars_of(message);
    let (lo, hi) = trim_bounds(&v);
    let lines = line_bounds(&v, lo, hi);
    let ghost all = lines_of(v@.subrange(lo as int, hi as int));
    assert(all == message_lines(message@));
    if lines.len() == 0 {
        let r = Request { kind: String::new(), env_vars: Vec::new() };
        assert(pairs_view(r.env_vars@) =~= Seq::<(Seq<char>, Seq<char>)>::empty());
        return r;
    }
    let kind = string_from(&v, lines[0].0, lines[0].1);
    let mut env_vars: Vec<(String, String)> = Vec::new();
    let mut i: usize = 1;
    assert(all.subrange(1, 1) =~= Seq::<Seq<char>>::empty());
    assert(pairs_view(env_vars@) =~= Seq::<(Seq<char>, Seq<char>)>::empty());
    while i < lines.len()
        invariant
            1 <= i <= lines.len() == all.len(),
            all == lines_of(v@.subrange(lo as int, hi as int)),
            forall|k: int|
                #![trigger lines@[k]]
                0 <= k < lines.len() ==> lines@[k].0 <= lines@[k].1 <= v.len() && v@.subrange(
                    lines@[k].0 as int,
                    lines@[k].1 as int,
                ) == all[k],
            pairs_view(env_vars@) == vars_of_lines(all.subrange(1, i as int)),
        decreases lines.len() - i,
    {
        let (a, b) = lines[i];
        let ghost line = all[i as int];
        assert(v@.subrange(a as int, b as int) == line);
        assert(all.subrange(1, i + 1) =~= all.subrange(1, i as int) + seq![line]);
        proof {
            lemma_vars_of_lines_concat(all.subrange(1, i as int), seq![line]);
            lemma_vars_of_one_line(line);
        }
        let ghost before = pairs_view(env_vars@);
        match find_char(&v, a, b, '=') {
            Some(k) => {
                let name = string_from(&v, a, a + k);
                let value = string_from(&v, a + k + 1, b);
                assert(line.take(k as int) =~= v@.subrange(a as int, a + k));
                assert(line.skip(k + 1) =~= v@.subrange(a + k + 1, b as int));
                env_vars.push((name, value));
                assert(pairs_view(env_vars@) =~= before.push((line.take(k as int), line.skip(k + 1))));
            },
            None => {},
        }
        assert(pairs_view(env_vars@) =~= vars_of_lines(all.subrange(1, i + 1)));
        i = i + 1;
    }
    assert(all.subrange(1, i as int) =~= all.drop_first());
    Request { kind, env_vars }
}


/// Whether `s` holds no `c`.
pub open spec fn lacks(s: Seq<char>, c: char) -> bool {
    forall|i: int| 0 <= i < s.len() ==> s[i] != c
}

/// The lines of variables, one for each.
pub open spec fn var_lines(vars: Seq<(Seq<char>, Seq<char>)>) -> Seq<Seq<char>> {
    vars.map_values(|p: (Seq<char>, Seq<char>)| var_line(p))
}

/// A variable that travels in a message unchanged: its name holds no `=`
/// and no line break, its value no line break and no final carriage return.
pub open spec fn var_travels(var: (Seq<char>, Seq<char>)) -> bool {
    &&& lacks(var.0, '=')
    &&& lacks(var.0, '\n')
    &&& lacks(var.1, '\n')
    &&& (var.1.len() > 0 ==> var.1.last() != '\r')
}

proof fn lemma_lines_after_break(a: Seq<char>, b: Seq<char>)
    requires
        lacks(a, '\n'),
    ensures
        lines_of(a + seq!['\n'] + b) == seq![strip_cr(a)] + lines_of(b),
{
    let m = a + seq!['\n'] + b;
    assert forall|k: int| 0 <= k < a.len() implies m[k] != '\n' by {
        assert(m[k] == a[k]);
    }
    lemma_index_of_at(m, '\n', a.len() as int);
    assert(m.take(a.len() as int) =~= a);
    assert(m.skip(a.len() + 1 as int) =~= b);
}

proof fn lemma_lines_single(a: Seq<char>)
    requires
        lacks(a, '\n'),
        a.len() > 0,
    ensures
        lines_of(a) == seq![a],
{
    lemma_index_of_at(a, '\n', a.len() as int);
}

proof fn lemma_var_line_travels(p: (Seq<char>, Seq<char>))
    requires
        var_travels(p),
    ensures
        lacks(var_line(p), '\n'),
        var_line(p).len() > 0,
        strip_cr(var_line(p)) == var_line(p),
        split_var(var_line(p)) == Some(p),
{
    let l = var_line(p);
    assert forall|i: int| 0 <= i < l.len() implies l[i] != '\n' by {
        if i < p.0.len() {
            assert(l[i] == p.0[i]);
        } else if i > p.0.len() {
            assert(l[i] == p.1[i - p.0.len() - 1]);
        }
    }
    if p.1.len() > 0 {
        assert(l.last() == p.1.last());
    } else {
        assert(l.last() == '=');
    }
    assert forall|k: int| 0 <= k < p.0.len() implies l[k] != '=' by {
        assert(l[k] == p.0[k]);
    }
    lemma_index_of_at(l, '=', p.0.len() as int);
    assert(l.take(p.0.len() as int) =~= p.0);
    assert(l.skip(p.0.len() + 1 as int) =~= p.1);
}

proof fn lemma_block_lines(vars: Seq<(Seq<char>, Seq<char>)>)
    requires
        vars.len() > 0,
        forall|i: int| 0 <= i < vars.len() ==> var_travels(#[trigger] vars[i]),
    ensures
        lines_of(var_block(vars)) == var_lines(vars),
        vars_of_lines(var_lines(vars)) == vars,
    decreases vars.len(),
{
    lemma_var_line_travels(vars[0]);
    let rest = vars.drop_first();
    assert(var_lines(vars) =~= seq![var_line(vars[0])] + var_lines(rest));
    lemma_vars_of_lines_concat(seq![var_line(vars[0])], var_lines(rest));
    lemma_vars_of_one_line(var_line(vars[0]));
    if vars.len() == 1 {
        lemma_lines_single(var_line(vars[0]));
        assert(var_lines(rest) =~= Seq::<Seq<char>>::empty());
        assert(vars_of_lines(var_lines(rest)) == Seq::<(Seq<char>, Seq<char>)>::empty());
        assert(seq![var_line(vars[0])] + Seq::<Seq<char>>::empty() =~= seq![var_line(vars[0])]);
        assert(seq![vars[0]] + Seq::<(Seq<char>, Seq<char>)>::empty() =~= vars);
    } else {
        assert forall|i: int| 0 <= i < rest.len() implies var_travels(#[trigger] rest[i]) by {
            assert(rest[i] == vars[i + 1]);
        }
        lemma_block_lines(rest);
        lemma_lines_after_break(var_line(vars[0]), var_block(rest));
        assert(seq![vars[0]] + rest =~= vars);
    }
}

proof fn lemma_block_last(vars: Seq<(Seq<char>, Seq<char>)>)
    requires
        vars.len() > 0,
    ensures
        var_block(vars).len() > 0,
        var_block(vars).last() == var_line(vars.last()).last(),
{
    let l = var_line(vars.last());
    assert(l.len() > 0);
    if vars.len() == 1 {
    } else {
        lemma_var_block_push(vars.drop_last(), vars.last());
        assert(vars.drop_last().push(vars.last()) =~= vars);
        let b = var_block(vars.drop_last()) + seq!['\n'];
        assert((b + l).last() == l.last());
    }
}

/// The daemon reads back what the client sends: the request, and the
/// client's `OX_` variables in order.  This holds when the request has no
/// line break, does not start with white space, does not end with white
/// space when no variable follows nor with a carriage return when one
/// does, and is empty only when no variable follows; when every variable's
/// name holds no `=` and no line break and its value no line break and no
/// final carriage return; and when the value of the last variable does not
/// end with white space.
pub proof fn request_message_round_trip(request: Seq<char>, env: Seq<(Seq<char>, Seq<char>)>)
    requires
        lacks(request, '\n'),
        request.len() == 0 ==> ox_vars(env).len() == 0,
        request.len() > 0 ==> !is_ws(request[0]),
        request.len() > 0 && ox_vars(env).len() == 0 ==> !is_ws(request.last()),
        request.len() > 0 && ox_vars(env).len() > 0 ==> request.last() != '\r',
        forall|i: int| 0 <= i < ox_vars(env).len() ==> var_travels(#[trigger] ox_vars(env)[i]),
        ox_vars(env).len() > 0 ==> (ox_vars(env).last().1.len() == 0 || !is_ws(
            ox_vars(env).last().1.last(),
        )),
    ensures
        request_kind_of(request_message_of(request, env)) == request,
        request_vars_of(request_message_of(request, env)) == ox_vars(env),
{
    let ox = ox_vars(env);
    let m = request_message_of(request, env);
    if ox.len() == 0 {
        assert(var_block(ox) == Seq::<char>::empty());
        assert(m =~= request + seq!['\n']);
        if request.len() == 0 {
            assert(trim_start(m.drop_first()) == Seq::<char>::empty());
            assert(trim_start(m) == Seq::<char>::empty());
            assert(trim_end(Seq::<char>::empty()) == Seq::<char>::empty());
            assert(lines_of(Seq::<char>::empty()) == Seq::<Seq<char>>::empty());
        } else {
            assert(m[0] == request[0]);
            assert(trim_start(m) == m);
            assert(m.drop_last() =~= request);
            assert(trim_end(request) == request);
            assert(trim_end(m) == request);
            lemma_lines_single(request);
            assert(message_lines(m).drop_first() =~= Seq::<Seq<char>>::empty());
            assert(vars_of_lines(message_lines(m).drop_first()) == Seq::<
                (Seq<char>, Seq<char>),
            >::empty());
        }
    } else {
        lemma_block_last(ox);
        lemma_block_lines(ox);
        let last = ox.last();
        assert(var_travels(ox[ox.len() - 1]));
        if last.1.len() > 0 {
            assert(var_line(last).last() == last.1.last());
        } else {
            assert(var_line(last).last() == '=');
        }
        assert(m.last() == var_block(ox).last());
        assert(m[0] == request[0]);
        assert(trim_start(m) == m);
        assert(trim_end(m) == m);
        lemma_lines_after_break(request, var_block(ox));
        assert(strip_cr(request) == request);
        let ls = message_lines(m);
        assert(ls =~= seq![request] + var_lines(ox));
        assert(ls.drop_first() =~= var_lines(ox));
    }
}

/// Whether `line` stands in `text` from position `k` on a line of its own.
pub open spec fn line_at(text: Seq<char>, line: Seq<char>, k: int) -> bool {
    &&& 0 <= k
    &&& k + line.len() <= text.len()
    &&& text.subrange(k, k + line.len()) == line
    &&& (k == 0 || text[k - 1] == '\n')
    &&& (k + line.len() == text.len() || text[k + line.len()] == '\n')
}

proof fn lemma_ox_vars_member(env: Seq<(Seq<char>, Seq<char>)>, i: int)
    requires
        0 <= i < env.len(),
        has_prefix(env[i].0, "OX_"@),
    ensures
        exists|j: int| 0 <= j < ox_vars(env).len() && ox_vars(env)[j] == env[i],
    decreases env.len(),
{
    let h = if is_ox_name(env[0].0) {
        seq![env[0]]
    } else {
        Seq::<(Seq<char>, Seq<char>)>::empty()
    };
    assert(ox_vars(env) == h + ox_vars(env.drop_first()));
    if i == 0 {
        assert(ox_vars(env)[0] == env[0]);
    } else {
        assert(env.drop_first()[i - 1] == env[i]);
        lemma_ox_vars_member(env.drop_first(), i - 1);
        let j = choose|j: int|
            0 <= j < ox_vars(env.drop_first()).len() && ox_vars(env.drop_first())[j] == env[i];
        assert(ox_vars(env)[h.len() + j] == env[i]);
    }
}

proof fn lemma_var_block_line(vars: Seq<(Seq<char>, Seq<char>)>, j: int)
    requires
        0 <= j < vars.len(),
    ensures
        exists|k: int| line_at(var_block(vars), var_line(vars[j]), k),
    decreases vars.len(),
{
    let b = var_block(vars);
    let l0 = var_line(vars[0]);
    if vars.len() == 1 {
        assert(b == l0);
        assert(b.subrange(0, l0.len() as int) =~= l0);
        assert(line_at(b, var_line(vars[j]), 0));
    } else {
        let rest = vars.drop_first();
        let rb = var_block(rest);
        assert(b == l0 + seq!['\n'] + rb);
        if j == 0 {
            assert(b.subrange(0, l0.len() as int) =~= l0);
            assert(b[l0.len() as int] == '\n');
            assert(line_at(b, var_line(vars[j]), 0));
        } else {
            assert(rest[j - 1] == vars[j]);
            lemma_var_block_line(rest, j - 1);
            let k = choose|k: int| line_at(rb, var_line(vars[j]), k);
            let line = var_line(vars[j]);
            let off = l0.len() + 1;
            let kk = off + k;
            assert(b.subrange(kk, kk + line.len()) =~= rb.subrange(k, k + line.len()));
            assert(b[kk - 1] == '\n') by {
                if k == 0 {
                    assert(b[kk - 1] == (l0 + seq!['\n'])[l0.len() as int]);
                } else {
                    assert(b[kk - 1] == rb[k - 1]);
                }
            }
            if kk + line.len() < b.len() {
                assert(b[kk + line.len()] == rb[k + line.len()]);
            }
            assert(line_at(b, line, kk));
        }
    }
}

/// Every variable of the environment whose name starts with `OX_` is passed
/// on: its line `NAME=VALUE` stands in the message on a line of its own.
pub proof fn request_message_passes_ox_vars(
    request: Seq<char>,
    env: Seq<(Seq<char>, Seq<char>)>,
    i: int,
)
    requires
        0 <= i < env.len(),
        has_prefix(env[i].0, "OX_"@),
    ensures
        exists|k: int|
            line_at(request_message_of(request, env), env[i].0 + seq!['='] + env[i].1, k),
{
    let ox = ox_vars(env);
    lemma_ox_vars_member(env, i);
    let j = choose|j: int| 0 <= j < ox.len() && ox[j] == env[i];
    lemma_var_block_line(ox, j);
    let line = var_line(ox[j]);
    let b = var_block(ox);
    let k = choose|k: int| line_at(b, line, k);
    let m = request_message_of(request, env);
    let off = request.len() + 1;
    let kk = off + k;
    assert(m == request + seq!['\n'] + b);
    assert(m.subrange(kk, kk + line.len()) =~= b.subrange(k, k + line.len()));
    assert(m[kk - 1] == '\n') by {
        if k == 0 {
            assert(m[kk - 1] == (request + seq!['\n'])[request.len() as int]);
        } else {
            assert(m[kk - 1] == b[k - 1]);
        }
    }
    if kk + line.len() < m.len() {
        assert(m[kk + line.len()] == b[k + line.len()]);
    }
    assert(line == env[i].0 + seq!['='] + env[i].1);
    assert(line_at(m, env[i].0 + seq!['='] + env[i].1, kk));
}

/// Only `OX_` variables of the environment are passed on: each variable in
/// the message's lines has a name starting with `OX_` and is a pair of the
/// environment.
pub proof fn request_message_only_ox_vars(env: Seq<(Seq<char>, Seq<char>)>)
    ensures
        forall|j: int|
            0 <= j < ox_vars(env).len() ==> has_prefix(#[trigger] ox_vars(env)[j].0, "OX_"@)
                && env.contains(ox_vars(env)[j]),
    decreases env.len(),
{
    if env.len() > 0 {
        request_message_only_ox_vars(env.drop_first());
        let h = if is_ox_name(env[0].0) {
            seq![env[0]]
        } else {
            Seq::<(Seq<char>, Seq<char>)>::empty()
        };
        let r = ox_vars(env.drop_first());
        assert(ox_vars(env) == h + r);
        assert forall|j: int| 0 <= j < ox_vars(env).len() implies has_prefix(
            #[trigger] ox_vars(env)[j].0,
            "OX_"@,
        ) && env.contains(ox_vars(env)[j]) by {
            if j < h.len() {
                assert(ox_vars(env)[j] == env[0]);
            } else {
                assert(ox_vars(env)[j] == r[j - h.len()]);
                let x = r[j - h.len()];
                assert(has_prefix(r[j - h.len()].0, "OX_"@));
                assert(env.drop_first().contains(x));
                let t = choose|t: int| 0 <= t < env.drop_first().len() && env.drop_first()[t] == x;
                assert(env[t + 1] == x);
            }
        }
    }
}

} // verus!
