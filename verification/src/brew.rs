//! Reading `HOMEBREW_*` assignments out of `brew environment` output.
use vstd::prelude::*;

use crate::text::{
    is_whitespace, trim_end_char, trim_start_char,
    chars_of, from_chars, has_prefix, has_prefix_chars, index_of_char, index_of_char_from,
    lemma_index_of_char, lemma_index_of_char_unique, slice_chars, trim_char, trim_char_chars, trim_chars, trim_ws,
};

verus! {

/// The characters of each string of each pair.
pub open spec fn pairs_view(v: Seq<(String, String)>) -> Seq<(Seq<char>, Seq<char>)> {
    v.map_values(|p: (String, String)| (p.0@, p.1@))
}

/// The assignment that one output line holds, if it is a Homebrew one: the
/// line is trimmed, an `export ` prefix is dropped, the text is split at the
/// first `=`, the name must start with `HOMEBREW_`, and the value is
/// trimmed and stripped of surrounding double then single quotes.
pub open spec fn brew_line(l: Seq<char>) -> Option<(Seq<char>, Seq<char>)> {
    let t = trim_ws(l);
    let u = if has_prefix(t, "export "@) {
        t.skip("export "@.len() as int)
    } else {
        t
    };
    let k = index_of_char(u, '=');
    if k < u.len() && has_prefix(u.take(k), "HOMEBREW_"@) {
        Some((u.take(k), trim_char(trim_char(trim_ws(u.skip(k + 1)), '"'), '\'')))
    } else {
        None
    }
}

/// The Homebrew assignments of `s`, line by line, in order.
pub open spec fn brew_pairs(s: Seq<char>) -> Seq<(Seq<char>, Seq<char>)>
    decreases s.len(),
{
    let k = index_of_char(s, '\n');
    let first = match brew_line(s.take(k)) {
        Some(p) => seq![p],
        None => Seq::empty(),
    };
    if 0 <= k < s.len() {
        first + brew_pairs(s.skip(k + 1))
    } else {
        first
    }
}

fn brew_line_exec(line: &Vec<char>) -> (r: Option<(String, String)>)
    ensures
        match brew_line(line@) {
            Some((k, v)) => r matches Some((rk, rv)) && rk@ == k && rv@ == v,
            None => r is None,
        },
{
    let t = trim_chars(line);
    let ex = chars_of("export ");
    let u = if has_prefix_chars(&t, &ex) {
        slice_chars(&t, ex.len(), t.len())
    } else {
        t
    };
    assert(u@ == (if has_prefix(trim_ws(line@), "export "@) {
        trim_ws(line@).skip("export "@.len() as int)
    } else {
        trim_ws(line@)
    }));
    let k = index_of_char_from(&u, '=', 0);
    assert(u@.skip(0) == u@);
    proof {
        lemma_index_of_char(u@, '=');
    }
    if k < u.len() {
        let key = slice_chars(&u, 0, k);
        let hb = chars_of("HOMEBREW_");
        assert(key@ == u@.take(k as int));
        if has_prefix_chars(&key, &hb) {
            let raw = slice_chars(&u, k + 1, u.len());
            assert(raw@ == u@.skip(k + 1));
            let v1 = trim_chars(&raw);
            let v2 = trim_char_chars(&v1, '"');
            let v3 = trim_char_chars(&v2, '\'');
            return Some((from_chars(&key), from_chars(&v3)));
        }
    }
    None
}

/// The `HOMEBREW_*` assignments in brew's environment output, in order.
/// Accepts `export VAR="value"`, `export VAR=value` and bare `VAR=value`,
/// stripping surrounding quotes; other lines are ignored.
pub fn parse_brew_env(output: &str) -> (pairs: Vec<(String, String)>)
    ensures
        pairs_view(pairs@) == brew_pairs(output@),
{
    let s = chars_of(output);
    let mut pairs: Vec<(String, String)> = Vec::new();
    let mut pos: usize = 0;
    assert(s@.skip(0) == s@);
    assert(pairs_view(pairs@) == Seq::<(Seq<char>, Seq<char>)>::empty());
    loop
        invariant
            pos <= s@.len(),
            s@ == output@,
            pairs_view(pairs@) + brew_pairs(s@.skip(pos as int)) == brew_pairs(s@),
        decreases s@.len() - pos,
    {
        let k = index_of_char_from(&s, '\n', pos);
        let ghost rest = s@.skip(pos as int);
        proof {
            lemma_index_of_char(rest, '\n');
        }
        let line = slice_chars(&s, pos, k);
        assert(line@ == rest.take(k - pos));
        let parsed = brew_line_exec(&line);
        let ghost first = match brew_line(rest.take(k - pos)) {
            Some(p) => seq![p],
            None => Seq::<(Seq<char>, Seq<char>)>::empty(),
        };
        let ghost old_pairs = pairs@;
        match parsed {
            Some(p) => {
                pairs.push(p);
            },
            None => {},
        }
        assert(pairs_view(pairs@) == pairs_view(old_pairs) + first);
        if k >= s.len() {
            assert(brew_pairs(rest) == first);
            assert(pairs_view(pairs@) == brew_pairs(s@));
            return pairs;
        }
        assert(rest.skip(k - pos + 1) == s@.skip(k + 1));
        assert(brew_pairs(rest) == first + brew_pairs(s@.skip(k + 1)));
        pos = k + 1;
    }
}

/// Lines are read independently: the assignments of two outputs joined by
/// a newline are those of the first followed by those of the second.
pub proof fn lemma_brew_pairs_concat(a: Seq<char>, b: Seq<char>)
    ensures
        brew_pairs(a + seq!['\n'] + b) == brew_pairs(a) + brew_pairs(b),
    decreases a.len(),
{
    let s = a + seq!['\n'] + b;
    let k = index_of_char(a, '\n');
    lemma_index_of_char(a, '\n');
    if k < a.len() {
        lemma_index_of_char_unique(s, '\n', k);
        assert(s.take(k) == a.take(k));
        assert(s.skip(k + 1) == a.skip(k + 1) + seq!['\n'] + b);
        lemma_brew_pairs_concat(a.skip(k + 1), b);
    } else {
        lemma_index_of_char_unique(s, '\n', a.len() as int);
        assert(s.take(a.len() as int) == a);
        assert(a.take(k) == a);
        assert(s.skip(a.len() + 1int) == b);
    }
}

/// A text that neither starts nor ends with whitespace is its own trim.
proof fn lemma_trim_ws_id(s: Seq<char>)
    requires
        s.len() > 0,
        !is_whitespace(s[0]),
        !is_whitespace(s.last()),
    ensures
        trim_ws(s) == s,
{
}

/// A text that neither starts nor ends with `c` is its own trim of `c`.
proof fn lemma_trim_char_id(v: Seq<char>, c: char)
    requires
        v.len() == 0 || (v[0] != c && v.last() != c),
    ensures
        trim_char(v, c) == v,
{
}

/// A text between two `q`s, that neither starts nor ends with `q`, is what
/// trimming `q` gives.
proof fn lemma_trim_char_quoted(v: Seq<char>, q: char)
    requires
        v.len() == 0 || (v[0] != q && v.last() != q),
    ensures
        trim_char(seq![q] + v + seq![q], q) == v,
{
    let w = seq![q] + v + seq![q];
    assert(w[0] == q);
    assert(w.drop_first() == v + seq![q]);
    assert(trim_start_char(w, q) == trim_start_char(v + seq![q], q));
    if v.len() == 0 {
        let one = v + seq![q];
        assert(one[0] == q);
        assert(one.drop_first() == Seq::<char>::empty());
        assert(trim_start_char(one, q) == trim_start_char(Seq::<char>::empty(), q));
        assert(trim_start_char(w, q) == Seq::<char>::empty());
    } else {
        assert((v + seq![q])[0] == v[0]);
        assert(trim_start_char(w, q) == v + seq![q]);
        assert((v + seq![q]).drop_last() == v);
        assert(trim_end_char(v + seq![q], q) == trim_end_char(v, q));
    }
}

/// The `export ` prefix does not change what a line says: a line and the
/// same line after `export ` give the same assignment, when the line has no
/// surrounding whitespace and does not itself start with `export `.
pub proof fn lemma_brew_line_export(l: Seq<char>)
    requires
        l.len() > 0,
        !is_whitespace(l[0]),
        !is_whitespace(l.last()),
        !has_prefix(l, "export "@),
    ensures
        brew_line("export "@ + l) == brew_line(l),
{
    reveal_strlit("export ");
    let e = "export "@ + l;
    lemma_trim_ws_id(l);
    assert(e[0] == 'e');
    assert(e.last() == l.last());
    lemma_trim_ws_id(e);
    assert(e.take(7) == "export "@);
    assert(e.skip(7) == l);
}

/// A Homebrew assignment with a double-quoted value gives the name and the
/// value without the quotes, whether or not it is exported: the name starts
/// with `HOMEBREW_` and holds no `=`, and the value neither starts nor ends
/// with a quote of either kind.
pub proof fn lemma_brew_line_quoted(k: Seq<char>, v: Seq<char>)
    requires
        has_prefix(k, "HOMEBREW_"@),
        forall|i: int| 0 <= i < k.len() ==> k[i] != '=',
        v.len() == 0 || (v[0] != '"' && v.last() != '"' && v[0] != '\'' && v.last() != '\''),
    ensures
        brew_line(k + "=\""@ + v + "\""@) == Some((k, v)),
        brew_line("export "@ + k + "=\""@ + v + "\""@) == Some((k, v)),
{
    reveal_strlit("HOMEBREW_");
    reveal_strlit("=\"");
    reveal_strlit("\"");
    reveal_strlit("export ");
    let l = k + "=\""@ + v + "\""@;
    assert(k.take(9) == "HOMEBREW_"@);
    assert(k.take(9)[0] == k[0]);
    assert(l[0] == k[0]);
    assert(k[0] == 'H');
    assert(l.last() == '"');
    lemma_trim_ws_id(l);
    assert(!has_prefix(l, "export "@)) by {
        if has_prefix(l, "export "@) {
            assert(l.take(7)[0] == l[0]);
        }
    }
    assert(l[k.len() as int] == '=');
    lemma_index_of_char_unique(l, '=', k.len() as int);
    assert(l.take(k.len() as int) == k);
    let rest = l.skip(k.len() + 1int);
    assert(rest == seq!['"'] + v + seq!['"']);
    assert(rest[0] == '"');
    lemma_trim_ws_id(rest);
    lemma_trim_char_quoted(v, '"');
    lemma_trim_char_id(v, '\'');
    lemma_brew_line_export(l);
    assert("export "@ + k + "=\""@ + v + "\""@ == "export "@ + l);
}

} // verus!
