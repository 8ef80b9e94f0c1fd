//! Properties of the command-line grammar of `parser`.

use vstd::prelude::*;
use crate::text::{all_ws, count_char, is_ws, split_on, words};
use crate::builtins::{builtin_spec, ExecMode};
use crate::parser::{
    ends_with_amp, parse_spec, read_words, segments_spec, simple_spec, CommandView, ParseError,
    SimpleCommandView,
};

verus! {

/// A non-empty run of characters none of which is whitespace.
pub open spec fn is_word(w: Seq<char>) -> bool {
    w.len() > 0 && forall|i: int| 0 <= i < w.len() ==> !is_ws(#[trigger] w[i])
}

pub open spec fn opt_is_word(o: Option<Seq<char>>) -> bool {
    match o {
        Some(w) => is_word(w),
        None => true,
    }
}

/// Every name in the command is a word.
pub open spec fn command_of_words(c: SimpleCommandView) -> bool {
    &&& is_word(c.program)
    &&& forall|i: int| 0 <= i < c.args.len() ==> is_word(#[trigger] c.args[i])
    &&& opt_is_word(c.redirect_in)
    &&& opt_is_word(c.redirect_out)
    &&& opt_is_word(c.append_out)
}

proof fn lemma_split_len(s: Seq<char>, sep: char)
    ensures
        split_on(s, sep).len() == count_char(s, sep) + 1,
    decreases s.len(),
{
    if s.len() > 0 {
        lemma_split_len(s.drop_last(), sep);
    }
}

proof fn lemma_segments_len(segs: Seq<Seq<char>>)
    ensures
        segments_spec(segs) matches Ok(cs) ==> cs.len() == segs.len(),
    decreases segs.len(),
{
    if segs.len() > 0 {
        lemma_segments_len(segs.drop_last());
    }
}

/// A line is parsed as a single command exactly when it holds no `|`,
/// and as a pipeline of one command more than it holds `|` otherwise.
pub proof fn lemma_parse_pipeline_count(s: Seq<char>)
    ensures
        parse_spec(s) matches Ok(CommandView::Simple(_)) ==> count_char(s, '|') == 0,
        parse_spec(s) matches Ok(CommandView::Pipeline(cs)) ==> cs.len() == count_char(s, '|') + 1
            && cs.len() >= 2,
{
    lemma_split_len(s, '|');
    lemma_segments_len(split_on(s, '|'));
}

proof fn lemma_words_are_words(s: Seq<char>)
    ensures
        forall|k: int| 0 <= k < words(s).len() ==> is_word(#[trigger] words(s)[k]),
        s.len() > 0 && !is_ws(s.last()) ==> words(s).len() > 0,
    decreases s.len(),
{
    if s.len() > 0 {
        let d = s.drop_last();
        lemma_words_are_words(d);
        let w = words(d);
        let c = s.last();
        if is_ws(c) {
        } else if s.len() > 1 && !is_ws(s[s.len() - 2]) {
            assert(d.last() == s[s.len() - 2]);
            let nw = w.last().push(c);
            assert(is_word(nw)) by {
                assert(is_word(w[w.len() - 1]));
                assert forall|i: int| 0 <= i < nw.len() implies !is_ws(#[trigger] nw[i]) by {
                    if i < nw.len() - 1 {
                        assert(nw[i] == w.last()[i]);
                    }
                }
            }
            assert forall|k: int| 0 <= k < words(s).len() implies is_word(#[trigger] words(s)[k]) by {
                if k < w.len() - 1 {
                    assert(words(s)[k] == w[k]);
                }
            }
        } else {
            assert(is_word(seq![c]));
            assert forall|k: int| 0 <= k < words(s).len() implies is_word(#[trigger] words(s)[k]) by {
                if k < w.len() {
                    assert(words(s)[k] == w[k]);
                }
            }
        }
    }
}

proof fn lemma_read_words(ws: Seq<Seq<char>>)
    requires
        forall|k: int| 0 <= k < ws.len() ==> is_word(#[trigger] ws[k]),
    ensures
        opt_is_word(read_words(ws).program),
        forall|i: int| 0 <= i < read_words(ws).args.len() ==> is_word(#[trigger] read_words(ws).args[i]),
        opt_is_word(read_words(ws).redirect_in),
        opt_is_word(read_words(ws).redirect_out),
        opt_is_word(read_words(ws).append_out),
    decreases ws.len(),
{
    if ws.len() > 0 {
        let d = ws.drop_last();
        assert forall|k: int| 0 <= k < d.len() implies is_word(#[trigger] d[k]) by {
            assert(d[k] == ws[k]);
        }
        lemma_read_words(d);
        assert(is_word(ws[ws.len() - 1]));
        let st = read_words(d);
        let st2 = read_words(ws);
        assert forall|i: int| 0 <= i < st2.args.len() implies is_word(#[trigger] st2.args[i]) by {
            if i < st.args.len() {
                assert(st2.args[i] == st.args[i]);
            }
        }
    }
}

proof fn lemma_simple_words(ws: Seq<Seq<char>>)
    requires
        forall|k: int| 0 <= k < ws.len() ==> is_word(#[trigger] ws[k]),
    ensures
        simple_spec(ws) matches Ok(c) ==> command_of_words(c),
{
    if ws.len() > 0 && ws.last() == seq!['&'] {
        let d = ws.drop_last();
        assert forall|k: int| 0 <= k < d.len() implies is_word(#[trigger] d[k]) by {
            assert(d[k] == ws[k]);
        }
        lemma_read_words(d);
    } else {
        lemma_read_words(ws);
    }
}

proof fn lemma_segments_words(segs: Seq<Seq<char>>)
    ensures
        segments_spec(segs) matches Ok(cs) ==> forall|i: int| 0 <= i < cs.len() ==> command_of_words(
            #[trigger] cs[i],
        ),
    decreases segs.len(),
{
    if segs.len() > 0 {
        lemma_segments_words(segs.drop_last());
        lemma_words_are_words(segs.last());
        lemma_simple_words(words(segs.last()));
        if let Ok(cs) = segments_spec(segs) {
            let prev = segments_spec(segs.drop_last())->Ok_0;
            assert forall|i: int| 0 <= i < cs.len() implies command_of_words(#[trigger] cs[i]) by {
                if i < prev.len() {
                    assert(cs[i] == prev[i]);
                }
            }
        }
    }
}

/// Every program name, argument and file name of a parsed line is a
/// non-empty word without whitespace.
pub proof fn lemma_parse_words(s: Seq<char>)
    ensures
        parse_spec(s) matches Ok(CommandView::Simple(c)) ==> command_of_words(c),
        parse_spec(s) matches Ok(CommandView::Pipeline(cs)) ==> forall|i: int|
            0 <= i < cs.len() ==> command_of_words(#[trigger] cs[i]),
{
    lemma_segments_words(split_on(s, '|'));
}

proof fn lemma_words_blank(p: Seq<char>)
    requires
        all_ws(p),
    ensures
        words(p) == Seq::<Seq<char>>::empty(),
    decreases p.len(),
{
    if p.len() > 0 {
        assert(all_ws(p.drop_last())) by {
            assert forall|i: int| 0 <= i < p.drop_last().len() implies is_ws(#[trigger] p.drop_last()[i]) by {
                assert(p.drop_last()[i] == p[i]);
            }
        }
        lemma_words_blank(p.drop_last());
        assert(is_ws(p[p.len() - 1]));
    }
}

proof fn lemma_words_ws_prefix(p: Seq<char>, x: Seq<char>)
    requires
        all_ws(p),
    ensures
        words(p + x) == words(x),
    decreases x.len(),
{
    if x.len() == 0 {
        assert(p + x == p);
        lemma_words_blank(p);
    } else {
        let y = p + x;
        assert(y.drop_last() == p + x.drop_last());
        lemma_words_ws_prefix(p, x.drop_last());
        assert(y.last() == x.last());
        if x.len() > 1 {
            assert(y[y.len() - 2] == x[x.len() - 2]);
        } else if y.len() > 1 {
            assert(y[y.len() - 2] == p[p.len() - 1]);
        }
    }
}

proof fn lemma_words_ws_suffix(x: Seq<char>, q: Seq<char>)
    requires
        all_ws(q),
    ensures
        words(x + q) == words(x),
    decreases q.len(),
{
    if q.len() == 0 {
        assert(x + q == x);
    } else {
        let d = q.drop_last();
        assert(all_ws(d)) by {
            assert forall|i: int| 0 <= i < d.len() implies is_ws(#[trigger] d[i]) by {
                assert(d[i] == q[i]);
            }
        }
        assert((x + q).drop_last() == x + d);
        assert(is_ws(q[q.len() - 1]));
        lemma_words_ws_suffix(x, d);
    }
}

proof fn lemma_all_ws_concat(a: Seq<char>, b: Seq<char>)
    ensures
        all_ws(a + b) <==> (all_ws(a) && all_ws(b)),
{
    if all_ws(a + b) {
        assert forall|i: int| 0 <= i < a.len() implies is_ws(#[trigger] a[i]) by {
            assert((a + b)[i] == a[i]);
        }
        assert forall|i: int| 0 <= i < b.len() implies is_ws(#[trigger] b[i]) by {
            assert((a + b)[a.len() + i] == b[i]);
        }
    }
    if all_ws(a) && all_ws(b) {
        assert forall|i: int| 0 <= i < (a + b).len() implies is_ws(#[trigger] (a + b)[i]) by {
            if i < a.len() {
                assert((a + b)[i] == a[i]);
            } else {
                assert((a + b)[i] == b[i - a.len()]);
            }
        }
    }
}

proof fn lemma_split_blank(p: Seq<char>)
    requires
        all_ws(p),
    ensures
        split_on(p, '|') == seq![p],
    decreases p.len(),
{
    if p.len() > 0 {
        let d = p.drop_last();
        assert(all_ws(d)) by {
            assert forall|i: int| 0 <= i < d.len() implies is_ws(#[trigger] d[i]) by {
                assert(d[i] == p[i]);
            }
        }
        lemma_split_blank(d);
        assert(is_ws(p[p.len() - 1]));
        assert(d.push(p.last()) == p);
    } else {
        assert(p == Seq::<char>::empty());
    }
}

proof fn lemma_split_prefix(p: Seq<char>, t: Seq<char>)
    requires
        all_ws(p),
    ensures
        split_on(p + t, '|') == split_on(t, '|').update(0, p + split_on(t, '|')[0]),
        split_on(t, '|').len() >= 1,
    decreases t.len(),
{
    if t.len() == 0 {
        assert(p + t == p);
        lemma_split_blank(p);
        assert(p + Seq::<char>::empty() == p);
        assert(seq![p] == seq![Seq::<char>::empty()].update(0, p));
    } else {
        let d = t.drop_last();
        lemma_split_prefix(p, d);
        assert((p + t).drop_last() == p + d);
        assert((p + t).last() == t.last());
        let sd = split_on(d, '|');
        if t.last() != '|' && sd.len() == 1 {
            assert(p + sd[0].push(t.last()) == (p + sd[0]).push(t.last()));
        }
    }
}

proof fn lemma_split_suffix(t: Seq<char>, q: Seq<char>)
    requires
        all_ws(q),
    ensures
        split_on(t + q, '|') == split_on(t, '|').update(
            split_on(t, '|').len() - 1,
            split_on(t, '|').last() + q,
        ),
        split_on(t, '|').len() >= 1,
    decreases q.len(),
{
    lemma_split_len(t, '|');
    if q.len() == 0 {
        assert(t + q == t);
        assert(split_on(t, '|').last() + q == split_on(t, '|').last());
        assert(split_on(t, '|').update(split_on(t, '|').len() - 1, split_on(t, '|').last())
            == split_on(t, '|'));
    } else {
        let d = q.drop_last();
        assert(all_ws(d)) by {
            assert forall|i: int| 0 <= i < d.len() implies is_ws(#[trigger] d[i]) by {
                assert(d[i] == q[i]);
            }
        }
        lemma_split_suffix(t, d);
        assert((t + q).drop_last() == t + d);
        assert((t + q).last() == q[q.len() - 1]);
        assert(is_ws(q[q.len() - 1]));
        let st = split_on(t, '|');
        assert((st.last() + d).push(q.last()) == st.last() + q);
    }
}

proof fn lemma_segments_same_words(a: Seq<Seq<char>>, b: Seq<Seq<char>>)
    requires
        a.len() == b.len(),
        forall|i: int| 0 <= i < a.len() ==> words(#[trigger] a[i]) == words(b[i]),
    ensures
        segments_spec(a) == segments_spec(b),
    decreases a.len(),
{
    if a.len() > 0 {
        assert forall|i: int| 0 <= i < a.drop_last().len() implies words(#[trigger] a.drop_last()[i])
            == words(b.drop_last()[i]) by {
            assert(a.drop_last()[i] == a[i] && b.drop_last()[i] == b[i]);
        }
        lemma_segments_same_words(a.drop_last(), b.drop_last());
        assert(words(a[a.len() - 1]) == words(b[b.len() - 1]));
    }
}

/// Whitespace before and after a line does not change how it is parsed
/// (the line is trimmed first).
pub proof fn lemma_parse_ignores_outer_ws(p: Seq<char>, s: Seq<char>, q: Seq<char>)
    requires
        all_ws(p),
        all_ws(q),
    ensures
        parse_spec(p + s + q) == parse_spec(s),
{
    let t = p + s + q;
    lemma_all_ws_concat(p, s);
    lemma_all_ws_concat(p + s, q);
    lemma_split_prefix(p, s);
    lemma_split_suffix(p + s, q);
    let a = split_on(s, '|');
    let mid = split_on(p + s, '|');
    let b = split_on(t, '|');
    assert(b.len() == a.len());
    assert forall|i: int| 0 <= i < a.len() implies words(#[trigger] b[i]) == words(a[i]) && (all_ws(b[i])
        <==> all_ws(a[i])) by {
        if i == 0 {
            lemma_words_ws_prefix(p, a[0]);
            lemma_all_ws_concat(p, a[0]);
        }
        if i == a.len() - 1 {
            lemma_words_ws_suffix(mid[i], q);
            lemma_all_ws_concat(mid[i], q);
        }
        if i == 0 && i == a.len() - 1 {
            assert(b[i] == mid[i] + q);
            assert(mid[i] == p + a[i]);
        } else if i == 0 {
            assert(b[i] == mid[i]);
        } else if i == a.len() - 1 {
            assert(mid[i] == a[i]);
        } else {
            assert(b[i] == a[i]);
        }
    }
    lemma_segments_same_words(b, a);
    if exists|i: int| 0 <= i < a.len() && all_ws(#[trigger] a[i]) {
        let i = choose|i: int| 0 <= i < a.len() && all_ws(#[trigger] a[i]);
        assert(all_ws(b[i]));
    }
    if exists|i: int| 0 <= i < b.len() && all_ws(#[trigger] b[i]) {
        let i = choose|i: int| 0 <= i < b.len() && all_ws(#[trigger] b[i]);
        assert(all_ws(a[i]));
    }
}

/// Whitespace before and after a line does not change which builtin it
/// names, nor its arguments.
pub proof fn lemma_builtin_ignores_outer_ws(p: Seq<char>, s: Seq<char>, q: Seq<char>, mode: ExecMode)
    requires
        all_ws(p),
        all_ws(q),
    ensures
        builtin_spec(words(p + s + q), mode) == builtin_spec(words(s), mode),
{
    lemma_words_ws_suffix(p + s, q);
    lemma_words_ws_prefix(p, s);
}

proof fn lemma_words_nonempty(x: Seq<char>, i: int)
    requires
        0 <= i < x.len(),
        !is_ws(x[i]),
    ensures
        words(x).len() > 0,
    decreases x.len(),
{
    if i == x.len() - 1 {
        lemma_words_are_words(x);
    } else {
        let d = x.drop_last();
        assert(d[i] == x[i]);
        lemma_words_nonempty(d, i);
    }
}

/// A piece is blank exactly when it has no words.
proof fn lemma_blank_iff_no_words(x: Seq<char>)
    ensures
        all_ws(x) <==> words(x).len() == 0,
{
    if all_ws(x) {
        lemma_words_blank(x);
    } else {
        let i = choose|i: int| 0 <= i < x.len() && !is_ws(#[trigger] x[i]);
        lemma_words_nonempty(x, i);
    }
}

proof fn lemma_split_single(s: Seq<char>)
    requires
        count_char(s, '|') == 0,
    ensures
        split_on(s, '|') == seq![s],
    decreases s.len(),
{
    if s.len() > 0 {
        lemma_split_single(s.drop_last());
        assert(s.drop_last().push(s.last()) == s);
    } else {
        assert(s == Seq::<char>::empty());
    }
}

/// A line is blank exactly when it is one blank piece.
proof fn lemma_blank_line(s: Seq<char>)
    ensures
        all_ws(s) <==> (split_on(s, '|').len() == 1 && all_ws(split_on(s, '|')[0])),
{
    lemma_split_len(s, '|');
    if all_ws(s) {
        lemma_split_blank(s);
    }
    if split_on(s, '|').len() == 1 {
        lemma_split_single(s);
    }
}

/// How a line is parsed depends only on the words of each of its
/// `|`-separated pieces: two lines with as many pieces, and the same words
/// in corresponding pieces, are parsed alike.
pub proof fn lemma_parse_depends_on_segment_words(s: Seq<char>, t: Seq<char>)
    requires
        split_on(s, '|').len() == split_on(t, '|').len(),
        forall|i: int| 0 <= i < split_on(s, '|').len() ==> words(#[trigger] split_on(s, '|')[i]) == words(
            split_on(t, '|')[i],
        ),
    ensures
        parse_spec(s) == parse_spec(t),
{
    let a = split_on(s, '|');
    let b = split_on(t, '|');
    assert forall|i: int| 0 <= i < a.len() implies (all_ws(#[trigger] a[i]) <==> all_ws(b[i])) by {
        lemma_blank_iff_no_words(a[i]);
        lemma_blank_iff_no_words(b[i]);
        assert(words(a[i]) == words(b[i]));
    }
    lemma_blank_line(s);
    lemma_blank_line(t);
    if a.len() == 1 {
        assert(all_ws(a[0]) <==> all_ws(b[0]));
    }
    lemma_segments_same_words(a, b);
    if exists|i: int| 0 <= i < a.len() && all_ws(#[trigger] a[i]) {
        let i = choose|i: int| 0 <= i < a.len() && all_ws(#[trigger] a[i]);
        assert(all_ws(b[i]));
    }
    if exists|i: int| 0 <= i < b.len() && all_ws(#[trigger] b[i]) {
        let i = choose|i: int| 0 <= i < b.len() && all_ws(#[trigger] b[i]);
        assert(all_ws(a[i]));
    }
}

/// The words joined back together.
pub open spec fn concat_all(ws: Seq<Seq<char>>) -> Seq<char>
    decreases ws.len(),
{
    if ws.len() == 0 {
        Seq::empty()
    } else {
        concat_all(ws.drop_last()) + ws.last()
    }
}

/// The characters of `s` that are not whitespace, in order.
pub open spec fn non_ws_chars(s: Seq<char>) -> Seq<char>
    decreases s.len(),
{
    if s.len() == 0 {
        Seq::empty()
    } else {
        non_ws_chars(s.drop_last()) + if is_ws(s.last()) { Seq::empty() } else { seq![s.last()] }
    }
}

/// The pieces joined back together with `sep` between them.
pub open spec fn join_on(ps: Seq<Seq<char>>, sep: char) -> Seq<char>
    decreases ps.len(),
{
    if ps.len() == 0 {
        Seq::empty()
    } else if ps.len() == 1 {
        ps[0]
    } else {
        join_on(ps.drop_last(), sep) + seq![sep] + ps.last()
    }
}

/// The words of a line, put back together, are exactly its characters
/// other than whitespace, in order: no character is lost, added or moved.
pub proof fn lemma_words_join(s: Seq<char>)
    ensures
        concat_all(words(s)) == non_ws_chars(s),
    decreases s.len(),
{
    if s.len() > 0 {
        let d = s.drop_last();
        lemma_words_join(d);
        lemma_words_are_words(d);
        let w = words(d);
        let c = s.last();
        if is_ws(c) {
            assert(non_ws_chars(s) == non_ws_chars(d) + Seq::<char>::empty());
        } else if s.len() > 1 && !is_ws(s[s.len() - 2]) {
            assert(d.last() == s[s.len() - 2]);
            let u = w.update(w.len() - 1, w.last().push(c));
            assert(u.drop_last() == w.drop_last());
            assert(u.last() == w.last().push(c));
            assert(concat_all(u) == concat_all(w.drop_last()) + w.last().push(c));
            assert(concat_all(w) == concat_all(w.drop_last()) + w.last());
            assert(concat_all(w.drop_last()) + w.last().push(c) == (concat_all(w.drop_last()) + w.last()) + seq![c]);
        } else {
            assert(w.push(seq![c]).drop_last() == w);
        }
    }
}

/// The pieces of a line between `sep`s, joined back with `sep`, give the
/// line again, and no piece holds `sep`.
pub proof fn lemma_split_join(s: Seq<char>, sep: char)
    ensures
        join_on(split_on(s, sep), sep) == s,
        forall|i: int, k: int| 0 <= i < split_on(s, sep).len() && 0 <= k < split_on(s, sep)[i].len() ==> (
        #[trigger] split_on(s, sep)[i][k]) != sep,
    decreases s.len(),
{
    lemma_split_len(s, sep);
    if s.len() == 0 {
        assert(join_on(seq![Seq::<char>::empty()], sep) == Seq::<char>::empty());
    } else {
        let d = s.drop_last();
        let c = s.last();
        lemma_split_join(d, sep);
        lemma_split_len(d, sep);
        let p = split_on(d, sep);
        if c == sep {
            let q = p.push(Seq::<char>::empty());
            assert(q.drop_last() == p);
            assert(join_on(q, sep) == join_on(p, sep) + seq![sep] + Seq::<char>::empty());
            assert(d.push(c) == s);
            assert forall|i: int, k: int| 0 <= i < q.len() && 0 <= k < q[i].len() implies (#[trigger] q[i][k]) != sep by {
                assert(q[i] == p[i]);
            }
        } else {
            let q = p.update(p.len() - 1, p.last().push(c));
            if p.len() == 1 {
                assert(join_on(q, sep) == q[0]);
                assert(join_on(p, sep) == p[0]);
            } else {
                assert(q.drop_last() == p.drop_last());
                assert(join_on(q, sep) == join_on(p.drop_last(), sep) + seq![sep] + p.last().push(c));
                assert(join_on(p.drop_last(), sep) + seq![sep] + p.last().push(c) == (join_on(p.drop_last(), sep)
                    + seq![sep] + p.last()).push(c));
            }
            assert(d.push(c) == s);
            assert forall|i: int, k: int| 0 <= i < q.len() && 0 <= k < q[i].len() implies (#[trigger] q[i][k]) != sep by {
                if i < p.len() - 1 {
                    assert(q[i] == p[i]);
                } else if k < p.last().len() {
                    assert(q[i][k] == p[p.len() - 1][k]);
                }
            }
        }
    }
}

/// A word that is none of the operators `<`, `>`, `>>`.
pub open spec fn plain_word(w: Seq<char>) -> bool {
    w != seq!['<'] && w != seq!['>'] && w != seq!['>', '>']
}

proof fn lemma_read_plain(ws: Seq<Seq<char>>)
    requires
        forall|k: int| 0 <= k < ws.len() ==> plain_word(#[trigger] ws[k]),
    ensures
        read_words(ws).pending is None,
        read_words(ws).redirect_in is None,
        read_words(ws).redirect_out is None,
        read_words(ws).append_out is None,
        ws.len() == 0 ==> read_words(ws).program is None,
        ws.len() > 0 ==> read_words(ws).program == Some(ws[0]) && read_words(ws).args == ws.drop_first(),
    decreases ws.len(),
{
    if ws.len() > 0 {
        let d = ws.drop_last();
        assert forall|k: int| 0 <= k < d.len() implies plain_word(#[trigger] d[k]) by {
            assert(d[k] == ws[k]);
        }
        lemma_read_plain(d);
        assert(plain_word(ws[ws.len() - 1]));
        if d.len() > 0 {
            assert(d[0] == ws[0]);
            assert(d.drop_first().push(ws.last()) == ws.drop_first());
        } else {
            assert(ws.drop_first() == Seq::<Seq<char>>::empty());
        }
    }
}

/// A command of plain words (no operator, no final `&`) is its first word
/// run with the others as arguments, with no redirection, in the foreground.
pub proof fn lemma_plain_command(ws: Seq<Seq<char>>)
    requires
        ws.len() > 0,
        forall|k: int| 0 <= k < ws.len() ==> plain_word(#[trigger] ws[k]),
        ws.last() != seq!['&'],
    ensures
        simple_spec(ws) == Ok::<SimpleCommandView, ParseError>(SimpleCommandView {
            program: ws[0],
            args: ws.drop_first(),
            redirect_in: None,
            redirect_out: None,
            append_out: None,
            background: false,
        }),
{
    lemma_read_plain(ws);
}

/// Adding an operator and a file name to a command sets that redirection
/// and changes nothing else: `< f` sets the input file, `> f` the file
/// written, `>> f` the file appended to. An operator with no file name
/// after it is refused.
pub proof fn lemma_add_redirect(ws: Seq<Seq<char>>, f: Seq<char>, c: SimpleCommandView)
    requires
        simple_spec(ws) == Ok::<SimpleCommandView, ParseError>(c),
        !ends_with_amp(ws),
        f != seq!['&'],
    ensures
        simple_spec(ws + seq![seq!['<'], f]) == Ok::<SimpleCommandView, ParseError>(
            SimpleCommandView { redirect_in: Some(f), ..c },
        ),
        simple_spec(ws + seq![seq!['>'], f]) == Ok::<SimpleCommandView, ParseError>(
            SimpleCommandView { redirect_out: Some(f), ..c },
        ),
        simple_spec(ws + seq![seq!['>', '>'], f]) == Ok::<SimpleCommandView, ParseError>(
            SimpleCommandView { append_out: Some(f), ..c },
        ),
        simple_spec(ws.push(seq!['<'])) == Err::<SimpleCommandView, ParseError>(ParseError::MissingRedirectTarget),
        simple_spec(ws.push(seq!['>'])) == Err::<SimpleCommandView, ParseError>(ParseError::MissingRedirectTarget),
        simple_spec(ws.push(seq!['>', '>'])) == Err::<SimpleCommandView, ParseError>(ParseError::MissingRedirectTarget),
{
    assert(seq!['<'] != seq!['&']) by {
        assert(seq!['<'][0] != seq!['&'][0]);
    }
    assert(seq!['>'] != seq!['&']) by {
        assert(seq!['>'][0] != seq!['&'][0]);
    }
    assert(seq!['>', '>'] != seq!['&']);
    assert(seq!['>'] != seq!['<']) by {
        assert(seq!['>'][0] != seq!['<'][0]);
    }
    assert(seq!['>', '>'] != seq!['<']);
    assert(seq!['>', '>'] != seq!['>']) by {
        assert(seq!['>', '>'].len() != seq!['>'].len());
    }
    let ops = seq![seq!['<'], seq!['>'], seq!['>', '>']];
    assert forall|j: int| 0 <= j < 3 implies ({
        let t = ws + seq![#[trigger] ops[j], f];
        &&& t.drop_last() == ws.push(ops[j])
        &&& ws.push(ops[j]).drop_last() == ws
        &&& t.last() == f
        &&& !ends_with_amp(t)
        &&& ends_with_amp(ws.push(ops[j])) == false
    }) by {
        let t = ws + seq![ops[j], f];
        assert(t.drop_last() == ws.push(ops[j]));
        assert(ws.push(ops[j]).drop_last() == ws);
    }
    assert(ops[0] == seq!['<'] && ops[1] == seq!['>'] && ops[2] == seq!['>', '>']);
}

/// A final `&` makes a command run in the background and changes nothing
/// else.
pub proof fn lemma_add_background(ws: Seq<Seq<char>>, c: SimpleCommandView)
    requires
        simple_spec(ws) == Ok::<SimpleCommandView, ParseError>(c),
        !ends_with_amp(ws),
    ensures
        simple_spec(ws.push(seq!['&'])) == Ok::<SimpleCommandView, ParseError>(
            SimpleCommandView { background: true, ..c },
        ),
{
    assert(ws.push(seq!['&']).drop_last() == ws);
}

} // verus!
