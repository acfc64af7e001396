//! Properties that hold of every input.

use vstd::prelude::*;
use crate::args::{
    raw_pieces, raw_run, raw_step, split_pieces, split_run, split_start, strip_trailing, tidy_decimal,
    SplitState,
};
use crate::convert::{answer_at, is_repaired, repairs_upto};
use crate::emit::{id_text, join, opening_lines, record_body, record_line, replacement, zero_text, GeomV};
use crate::plan::{
    host_index_from, host_insert, hosts_upto, id_number, lemma_host_index_from, max_id, max_id_from,
    opening_hosts,
};
use crate::scan::{
    closes_at, digits_end, find_close, lemma_digits_end, lemma_find_close, lemma_record_at, lemma_records_in_order,
    record_at, records, records_from, refs, refs_from, spans_in_order, type_name_end, Span,
};
use crate::splice::{prev_end, replacement_for, spliced, spliced_upto};
use crate::source::CandV;
use crate::table::{lookup, Rec};
use crate::text::{
    decimal, digit_char, spec_is_decimal_digit, spec_is_type_char, digits_value, is_ascii_digit, unsigned_digits,
    lemma_skip_white_space, lemma_trailing_white_space, skip_white_space, spec_is_white_space,
    trailing_white_space_start, trim,
};

verus! {

/// Trimming removes all white space from both ends: what it gives neither begins nor
/// ends with white space, and trimming it again changes nothing.
pub proof fn law_trim_idempotent(s: Seq<char>)
    ensures
        trim(trim(s)) == trim(s),
        trim(s).len() > 0 ==> !spec_is_white_space(trim(s)[0]) && !spec_is_white_space(
            trim(s).last(),
        ),
{
    lemma_skip_white_space(s, 0);
    lemma_trailing_white_space(s, s.len() as int);
    let x = trim(s);
    if x.len() > 0 {
        assert(!spec_is_white_space(x[0]));
        assert(!spec_is_white_space(x[x.len() - 1]));
        assert(skip_white_space(x, 0) == 0);
        assert(trailing_white_space_start(x, x.len() as int) == x.len());
        assert(x.subrange(0, x.len() as int) =~= x);
    } else {
        lemma_skip_white_space(x, 0);
        lemma_trailing_white_space(x, 0);
        assert(trim(x) =~= x);
    }
}


proof fn lemma_split_run_trimmed(s: Seq<char>, i: int, st: SplitState)
    requires
        forall|k: int| 0 <= k < st.pieces.len() ==> trim(#[trigger] st.pieces[k]) == st.pieces[k],
    ensures
        forall|k: int|
            0 <= k < split_run(s, i, st).pieces.len() ==> trim(#[trigger] split_run(s, i, st).pieces[k])
                == split_run(s, i, st).pieces[k],
    decreases s.len() - i,
{
    if 0 <= i < s.len() {
        let ch = s[i];
        let (j, next) = if ch == '\'' {
            if st.in_str && i + 1 < s.len() && s[i + 1] == '\'' {
                (i + 2, SplitState { pieces: st.pieces, cur: st.cur.push('\'').push('\''), depth: st.depth, in_str: st.in_str })
            } else {
                (i + 1, SplitState { pieces: st.pieces, cur: st.cur.push('\''), depth: st.depth, in_str: !st.in_str })
            }
        } else if !st.in_str && ch == '(' {
            (i + 1, SplitState { pieces: st.pieces, cur: st.cur.push(ch), depth: st.depth + 1, in_str: st.in_str })
        } else if !st.in_str && ch == ')' {
            (i + 1, SplitState { pieces: st.pieces, cur: st.cur.push(ch), depth: st.depth - 1, in_str: st.in_str })
        } else if !st.in_str && ch == ',' && st.depth == 0 {
            (i + 1, SplitState { pieces: st.pieces.push(trim(st.cur)), cur: Seq::empty(), depth: st.depth, in_str: st.in_str })
        } else {
            (i + 1, SplitState { pieces: st.pieces, cur: st.cur.push(ch), depth: st.depth, in_str: st.in_str })
        };
        assert(split_run(s, i, st) == split_run(s, j, next));
        law_trim_idempotent(st.cur);
        assert forall|k: int| 0 <= k < next.pieces.len() implies trim(#[trigger] next.pieces[k]) == next.pieces[k] by {
            if k < st.pieces.len() {
                assert(next.pieces[k] == st.pieces[k]);
            }
        }
        lemma_split_run_trimmed(s, j, next);
    }
}

/// Every piece of a split argument list is trimmed: trimming it again changes nothing.
pub proof fn law_split_pieces_trimmed(s: Seq<char>)
    ensures
        split_pieces(s).len() >= 1,
        forall|k: int| 0 <= k < split_pieces(s).len() ==> trim(#[trigger] split_pieces(s)[k]) == split_pieces(s)[k],
{
    lemma_split_run_trimmed(s, 0, split_start());
    let end = split_run(s, 0, split_start());
    law_trim_idempotent(end.cur);
    let ps = split_pieces(s);
    assert forall|k: int| 0 <= k < ps.len() implies trim(#[trigger] ps[k]) == ps[k] by {
        if k < end.pieces.len() {
            assert(ps[k] == end.pieces[k]);
        }
    }
}


proof fn lemma_join_push(ls: Seq<Seq<char>>, x: Seq<char>, sep: Seq<char>)
    ensures
        join(ls.push(x), sep) == if ls.len() == 0 {
            x
        } else {
            join(ls, sep) + sep + x
        },
{
    let l2 = ls.push(x);
    if ls.len() > 0 {
        assert(l2.drop_last() =~= ls);
        assert(l2.last() == x);
    } else {
        assert(l2[0] == x);
    }
}

proof fn lemma_split_raw(s: Seq<char>, i: int, st: SplitState, rt: SplitState)
    requires
        0 <= i,
        st.cur == rt.cur,
        st.depth == rt.depth,
        st.in_str == rt.in_str,
        st.pieces == rt.pieces.map_values(|p: Seq<char>| trim(p)),
    ensures
        split_run(s, i, st).cur == raw_run(s, i, rt).cur,
        split_run(s, i, st).depth == raw_run(s, i, rt).depth,
        split_run(s, i, st).in_str == raw_run(s, i, rt).in_str,
        split_run(s, i, st).pieces == raw_run(s, i, rt).pieces.map_values(|p: Seq<char>| trim(p)),
    decreases s.len() - i,
{
    if i < s.len() {
        let ch = s[i];
        let r1 = raw_step(rt, ch);
        if ch == '\'' && st.in_str && i + 1 < s.len() && s[i + 1] == '\'' {
            let r2 = raw_step(r1, s[i + 1]);
            assert(raw_run(s, i, rt) == raw_run(s, i + 1, r1));
            assert(raw_run(s, i + 1, r1) == raw_run(s, i + 2, r2));
            let nst = SplitState {
                pieces: st.pieces,
                cur: st.cur.push('\'').push('\''),
                depth: st.depth,
                in_str: st.in_str,
            };
            assert(split_run(s, i, st) == split_run(s, i + 2, nst));
            lemma_split_raw(s, i + 2, nst, r2);
        } else {
            let nst = if ch == '\'' {
                SplitState { pieces: st.pieces, cur: st.cur.push('\''), depth: st.depth, in_str: !st.in_str }
            } else if !st.in_str && ch == '(' {
                SplitState { pieces: st.pieces, cur: st.cur.push(ch), depth: st.depth + 1, in_str: st.in_str }
            } else if !st.in_str && ch == ')' {
                SplitState { pieces: st.pieces, cur: st.cur.push(ch), depth: st.depth - 1, in_str: st.in_str }
            } else if !st.in_str && ch == ',' && st.depth == 0 {
                SplitState { pieces: st.pieces.push(trim(st.cur)), cur: Seq::empty(), depth: st.depth, in_str: st.in_str }
            } else {
                SplitState { pieces: st.pieces, cur: st.cur.push(ch), depth: st.depth, in_str: st.in_str }
            };
            assert(split_run(s, i, st) == split_run(s, i + 1, nst));
            assert(raw_run(s, i, rt) == raw_run(s, i + 1, r1));
            assert(nst.pieces =~= r1.pieces.map_values(|p: Seq<char>| trim(p)));
            lemma_split_raw(s, i + 1, nst, r1);
        }
    }
}

/// Splitting and trimming is the untrimmed split with each piece trimmed.
proof fn lemma_split_pieces_raw(s: Seq<char>)
    ensures
        split_pieces(s) == raw_pieces(s).map_values(|p: Seq<char>| trim(p)),
{
    assert(split_start().pieces =~= split_start().pieces.map_values(|p: Seq<char>| trim(p)));
    lemma_split_raw(s, 0, split_start(), split_start());
    let e = raw_run(s, 0, split_start());
    assert(split_pieces(s) =~= e.pieces.push(e.cur).map_values(|p: Seq<char>| trim(p)));
}

proof fn lemma_raw_rebuild(s: Seq<char>, i: int, st: SplitState)
    requires
        0 <= i <= s.len(),
    ensures
        join(raw_run(s, i, st).pieces.push(raw_run(s, i, st).cur), seq![',']) == join(
            st.pieces.push(st.cur + s.subrange(i, s.len() as int)),
            seq![','],
        ),
    decreases s.len() - i,
{
    if i < s.len() {
        let ch = s[i];
        let n = raw_step(st, ch);
        lemma_raw_rebuild(s, i + 1, n);
        let rest = s.subrange(i + 1, s.len() as int);
        assert(s.subrange(i, s.len() as int) =~= seq![ch] + rest);
        if !st.in_str && ch == ',' && st.depth == 0 && ch != '\'' {
            lemma_join_push(st.pieces.push(st.cur), Seq::<char>::empty() + rest, seq![',']);
            lemma_join_push(st.pieces, st.cur, seq![',']);
            lemma_join_push(st.pieces, st.cur + s.subrange(i, s.len() as int), seq![',']);
            if st.pieces.len() == 0 {
                assert(st.cur + seq![','] + (Seq::<char>::empty() + rest) =~= st.cur + s.subrange(i, s.len() as int));
            } else {
                assert(join(st.pieces, seq![',']) + seq![','] + st.cur + seq![','] + (Seq::<char>::empty() + rest)
                    =~= join(st.pieces, seq![',']) + seq![','] + (st.cur + s.subrange(i, s.len() as int)));
            }
        } else {
            assert(n.pieces == st.pieces);
            assert(n.cur + rest =~= st.cur + s.subrange(i, s.len() as int));
        }
    } else {
        assert(st.cur + s.subrange(i, s.len() as int) =~= st.cur);
    }
}

/// The untrimmed pieces of `s`, joined with commas, give `s` back.
proof fn lemma_raw_join(s: Seq<char>)
    ensures
        join(raw_pieces(s), seq![',']) == s,
{
    lemma_raw_rebuild(s, 0, split_start());
    let st = split_start();
    assert(st.cur + s.subrange(0, s.len() as int) =~= s);
    assert(st.pieces.push(st.cur + s.subrange(0, s.len() as int)) =~= seq![s]);
}

/// Splitting an argument list at its top-level commas and joining the pieces with
/// commas gives it back, when no piece begins or ends with white space.
pub proof fn law_split_join(s: Seq<char>)
    requires
        forall|k: int| 0 <= k < raw_pieces(s).len() ==> trim(#[trigger] raw_pieces(s)[k]) == raw_pieces(s)[k],
    ensures
        join(split_pieces(s), seq![',']) == s,
{
    lemma_split_pieces_raw(s);
    lemma_raw_join(s);
    assert(raw_pieces(s).map_values(|p: Seq<char>| trim(p)) =~= raw_pieces(s));
}

proof fn lemma_raw_shift(x: Seq<char>, y: Seq<char>, j: int, st: SplitState)
    requires
        0 <= j,
    ensures
        raw_run(x + y, x.len() + j, st) == raw_run(y, j, st),
    decreases y.len() - j,
{
    if j < y.len() {
        assert((x + y)[x.len() + j] == y[j]);
        lemma_raw_shift(x, y, j + 1, raw_step(st, y[j]));
    }
}

proof fn lemma_raw_concat(x: Seq<char>, y: Seq<char>, i: int, st: SplitState)
    requires
        0 <= i <= x.len(),
    ensures
        raw_run(x + y, i, st) == raw_run(y, 0, raw_run(x, i, st)),
    decreases x.len() - i,
{
    if i == x.len() {
        lemma_raw_shift(x, y, 0, st);
    } else {
        assert((x + y)[i] == x[i]);
        lemma_raw_concat(x, y, i + 1, raw_step(st, x[i]));
    }
}

proof fn lemma_raw_prefix(s: Seq<char>, i: int, st: SplitState)
    requires
        0 <= i,
    ensures
        raw_run(s, i, st).pieces == st.pieces + raw_run(
            s,
            i,
            SplitState { pieces: Seq::empty(), cur: st.cur, depth: st.depth, in_str: st.in_str },
        ).pieces,
        raw_run(s, i, st).cur == raw_run(
            s,
            i,
            SplitState { pieces: Seq::empty(), cur: st.cur, depth: st.depth, in_str: st.in_str },
        ).cur,
        raw_run(s, i, st).depth == raw_run(
            s,
            i,
            SplitState { pieces: Seq::empty(), cur: st.cur, depth: st.depth, in_str: st.in_str },
        ).depth,
        raw_run(s, i, st).in_str == raw_run(
            s,
            i,
            SplitState { pieces: Seq::empty(), cur: st.cur, depth: st.depth, in_str: st.in_str },
        ).in_str,
    decreases s.len() - i,
{
    let emp = SplitState { pieces: Seq::empty(), cur: st.cur, depth: st.depth, in_str: st.in_str };
    if i < s.len() {
        let ch = s[i];
        let a = raw_step(st, ch);
        let b = raw_step(emp, ch);
        lemma_raw_prefix(s, i + 1, a);
        lemma_raw_prefix(s, i + 1, b);
        let ae = SplitState { pieces: Seq::empty(), cur: a.cur, depth: a.depth, in_str: a.in_str };
        let be = SplitState { pieces: Seq::empty(), cur: b.cur, depth: b.depth, in_str: b.in_str };
        assert(ae == be);
        assert(a.pieces =~= st.pieces + b.pieces);
        assert(raw_run(s, i, st) == raw_run(s, i + 1, a));
        assert(raw_run(s, i, emp) == raw_run(s, i + 1, b));
        assert(a.pieces + raw_run(s, i + 1, ae).pieces =~= st.pieces + (b.pieces + raw_run(s, i + 1, be).pieces));
    } else {
        assert(st.pieces + Seq::<Seq<char>>::empty() =~= st.pieces);
    }
}

proof fn lemma_raw_cur(s: Seq<char>, i: int, st1: SplitState, st2: SplitState, c0: Seq<char>)
    requires
        0 <= i,
        st1.pieces.len() == st2.pieces.len(),
        st1.depth == st2.depth,
        st1.in_str == st2.in_str,
        st2.cur == c0 + st1.cur,
    ensures
        raw_run(s, i, st1).pieces.len() == raw_run(s, i, st2).pieces.len(),
        raw_run(s, i, st1).pieces.len() >= st1.pieces.len(),
        raw_run(s, i, st1).depth == raw_run(s, i, st2).depth,
        raw_run(s, i, st1).in_str == raw_run(s, i, st2).in_str,
        raw_run(s, i, st1).pieces.len() == st1.pieces.len() ==> raw_run(s, i, st2).cur == c0
            + raw_run(s, i, st1).cur,
    decreases s.len() - i,
{
    if i < s.len() {
        let ch = s[i];
        let a = raw_step(st1, ch);
        let b = raw_step(st2, ch);
        if !st1.in_str && ch == ',' && st1.depth == 0 && ch != '\'' {
            assert(b.cur == Seq::<char>::empty() + a.cur);
            lemma_raw_cur(s, i + 1, a, b, Seq::empty());
        } else {
            assert(b.cur =~= c0 + a.cur);
            lemma_raw_cur(s, i + 1, a, b, c0);
        }
    }
}

proof fn lemma_ws_run(w: Seq<char>, i: int, st: SplitState)
    requires
        0 <= i <= w.len(),
        forall|k: int| 0 <= k < w.len() ==> spec_is_white_space(#[trigger] w[k]),
    ensures
        raw_run(w, i, st) == (SplitState {
            pieces: st.pieces,
            cur: st.cur + w.subrange(i, w.len() as int),
            depth: st.depth,
            in_str: st.in_str,
        }),
    decreases w.len() - i,
{
    if i < w.len() {
        let ch = w[i];
        assert(spec_is_white_space(ch));
        assert(ch != '\'' && ch != '(' && ch != ')' && ch != ',');
        let n = raw_step(st, ch);
        assert(n.cur == st.cur.push(ch));
        lemma_ws_run(w, i + 1, n);
        assert(st.cur.push(ch) + w.subrange(i + 1, w.len() as int) =~= st.cur + w.subrange(i, w.len() as int));
    } else {
        assert(st.cur + w.subrange(i, w.len() as int) =~= st.cur);
    }
}

/// The state after reading `x` alone.
spec fn scan_alone(x: Seq<char>) -> SplitState {
    raw_run(x, 0, split_start())
}

/// Whether `x`, read alone, has no top-level comma.
spec fn whole_piece(x: Seq<char>) -> bool {
    scan_alone(x).pieces.len() == 0 && scan_alone(x).cur == x
}

/// Whether `x`, read alone, has no top-level comma and ends outside quoted strings and
/// parentheses.
spec fn closed_piece(x: Seq<char>) -> bool {
    whole_piece(x) && scan_alone(x).depth == 0 && !scan_alone(x).in_str
}

proof fn lemma_scan_structure(s: Seq<char>)
    ensures
        scan_alone(s).pieces == raw_pieces(s).drop_last(),
        scan_alone(s).cur == raw_pieces(s).last(),
        whole_piece(raw_pieces(s).last()),
        scan_alone(s).depth == scan_alone(raw_pieces(s).last()).depth,
        scan_alone(s).in_str == scan_alone(raw_pieces(s).last()).in_str,
        forall|k: int| 0 <= k < raw_pieces(s).len() - 1 ==> closed_piece(#[trigger] raw_pieces(s)[k]),
    decreases s.len(),
{
    let raw = raw_pieces(s);
    assert(raw.drop_last() =~= scan_alone(s).pieces);
    if s.len() == 0 {
        assert(scan_alone(s) == split_start());
        assert(raw.last() =~= Seq::<char>::empty());
        assert(scan_alone(Seq::<char>::empty()) == split_start());
    } else {
        let s1 = s.drop_last();
        let c = s.last();
        lemma_scan_structure(s1);
        let raw1 = raw_pieces(s1);
        let q = raw1.last();
        assert(s =~= s1 + seq![c]);
        lemma_raw_concat(s1, seq![c], 0, split_start());
        let e1 = scan_alone(s1);
        assert(raw_run(seq![c], 0, e1) == raw_run(seq![c], 1, raw_step(e1, c)));
        assert(scan_alone(s) == raw_step(e1, c));
        let sq = scan_alone(q);
        if !e1.in_str && c == ',' && e1.depth == 0 && c != '\'' {
            assert(raw =~= raw1.push(Seq::<char>::empty()));
            assert(scan_alone(Seq::<char>::empty()) == split_start());
            assert(closed_piece(q));
            assert forall|k: int| 0 <= k < raw.len() - 1 implies closed_piece(#[trigger] raw[k]) by {
                if k < raw1.len() - 1 {
                    assert(raw[k] == raw1[k]);
                } else {
                    assert(raw[k] == q);
                }
            }
        } else {
            let q2 = q.push(c);
            assert(q + seq![c] =~= q2);
            lemma_raw_concat(q, seq![c], 0, split_start());
            assert(raw_run(seq![c], 0, sq) == raw_run(seq![c], 1, raw_step(sq, c)));
            assert(scan_alone(q2) == raw_step(sq, c));
            assert(raw =~= raw1.drop_last().push(q2));
            assert forall|k: int| 0 <= k < raw.len() - 1 implies closed_piece(#[trigger] raw[k]) by {
                assert(raw[k] == raw1[k]);
            }
        }
    }
}

proof fn lemma_trim_piece(q: Seq<char>)
    ensures
        whole_piece(q) ==> whole_piece(trim(q)),
        closed_piece(q) ==> closed_piece(trim(q)),
{
    let a = skip_white_space(q, 0);
    let b = trailing_white_space_start(q, q.len() as int);
    lemma_skip_white_space(q, 0);
    lemma_trailing_white_space(q, q.len() as int);
    if a < b {
        let w1 = q.subrange(0, a);
        let m = q.subrange(a, b);
        let w2 = q.subrange(b, q.len() as int);
        assert(q =~= w1 + (m + w2));
        assert forall|k: int| 0 <= k < w1.len() implies spec_is_white_space(#[trigger] w1[k]) by {
            assert(w1[k] == q[k]);
        }
        assert forall|k: int| 0 <= k < w2.len() implies spec_is_white_space(#[trigger] w2[k]) by {
            assert(w2[k] == q[b + k]);
        }
        lemma_raw_concat(w1, m + w2, 0, split_start());
        lemma_ws_run(w1, 0, split_start());
        let s1 = raw_run(w1, 0, split_start());
        assert(s1.cur =~= w1);
        lemma_raw_concat(m, w2, 0, s1);
        lemma_raw_cur(m, 0, split_start(), s1, w1);
        let x = raw_run(m, 0, s1);
        lemma_ws_run(w2, 0, x);
        assert(trim(q) == m);
        if whole_piece(q) {
            assert(scan_alone(q) == raw_run(w2, 0, x));
            assert(scan_alone(m).pieces.len() == 0);
            assert(x.cur == w1 + scan_alone(m).cur);
            assert(q == w1 + scan_alone(m).cur + w2);
            assert((w1 + scan_alone(m).cur + w2).subrange(a, b) =~= scan_alone(m).cur);
            assert(q.subrange(a, b) == m);
        }
    } else {
        assert(trim(q) =~= Seq::<char>::empty());
        assert(scan_alone(Seq::<char>::empty()) == split_start());
    }
}

proof fn lemma_join_scan(qs: Seq<Seq<char>>)
    requires
        qs.len() >= 1,
        forall|k: int| 0 <= k < qs.len() - 1 ==> closed_piece(#[trigger] qs[k]),
        whole_piece(qs.last()),
    ensures
        scan_alone(join(qs, seq![','])) == (SplitState {
            pieces: qs.drop_last(),
            cur: qs.last(),
            depth: scan_alone(qs.last()).depth,
            in_str: scan_alone(qs.last()).in_str,
        }),
    decreases qs.len(),
{
    if qs.len() == 1 {
        assert(join(qs, seq![',']) == qs[0]);
        assert(qs.drop_last() =~= Seq::<Seq<char>>::empty());
        assert(scan_alone(qs[0]).pieces =~= Seq::<Seq<char>>::empty());
    } else {
        let q1 = qs.drop_last();
        let last = qs.last();
        assert(q1.last() == qs[qs.len() - 2]);
        assert forall|k: int| 0 <= k < q1.len() - 1 implies closed_piece(#[trigger] q1[k]) by {
            assert(q1[k] == qs[k]);
        }
        lemma_join_scan(q1);
        let x = join(q1, seq![',']);
        let y = seq![','] + last;
        assert(join(qs, seq![',']) == x + seq![','] + last);
        assert(join(qs, seq![',']) =~= x + y);
        lemma_raw_concat(x, y, 0, split_start());
        let sx = scan_alone(x);
        assert(y[0] == ',');
        let s1 = SplitState { pieces: q1, cur: Seq::empty(), depth: 0, in_str: false };
        assert(raw_step(sx, y[0]) == s1) by {
            assert(q1.drop_last().push(q1.last()) =~= q1);
        }
        assert(raw_run(y, 0, sx) == raw_run(y, 1, s1));
        lemma_raw_shift(seq![','], last, 0, s1);
        assert(raw_run(y, 1, s1) == raw_run(last, 0, s1));
        lemma_raw_prefix(last, 0, s1);
        assert(SplitState { pieces: Seq::empty(), cur: s1.cur, depth: s1.depth, in_str: s1.in_str } == split_start());
        assert(scan_alone(last).pieces =~= Seq::<Seq<char>>::empty());
        assert(q1 + Seq::<Seq<char>>::empty() =~= q1);
        assert(q1 == qs.drop_last());
    }
}

/// Splitting an argument list, joining the pieces with commas and splitting again gives
/// the same pieces: splitting normalises an argument list once and for all.
pub proof fn law_split_join_split(s: Seq<char>)
    ensures
        split_pieces(join(split_pieces(s), seq![','])) == split_pieces(s),
{
    let raw = raw_pieces(s);
    let ps = split_pieces(s);
    lemma_split_pieces_raw(s);
    lemma_scan_structure(s);
    assert(ps.len() == raw.len());
    assert forall|k: int| 0 <= k < ps.len() - 1 implies closed_piece(#[trigger] ps[k]) by {
        assert(closed_piece(raw[k]));
        lemma_trim_piece(raw[k]);
        assert(ps[k] == trim(raw[k]));
    }
    lemma_trim_piece(raw.last());
    assert(ps.last() == trim(raw.last()));
    lemma_join_scan(ps);
    let t = join(ps, seq![',']);
    assert(raw_pieces(t) =~= ps);
    lemma_split_pieces_raw(t);
    law_split_pieces_trimmed(s);
    assert(ps.map_values(|p: Seq<char>| trim(p)) =~= ps);
}

proof fn lemma_decimal_digits(n: nat)
    ensures
        decimal(n).len() > 0,
        forall|i: int| 0 <= i < decimal(n).len() ==> is_ascii_digit(#[trigger] decimal(n)[i]),
        digits_value(decimal(n)) == n,
    decreases n,
{
    let d = n % 10;
    assert((digit_char(d) as u32) == 0x30 + d);
    if n < 10 {
        assert(decimal(n) == seq![digit_char(n)]);
        assert(decimal(n).drop_last() =~= Seq::<char>::empty());
        assert(n % 10 == n) by {
            vstd::arithmetic::div_mod::lemma_small_mod(n, 10);
        }
        assert(decimal(n).last() == digit_char(n));
        assert(digits_value(decimal(n)) == digits_value(Seq::<char>::empty()) * 10 + ((digit_char(n) as u32) - 0x30) as nat);
    } else {
        lemma_decimal_digits(n / 10);
        let p = decimal(n / 10);
        assert(decimal(n) == p.push(digit_char(d)));
        assert(decimal(n).drop_last() =~= p);
        vstd::arithmetic::div_mod::lemma_fundamental_div_mod(n as int, 10);
        assert(decimal(n).last() == digit_char(d));
        assert(digits_value(decimal(n)) == digits_value(p) * 10 + ((digit_char(d) as u32) - 0x30) as nat);
        assert(digits_value(p) == n / 10);
        assert forall|i: int| 0 <= i < decimal(n).len() implies is_ascii_digit(#[trigger] decimal(n)[i]) by {
            if i < p.len() {
                assert(decimal(n)[i] == p[i]);
            }
        }
    }
}

/// The number of an id that the conversion writes is the number it was written for.
pub proof fn law_id_text_number(n: nat)
    requires
        n <= usize::MAX,
    ensures
        id_number(id_text(n)) == Some(n as usize),
{
    lemma_decimal_digits(n);
    let id = id_text(n);
    assert(id.drop_first() =~= decimal(n));
    assert(decimal(n)[0] != '+') by {
        assert(is_ascii_digit(decimal(n)[0]));
    }
    assert(unsigned_digits(decimal(n)) == decimal(n));
}

proof fn lemma_max_id_from(tbl: Seq<Rec>, j: int)
    requires
        0 <= j,
    ensures
        forall|k: int|
            j <= k < tbl.len() && (#[trigger] id_number(tbl[k].id)) is Some ==> id_number(tbl[k].id).unwrap()
                <= max_id_from(tbl, j),
    decreases tbl.len() - j,
{
    if j < tbl.len() {
        lemma_max_id_from(tbl, j + 1);
    }
}

/// The ids that a conversion writes, `#<n>` for numbers past the largest id number of
/// the file, never carry the number of an id that the file already has.
pub proof fn law_new_ids_are_fresh(tbl: Seq<Rec>, n: nat)
    requires
        max_id(tbl) < n <= usize::MAX,
    ensures
        id_number(id_text(n)) == Some(n as usize),
        forall|k: int|
            0 <= k < tbl.len() && (#[trigger] id_number(tbl[k].id)) is Some ==> id_number(tbl[k].id).unwrap()
                < n,
{
    law_id_text_number(n);
    lemma_max_id_from(tbl, 0);
}


proof fn lemma_spliced_upto_unchanged(t: Seq<char>, ss: Seq<Span>, repl: Seq<(Seq<char>, Seq<char>)>, k: int)
    requires
        spans_in_order(t, ss),
        0 <= k <= ss.len(),
        forall|q: int| 0 <= q < ss.len() ==> replacement_for(repl, t.subrange(#[trigger] ss[q].start, ss[q].id_end)) is None,
    ensures
        spliced_upto(t, ss, repl, k) == t.take(prev_end(ss, k)),
    decreases k,
{
    if k > 0 {
        lemma_spliced_upto_unchanged(t, ss, repl, k - 1);
        let s = ss[k - 1];
        assert(replacement_for(repl, t.subrange(s.start, s.id_end)) is None);
        if k > 1 {
            assert(ss[k - 2].end <= ss[k - 1].start);
        }
        assert(t.take(prev_end(ss, k - 1)) + t.subrange(prev_end(ss, k - 1), s.start) + t.subrange(s.start, s.end)
            =~= t.take(s.end));
    }
}

/// Rewriting a text changes nothing where no record's id has a replacement: in
/// particular, with no replacements the text comes back as it was.
pub proof fn law_splice_keeps_text(t: Seq<char>, repl: Seq<(Seq<char>, Seq<char>)>)
    requires
        forall|q: int| 0 <= q < records(t).len() ==> replacement_for(repl, t.subrange(#[trigger] records(t)[q].start, records(t)[q].id_end)) is None,
    ensures
        spliced(t, records(t), repl) == t,
{
    let ss = records(t);
    lemma_records_in_order(t);
    lemma_spliced_upto_unchanged(t, ss, repl, ss.len() as int);
    if ss.len() > 0 {
        assert(ss[ss.len() - 1].end <= t.len());
    }
    assert(t.take(prev_end(ss, ss.len() as int)) + t.subrange(prev_end(ss, ss.len() as int), t.len() as int) =~= t);
}


/// Each repaired opening adds fifteen records and one replacement, and no more
/// openings are repaired than were looked at.
pub proof fn law_repair_counts(
    tbl: Seq<Rec>,
    cs: Seq<CandV>,
    gs: Seq<Option<GeomV>>,
    ctx: Seq<char>,
    n0: nat,
    k: int,
)
    requires
        0 <= k,
    ensures
        repairs_upto(tbl, cs, gs, ctx, n0, k).lines.len() == 15 * repairs_upto(tbl, cs, gs, ctx, n0, k).count,
        repairs_upto(tbl, cs, gs, ctx, n0, k).repl.len() == repairs_upto(tbl, cs, gs, ctx, n0, k).count,
        repairs_upto(tbl, cs, gs, ctx, n0, k).count <= k,
    decreases k,
{
    if k > 0 {
        law_repair_counts(tbl, cs, gs, ctx, n0, k - 1);
        let prev = repairs_upto(tbl, cs, gs, ctx, n0, k - 1);
        reveal(opening_lines);
        assert forall|n: nat, g: GeomV| #[trigger] opening_lines(n, ctx, g).len() == 15 by {}
    }
}

/// Whether `line` begins with `p`.
pub open spec fn begins_with(line: Seq<char>, p: Seq<char>) -> bool {
    p.len() <= line.len() && line.take(p.len() as int) == p
}

/// Whether `line` is a record with the id `#<n>`: it begins with `#<n> = `.
pub open spec fn has_id(line: Seq<char>, n: nat) -> bool {
    begins_with(line, id_text(n) + " = "@)
}

proof fn lemma_record_line_id(id: Seq<char>, body: Seq<char>)
    ensures
        begins_with(record_line(id, body), id + " = "@),
{
    assert(record_line(id, body).take((id + " = "@).len() as int) =~= id + " = "@);
}

proof fn lemma_opening_lines_ids(n: nat, ctx: Seq<char>, g: GeomV)
    ensures
        opening_lines(n, ctx, g).len() == 15,
        forall|j: int| 0 <= j < 15 ==> has_id(#[trigger] opening_lines(n, ctx, g)[j], (n + j) as nat),
{
    reveal(opening_lines);
    let ls = opening_lines(n, ctx, g);
    assert forall|id: Seq<char>, body: Seq<char>| #[trigger] begins_with(record_line(id, body), id + " = "@) by {
        lemma_record_line_id(id, body);
    }
    assert forall|j: int| 0 <= j < 15 implies has_id(#[trigger] ls[j], (n + j) as nat) by {
        let id = id_text((n + j) as nat);
        assert(exists|body: Seq<char>| ls[j] == #[trigger] record_line(id, body));
        let body = choose|body: Seq<char>| ls[j] == #[trigger] record_line(id, body);
        assert(begins_with(record_line(id, body), id + " = "@));
    }
}

/// The new records of a conversion are numbered one after another: the record `i` of
/// them has the id `#<n0 + i>`, where `n0` is the first id the conversion writes.
pub proof fn law_new_ids_consecutive(
    tbl: Seq<Rec>,
    cs: Seq<CandV>,
    gs: Seq<Option<GeomV>>,
    ctx: Seq<char>,
    n0: nat,
    k: int,
)
    requires
        0 <= k,
    ensures
        forall|i: int|
            0 <= i < repairs_upto(tbl, cs, gs, ctx, n0, k).lines.len() ==> has_id(
                #[trigger] repairs_upto(tbl, cs, gs, ctx, n0, k).lines[i],
                (n0 + i) as nat,
            ),
    decreases k,
{
    if k > 0 {
        law_new_ids_consecutive(tbl, cs, gs, ctx, n0, k - 1);
        law_repair_counts(tbl, cs, gs, ctx, n0, k - 1);
        let prev = repairs_upto(tbl, cs, gs, ctx, n0, k - 1);
        let cur = repairs_upto(tbl, cs, gs, ctx, n0, k);
        let g = answer_at(gs, k - 1);
        if is_repaired(cs[k - 1], g) {
            let n = n0 + 15 * prev.count;
            let new = opening_lines(n, ctx, g.unwrap());
            lemma_opening_lines_ids(n, ctx, g.unwrap());
            assert(cur.lines == prev.lines + new);
            assert forall|i: int| 0 <= i < cur.lines.len() implies has_id(#[trigger] cur.lines[i], (n0 + i) as nat) by {
                if i < prev.lines.len() {
                    assert(cur.lines[i] == prev.lines[i]);
                } else {
                    let j = i - prev.lines.len();
                    assert(cur.lines[i] == new[j]);
                    assert(has_id(new[j], (n + j) as nat));
                    assert(n + j == n0 + i);
                }
            }
        }
    }
}

/// The record that replaces the opening `j` of a conversion names, as its shape, the
/// last of the fifteen records added for that opening, `#<n0 + 15 j + 14>`; and the ids
/// of the added records are all different, as long as they are numbers a `usize` holds.
pub proof fn law_replacements_name_new_shapes(
    tbl: Seq<Rec>,
    cs: Seq<CandV>,
    gs: Seq<Option<GeomV>>,
    ctx: Seq<char>,
    n0: nat,
    k: int,
)
    requires
        0 <= k,
        n0 + repairs_upto(tbl, cs, gs, ctx, n0, k).lines.len() <= usize::MAX + 1,
    ensures
        forall|j: int|
            0 <= j < repairs_upto(tbl, cs, gs, ctx, n0, k).repl.len() ==> {
                let op = (#[trigger] repairs_upto(tbl, cs, gs, ctx, n0, k).repl[j]).0;
                let shape = (n0 + 15 * j + 14) as nat;
                &&& repairs_upto(tbl, cs, gs, ctx, n0, k).repl[j].1 == replacement(
                    op,
                    split_pieces(lookup(tbl, op).unwrap().args),
                    id_text(shape),
                )
                &&& 15 * j + 14 < repairs_upto(tbl, cs, gs, ctx, n0, k).lines.len()
                &&& has_id(repairs_upto(tbl, cs, gs, ctx, n0, k).lines[15 * j + 14], shape)
            },
        forall|a: nat, b: nat|
            n0 <= a < b < n0 + repairs_upto(tbl, cs, gs, ctx, n0, k).lines.len() ==> #[trigger] id_text(a)
                != #[trigger] id_text(b),
{
    lemma_repl_shapes(tbl, cs, gs, ctx, n0, k);
    law_new_ids_consecutive(tbl, cs, gs, ctx, n0, k);
    law_repair_counts(tbl, cs, gs, ctx, n0, k);
    let rp = repairs_upto(tbl, cs, gs, ctx, n0, k);
    assert forall|a: nat, b: nat| n0 <= a < b < n0 + rp.lines.len() implies #[trigger] id_text(a) != #[trigger] id_text(b) by {
        law_id_text_number(a);
        law_id_text_number(b);
    }
}

proof fn lemma_repl_shapes(
    tbl: Seq<Rec>,
    cs: Seq<CandV>,
    gs: Seq<Option<GeomV>>,
    ctx: Seq<char>,
    n0: nat,
    k: int,
)
    requires
        0 <= k,
    ensures
        forall|j: int|
            0 <= j < repairs_upto(tbl, cs, gs, ctx, n0, k).repl.len() ==> {
                let op = (#[trigger] repairs_upto(tbl, cs, gs, ctx, n0, k).repl[j]).0;
                repairs_upto(tbl, cs, gs, ctx, n0, k).repl[j].1 == replacement(
                    op,
                    split_pieces(lookup(tbl, op).unwrap().args),
                    id_text((n0 + 15 * j + 14) as nat),
                )
            },
    decreases k,
{
    if k > 0 {
        lemma_repl_shapes(tbl, cs, gs, ctx, n0, k - 1);
        law_repair_counts(tbl, cs, gs, ctx, n0, k - 1);
        let prev = repairs_upto(tbl, cs, gs, ctx, n0, k - 1);
        let cur = repairs_upto(tbl, cs, gs, ctx, n0, k);
        if is_repaired(cs[k - 1], answer_at(gs, k - 1)) {
            assert forall|j: int| 0 <= j < cur.repl.len() implies {
                let op = (#[trigger] cur.repl[j]).0;
                cur.repl[j].1 == replacement(op, split_pieces(lookup(tbl, op).unwrap().args), id_text((n0 + 15 * j + 14) as nat))
            } by {
                if j < prev.repl.len() {
                    assert(cur.repl[j] == prev.repl[j]);
                } else {
                    assert(j == prev.count);
                }
            }
        }
    }
}

/// Whether no character of `s` is `;`.
pub open spec fn no_semicolon(s: Seq<char>) -> bool {
    forall|i: int| 0 <= i < s.len() ==> s[i] != ';'
}

/// Whether `line`, read alone, is exactly one record, from its first character to its
/// last, with the id `#<n>`.
pub open spec fn reads_as_record(line: Seq<char>, n: nat) -> bool {
    &&& records(line).len() == 1
    &&& records(line)[0].start == 0
    &&& records(line)[0].end == line.len()
    &&& line.subrange(0, records(line)[0].id_end) == id_text(n)
}

proof fn lemma_digits_end_at(t: Seq<char>, i: int, e: int)
    requires
        0 <= i <= e < t.len(),
        forall|k: int| i <= k < e ==> spec_is_decimal_digit(#[trigger] t[k]),
        !spec_is_decimal_digit(t[e]),
    ensures
        digits_end(t, i) == e,
    decreases e - i,
{
    if i < e {
        lemma_digits_end_at(t, i + 1, e);
    }
}

proof fn lemma_type_end_at(t: Seq<char>, i: int, e: int)
    requires
        0 <= i <= e < t.len(),
        forall|k: int| i <= k < e ==> spec_is_type_char(#[trigger] t[k]),
        !spec_is_type_char(t[e]),
    ensures
        type_name_end(t, i) == e,
    decreases e - i,
{
    if i < e {
        lemma_type_end_at(t, i + 1, e);
    }
}

proof fn lemma_find_close_at(t: Seq<char>, k: int, e: int)
    requires
        0 <= k <= e,
        closes_at(t, e),
        forall|j: int| k <= j < e ==> !closes_at(t, j),
    ensures
        find_close(t, k) == Some(e),
    decreases e - k,
{
    if k < e {
        assert(!closes_at(t, k));
        lemma_find_close_at(t, k + 1, e);
    }
}

/// A line `#<n> = TYPE(ARGS);` whose type name is made of type name characters and
/// whose arguments hold no `;` is read as one record.
proof fn lemma_line_is_record(n: nat, ty: Seq<char>, args: Seq<char>)
    requires
        ty.len() > 0,
        forall|i: int| 0 <= i < ty.len() ==> spec_is_type_char(#[trigger] ty[i]),
        no_semicolon(args),
    ensures
        reads_as_record(record_line(id_text(n), record_body(ty, args)), n),
{
    reveal_strlit(" = ");
    reveal_strlit("(");
    reveal_strlit(");");
    lemma_decimal_digits(n);
    let id = id_text(n);
    let body = record_body(ty, args);
    let t = record_line(id, body);
    let l = id.len() as int;
    let te = l + 3 + ty.len();
    let len = t.len() as int;
    assert(body =~= ty + seq!['('] + args + seq![')', ';']);
    assert(t =~= id + seq![' ', '=', ' '] + ty + seq!['('] + args + seq![')', ';']);
    assert(len == te + 1 + args.len() + 2);
    assert(t[0] == '#');
    assert forall|k: int| 1 <= k < l implies spec_is_decimal_digit(#[trigger] t[k]) by {
        assert(t[k] == decimal(n)[k - 1]);
        assert(is_ascii_digit(decimal(n)[k - 1]));
    }
    assert(t[l] == ' ');
    assert(t[l + 1] == '=');
    assert(t[l + 2] == ' ');
    lemma_digits_end_at(t, 1, l);
    assert(skip_white_space(t, l + 1) == l + 1);
    assert(skip_white_space(t, l) == l + 1);
    assert(t[l + 3] == ty[0]);
    assert(!spec_is_white_space(t[l + 3]));
    assert(skip_white_space(t, l + 3) == l + 3);
    assert(skip_white_space(t, l + 2) == l + 3);
    assert forall|k: int| l + 3 <= k < te implies spec_is_type_char(#[trigger] t[k]) by {
        assert(t[k] == ty[k - l - 3]);
    }
    assert(t[te] == '(');
    lemma_type_end_at(t, l + 3, te);
    assert(t[len - 2] == ')' && t[len - 1] == ';');
    assert forall|j: int| te + 1 <= j < len - 2 implies !closes_at(t, j) by {
        if j + 1 < len - 2 {
            assert(t[j + 1] == args[j + 1 - te - 1]);
        }
    }
    lemma_find_close_at(t, te + 1, len - 2);
    let s = record_at(t, 0).unwrap();
    assert(record_at(t, 0) is Some);
    assert(s.end == len);
    assert(records_from(t, len) =~= Seq::<Span>::empty());
    assert(records(t) == seq![s] + records_from(t, len));
    assert(records(t) =~= seq![s]);
    assert(t.subrange(0, s.id_end) =~= id);
}

/// Whether `s` is a type name: at least one character, each of them a type name
/// character.
spec fn type_word(s: Seq<char>) -> bool {
    s.len() > 0 && forall|i: int| 0 <= i < s.len() ==> spec_is_type_char(#[trigger] s[i])
}

proof fn lemma_no_semicolon_add(a: Seq<char>, b: Seq<char>)
    requires
        no_semicolon(a),
        no_semicolon(b),
    ensures
        no_semicolon(a + b),
{
    assert forall|i: int| 0 <= i < (a + b).len() implies (a + b)[i] != ';' by {
        if i < a.len() {
            assert((a + b)[i] == a[i]);
        } else {
            assert((a + b)[i] == b[i - a.len()]);
        }
    }
}

proof fn lemma_ns_chain(parts: Seq<Seq<char>>, k: int)
    requires
        1 <= k <= parts.len(),
        forall|i: int| 0 <= i < parts.len() ==> no_semicolon(#[trigger] parts[i]),
    ensures
        no_semicolon(concat_parts(parts, k)),
    decreases k,
{
    if k > 1 {
        lemma_ns_chain(parts, k - 1);
        lemma_no_semicolon_add(concat_parts(parts, k - 1), parts[k - 1]);
    }
}

/// The first `k` of `parts`, one after another.
spec fn concat_parts(parts: Seq<Seq<char>>, k: int) -> Seq<char>
    decreases k,
{
    if k <= 1 {
        parts[0]
    } else {
        concat_parts(parts, k - 1) + parts[k - 1]
    }
}

proof fn lemma_id_no_semicolon(n: nat)
    ensures
        no_semicolon(id_text(n)),
{
    lemma_decimal_digits(n);
    let id = id_text(n);
    assert forall|i: int| 0 <= i < id.len() implies id[i] != ';' by {
        if i > 0 {
            assert(id[i] == decimal(n)[i - 1]);
            assert(is_ascii_digit(decimal(n)[i - 1]));
        }
    }
}

proof fn lemma_literals()
    ensures
        type_word("IFCCARTESIANPOINT"@),
        type_word("IFCPOLYLINE"@),
        type_word("IFCARBITRARYCLOSEDPROFILEDEF"@),
        type_word("IFCDIRECTION"@),
        type_word("IFCAXIS2PLACEMENT3D"@),
        type_word("IFCEXTRUDEDAREASOLID"@),
        type_word("IFCSHAPEREPRESENTATION"@),
        type_word("IFCPRODUCTDEFINITIONSHAPE"@),
        no_semicolon("("@),
        no_semicolon(")"@),
        no_semicolon(","@),
        no_semicolon(",0.)"@),
        no_semicolon(".AREA.,$,"@),
        no_semicolon("(0.,0.,1.)"@),
        no_semicolon(",'Body','SweptSolid',("@),
        no_semicolon("$,$,("@),
        no_semicolon(zero_text()),
{
    reveal_strlit("IFCCARTESIANPOINT");
    reveal_strlit("IFCPOLYLINE");
    reveal_strlit("IFCARBITRARYCLOSEDPROFILEDEF");
    reveal_strlit("IFCDIRECTION");
    reveal_strlit("IFCAXIS2PLACEMENT3D");
    reveal_strlit("IFCEXTRUDEDAREASOLID");
    reveal_strlit("IFCSHAPEREPRESENTATION");
    reveal_strlit("IFCPRODUCTDEFINITIONSHAPE");
    reveal_strlit("(");
    reveal_strlit(")");
    reveal_strlit(",");
    reveal_strlit(",0.)");
    reveal_strlit(".AREA.,$,");
    reveal_strlit("(0.,0.,1.)");
    reveal_strlit(",'Body','SweptSolid',(");
    reveal_strlit("$,$,(");
    reveal_strlit("0.0");
}

/// What the geometry answered holds no `;`.
pub open spec fn geom_no_semicolon(g: GeomV) -> bool {
    &&& no_semicolon(g.width)
    &&& no_semicolon(g.height)
    &&& no_semicolon(g.origin_x)
    &&& no_semicolon(g.origin_y)
    &&& no_semicolon(g.base_z)
    &&& no_semicolon(g.normal_x)
    &&& no_semicolon(g.normal_y)
    &&& no_semicolon(g.axis_x)
    &&& no_semicolon(g.axis_y)
    &&& no_semicolon(g.depth)
}

#[verifier::rlimit(60)]
proof fn lemma_opening_lines_records(n: nat, ctx: Seq<char>, g: GeomV)
    requires
        no_semicolon(ctx),
        geom_no_semicolon(g),
    ensures
        forall|j: int| 0 <= j < 15 ==> reads_as_record(#[trigger] opening_lines(n, ctx, g)[j], (n + j) as nat),
{
    reveal(opening_lines);
    lemma_literals();
    let ls = opening_lines(n, ctx, g);
    let z = zero_text();
    let c = ","@;
    let o = "("@;
    let cl = ")"@;
    let p0 = id_text(n);
    let p1 = id_text(n + 1);
    let p2 = id_text(n + 2);
    let p3 = id_text(n + 3);
    let p4 = id_text(n + 4);
    let poly = id_text(n + 5);
    let prof = id_text(n + 6);
    let loc = id_text(n + 7);
    let axis = id_text(n + 8);
    let refd = id_text(n + 9);
    let pos = id_text(n + 10);
    let dir = id_text(n + 11);
    let solid = id_text(n + 12);
    let rep = id_text(n + 13);
    let shape = id_text(n + 14);
    let pt = "IFCCARTESIANPOINT"@;
    lemma_id_no_semicolon(n);
    lemma_id_no_semicolon(n + 1);
    lemma_id_no_semicolon(n + 2);
    lemma_id_no_semicolon(n + 3);
    lemma_id_no_semicolon(n + 4);
    lemma_id_no_semicolon(n + 5);
    lemma_id_no_semicolon(n + 6);
    lemma_id_no_semicolon(n + 7);
    lemma_id_no_semicolon(n + 8);
    lemma_id_no_semicolon(n + 9);
    lemma_id_no_semicolon(n + 10);
    lemma_id_no_semicolon(n + 11);
    lemma_id_no_semicolon(n + 12);
    lemma_id_no_semicolon(n + 13);
    let a0 = o + z + c + z + cl;
    let a1 = o + g.width + c + z + cl;
    let a2 = o + g.width + c + g.height + cl;
    let a3 = o + z + c + g.height + cl;
    let a5 = o + p0 + c + p1 + c + p2 + c + p3 + c + p4 + cl;
    let a6 = ".AREA.,$,"@ + poly;
    let a7 = o + g.origin_x + c + g.origin_y + c + g.base_z + cl;
    let a8 = o + g.normal_x + c + g.normal_y + ",0.)"@;
    let a9 = o + g.axis_x + c + g.axis_y + ",0.)"@;
    let a10 = loc + c + axis + c + refd;
    let a11 = "(0.,0.,1.)"@;
    let a12 = prof + c + pos + c + dir + c + g.depth;
    let a13 = ctx + ",'Body','SweptSolid',("@ + solid + cl;
    let a14 = "$,$,("@ + rep + cl;
    assert(no_semicolon(a0)) by { lemma_ns_chain(seq![o, z, c, z, cl], 5); }
    assert(no_semicolon(a1)) by { lemma_ns_chain(seq![o, g.width, c, z, cl], 5); }
    assert(no_semicolon(a2)) by { lemma_ns_chain(seq![o, g.width, c, g.height, cl], 5); }
    assert(no_semicolon(a3)) by { lemma_ns_chain(seq![o, z, c, g.height, cl], 5); }
    assert(no_semicolon(a5)) by { lemma_ns_chain(seq![o, p0, c, p1, c, p2, c, p3, c, p4, cl], 11); }
    assert(no_semicolon(a6)) by { lemma_ns_chain(seq![".AREA.,$,"@, poly], 2); }
    assert(no_semicolon(a7)) by { lemma_ns_chain(seq![o, g.origin_x, c, g.origin_y, c, g.base_z, cl], 7); }
    assert(no_semicolon(a8)) by { lemma_ns_chain(seq![o, g.normal_x, c, g.normal_y, ",0.)"@], 5); }
    assert(no_semicolon(a9)) by { lemma_ns_chain(seq![o, g.axis_x, c, g.axis_y, ",0.)"@], 5); }
    assert(no_semicolon(a10)) by { lemma_ns_chain(seq![loc, c, axis, c, refd], 5); }
    assert(no_semicolon(a12)) by { lemma_ns_chain(seq![prof, c, pos, c, dir, c, g.depth], 7); }
    assert(no_semicolon(a13)) by { lemma_ns_chain(seq![ctx, ",'Body','SweptSolid',("@, solid, cl], 4); }
    assert(no_semicolon(a14)) by { lemma_ns_chain(seq!["$,$,("@, rep, cl], 3); }
    lemma_line_is_record(n, pt, a0);
    lemma_line_is_record(n + 1, pt, a1);
    lemma_line_is_record(n + 2, pt, a2);
    lemma_line_is_record(n + 3, pt, a3);
    lemma_line_is_record(n + 4, pt, a0);
    lemma_line_is_record(n + 5, "IFCPOLYLINE"@, a5);
    lemma_line_is_record(n + 6, "IFCARBITRARYCLOSEDPROFILEDEF"@, a6);
    lemma_line_is_record(n + 7, pt, a7);
    lemma_line_is_record(n + 8, "IFCDIRECTION"@, a8);
    lemma_line_is_record(n + 9, "IFCDIRECTION"@, a9);
    lemma_line_is_record(n + 10, "IFCAXIS2PLACEMENT3D"@, a10);
    lemma_line_is_record(n + 11, "IFCDIRECTION"@, a11);
    lemma_line_is_record(n + 12, "IFCEXTRUDEDAREASOLID"@, a12);
    lemma_line_is_record(n + 13, "IFCSHAPEREPRESENTATION"@, a13);
    lemma_line_is_record(n + 14, "IFCPRODUCTDEFINITIONSHAPE"@, a14);
    assert forall|j: int| 0 <= j < 15 implies reads_as_record(#[trigger] ls[j], (n + j) as nat) by {
        if j == 0 {
            assert(ls[0] == record_line(id_text(n), record_body(pt, a0)));
        } else if j == 1 {
            assert(ls[1] == record_line(id_text(n + 1), record_body(pt, a1)));
        } else if j == 2 {
            assert(ls[2] == record_line(id_text(n + 2), record_body(pt, a2)));
        } else if j == 3 {
            assert(ls[3] == record_line(id_text(n + 3), record_body(pt, a3)));
        } else if j == 4 {
            assert(ls[4] == record_line(id_text(n + 4), record_body(pt, a0)));
        } else if j == 5 {
            assert(ls[5] == record_line(id_text(n + 5), record_body("IFCPOLYLINE"@, a5)));
        } else if j == 6 {
            assert(ls[6] == record_line(id_text(n + 6), record_body("IFCARBITRARYCLOSEDPROFILEDEF"@, a6)));
        } else if j == 7 {
            assert(ls[7] == record_line(id_text(n + 7), record_body(pt, a7)));
        } else if j == 8 {
            assert(ls[8] == record_line(id_text(n + 8), record_body("IFCDIRECTION"@, a8)));
        } else if j == 9 {
            assert(ls[9] == record_line(id_text(n + 9), record_body("IFCDIRECTION"@, a9)));
        } else if j == 10 {
            assert(ls[10] == record_line(id_text(n + 10), record_body("IFCAXIS2PLACEMENT3D"@, a10)));
        } else if j == 11 {
            assert(ls[11] == record_line(id_text(n + 11), record_body("IFCDIRECTION"@, a11)));
        } else if j == 12 {
            assert(ls[12] == record_line(id_text(n + 12), record_body("IFCEXTRUDEDAREASOLID"@, a12)));
        } else if j == 13 {
            assert(ls[13] == record_line(id_text(n + 13), record_body("IFCSHAPEREPRESENTATION"@, a13)));
        } else {
            assert(ls[14] == record_line(id_text(n + 14), record_body("IFCPRODUCTDEFINITIONSHAPE"@, a14)));
        }
    }
}

/// Each record that a conversion adds, read alone, is one record from its first
/// character to its last, and the record `i` of them has the id `#<n0 + i>`, as long
/// as the body context's id and the texts that the geometry answered hold no `;`.
pub proof fn law_added_lines_are_records(
    tbl: Seq<Rec>,
    cs: Seq<CandV>,
    gs: Seq<Option<GeomV>>,
    ctx: Seq<char>,
    n0: nat,
    k: int,
)
    requires
        0 <= k,
        no_semicolon(ctx),
        forall|q: int| 0 <= q < gs.len() && (#[trigger] gs[q]) is Some ==> geom_no_semicolon(gs[q].unwrap()),
    ensures
        forall|i: int|
            0 <= i < repairs_upto(tbl, cs, gs, ctx, n0, k).lines.len() ==> reads_as_record(
                #[trigger] repairs_upto(tbl, cs, gs, ctx, n0, k).lines[i],
                (n0 + i) as nat,
            ),
    decreases k,
{
    if k > 0 {
        law_added_lines_are_records(tbl, cs, gs, ctx, n0, k - 1);
        law_repair_counts(tbl, cs, gs, ctx, n0, k - 1);
        let prev = repairs_upto(tbl, cs, gs, ctx, n0, k - 1);
        let cur = repairs_upto(tbl, cs, gs, ctx, n0, k);
        let g = answer_at(gs, k - 1);
        if is_repaired(cs[k - 1], g) {
            assert(gs[k - 1] is Some);
            let n = n0 + 15 * prev.count;
            let new = opening_lines(n, ctx, g.unwrap());
            lemma_opening_lines_ids(n, ctx, g.unwrap());
            lemma_opening_lines_records(n, ctx, g.unwrap());
            assert(cur.lines == prev.lines + new);
            assert forall|i: int| 0 <= i < cur.lines.len() implies reads_as_record(#[trigger] cur.lines[i], (n0 + i) as nat) by {
                if i < prev.lines.len() {
                    assert(cur.lines[i] == prev.lines[i]);
                } else {
                    let j = i - prev.lines.len();
                    assert(cur.lines[i] == new[j]);
                    assert(reads_as_record(new[j], (n + j) as nat));
                    assert(n + j == n0 + i);
                }
            }
        }
    }
}

proof fn lemma_hosts_distinct(tbl: Seq<Rec>, j: int)
    requires
        0 <= j <= tbl.len(),
    ensures
        forall|a: int, b: int|
            0 <= a < b < hosts_upto(tbl, j).len() ==> (#[trigger] hosts_upto(tbl, j)[a]).0 != (#[trigger] hosts_upto(tbl, j)[b]).0,
    decreases j,
{
    if j > 0 {
        lemma_hosts_distinct(tbl, j - 1);
        let hs = hosts_upto(tbl, j - 1);
        let r = tbl[j - 1];
        if crate::plan::is_void_relation(r) {
            let rf = crate::scan::refs(r.args);
            let op = rf[rf.len() - 1];
            let wall = rf[rf.len() - 2];
            lemma_host_index_from(hs, op, 0);
            let nh = host_insert(hs, op, wall);
            assert(hosts_upto(tbl, j) == nh);
            match host_index_from(hs, op, 0) {
                Some(m) => {
                    assert forall|a: int, b: int| 0 <= a < b < nh.len() implies (#[trigger] nh[a]).0 != (#[trigger] nh[b]).0 by {
                        if a != m && b != m {
                            assert(nh[a] == hs[a] && nh[b] == hs[b]);
                        } else if a == m {
                            assert(nh[b] == hs[b]);
                            assert(hs[m].0 == op);
                        } else {
                            assert(nh[a] == hs[a]);
                            assert(hs[m].0 == op);
                        }
                    }
                },
                None => {
                    assert forall|a: int, b: int| 0 <= a < b < nh.len() implies (#[trigger] nh[a]).0 != (#[trigger] nh[b]).0 by {
                        assert(nh[a] == hs[a]);
                        if b < hs.len() {
                            assert(nh[b] == hs[b]);
                        }
                    }
                },
            }
        }
    }
}

/// Every opening appears once among the openings of a file, whatever number of void
/// relations name it.
pub proof fn law_openings_distinct(tbl: Seq<Rec>)
    ensures
        forall|a: int, b: int|
            0 <= a < b < opening_hosts(tbl).len() ==> (#[trigger] opening_hosts(tbl)[a]).0 != (#[trigger] opening_hosts(tbl)[b]).0,
{
    lemma_hosts_distinct(tbl, tbl.len() as int);
}


/// Whether `r` is a reference: `#` and at least one decimal digit, nothing else.
pub open spec fn is_reference(r: Seq<char>) -> bool {
    &&& r.len() >= 2
    &&& r[0] == '#'
    &&& forall|i: int| 1 <= i < r.len() ==> spec_is_decimal_digit(#[trigger] r[i])
}

proof fn lemma_refs_from_shape(t: Seq<char>, pos: int)
    requires
        0 <= pos,
    ensures
        forall|k: int| 0 <= k < refs_from(t, pos).len() ==> is_reference(#[trigger] refs_from(t, pos)[k]),
    decreases t.len() - pos,
{
    if pos < t.len() {
        if t[pos] == '#' && digits_end(t, pos + 1) > pos + 1 {
            let e = digits_end(t, pos + 1);
            lemma_digits_end(t, pos + 1);
            lemma_refs_from_shape(t, e);
            let all = refs_from(t, pos);
            let rest = refs_from(t, e);
            let first = t.subrange(pos, e);
            assert(all == seq![first] + rest);
            assert(is_reference(first)) by {
                assert forall|i: int| 1 <= i < first.len() implies spec_is_decimal_digit(#[trigger] first[i]) by {
                    assert(first[i] == t[pos + i]);
                }
            }
            assert forall|k: int| 0 <= k < all.len() implies is_reference(#[trigger] all[k]) by {
                if k > 0 {
                    assert(all[k] == rest[k - 1]);
                }
            }
        } else {
            lemma_refs_from_shape(t, pos + 1);
            assert(refs_from(t, pos) == refs_from(t, pos + 1));
        }
    }
}

/// Every reference found in a text is `#` followed by decimal digits, at least one.
pub proof fn law_refs_shape(t: Seq<char>)
    ensures
        forall|k: int| 0 <= k < refs(t).len() ==> is_reference(#[trigger] refs(t)[k]),
{
    lemma_refs_from_shape(t, 0);
}


proof fn lemma_strip_trailing(s: Seq<char>, c: char)
    ensures
        strip_trailing(s, c).len() > 0 ==> strip_trailing(s, c).last() != c,
        strip_trailing(s, c) == s.take(strip_trailing(s, c).len() as int),
        strip_trailing(s, c).len() <= s.len(),
    decreases s.len(),
{
    if s.len() > 0 && s.last() == c {
        lemma_strip_trailing(s.drop_last(), c);
        assert(s.drop_last().take(strip_trailing(s, c).len() as int) =~= s.take(strip_trailing(s, c).len() as int));
    } else {
        assert(s.take(s.len() as int) =~= s);
    }
}

/// Shortening a numeral twice gives what shortening it once gave, and the result
/// always holds a decimal point.
pub proof fn law_tidy_decimal_idempotent(s: Seq<char>)
    ensures
        tidy_decimal(tidy_decimal(s)) == tidy_decimal(s),
        tidy_decimal(s).contains('.'),
{
    let a = strip_trailing(s, '0');
    lemma_strip_trailing(s, '0');
    let r = tidy_decimal(s);
    if a.len() > 0 && a.last() == '.' {
        let b = a.push('0');
        assert(b[a.len() - 1] == '.');
        assert(b.contains('.'));
        assert(r == b);
        // stripping the one zero gives `a` back, which ends with the point
        assert(b.drop_last() =~= a);
        assert(strip_trailing(a, '0') == a);
        assert(strip_trailing(b, '0') == a);
    } else {
        if a.contains('.') {
            assert(r == a);
            assert(a.len() > 0);
            lemma_strip_trailing(a, '0');
            assert(strip_trailing(a, '0') == a);
        } else {
            let b = a + seq!['.', '0'];
            assert(r == b);
            assert(b[a.len() as int] == '.');
            assert(b.contains('.'));
            let y = a.push('.');
            assert(b.drop_last() =~= y);
            assert(y.last() == '.');
            assert(strip_trailing(y, '0') == y);
            assert(strip_trailing(b, '0') == y);
            assert(y.push('0') =~= b);
        }
    }
}


proof fn lemma_record_at_shape(t: Seq<char>, i: int)
    requires
        0 <= i,
    ensures
        record_at(t, i) matches Some(s) ==> {
            &&& is_reference(t.subrange(s.start, s.id_end))
            &&& t[s.type_end] == '('
            &&& t[s.end - 2] == ')'
            &&& t[s.end - 1] == ';'
        },
{
    lemma_record_at(t, i);
    if let Some(s) = record_at(t, i) {
        lemma_digits_end(t, i + 1);
        let d = digits_end(t, i + 1);
        let w1 = crate::text::skip_white_space(t, d);
        crate::text::lemma_skip_white_space(t, d);
        let w2 = crate::text::skip_white_space(t, w1 + 1);
        let te = type_name_end(t, w2);
        lemma_find_close(t, te + 1);
        let id = t.subrange(s.start, s.id_end);
        assert forall|q: int| 1 <= q < id.len() implies spec_is_decimal_digit(#[trigger] id[q]) by {
            assert(id[q] == t[i + q]);
        }
    }
}

proof fn lemma_records_from_shape(t: Seq<char>, pos: int)
    requires
        0 <= pos,
    ensures
        forall|k: int|
            0 <= k < records_from(t, pos).len() ==> {
                let s = #[trigger] records_from(t, pos)[k];
                &&& is_reference(t.subrange(s.start, s.id_end))
                &&& t[s.type_end] == '('
                &&& t[s.end - 2] == ')'
                &&& t[s.end - 1] == ';'
            },
    decreases t.len() - pos,
{
    if pos < t.len() {
        lemma_record_at(t, pos);
        lemma_record_at_shape(t, pos);
        match record_at(t, pos) {
            Some(s) => {
                lemma_records_from_shape(t, s.end);
                let all = records_from(t, pos);
                let rest = records_from(t, s.end);
                assert(all == seq![s] + rest);
                assert forall|k: int| 1 <= k < all.len() implies all[k] == rest[k - 1] by {}
            },
            None => {
                lemma_records_from_shape(t, pos + 1);
                assert(records_from(t, pos) == records_from(t, pos + 1));
            },
        }
    }
}

/// Every record found in a text has a reference as its id, a `(` after its type
/// name, and ends with `);`.
pub proof fn law_record_shape(t: Seq<char>)
    ensures
        forall|k: int|
            0 <= k < records(t).len() ==> {
                let s = #[trigger] records(t)[k];
                &&& is_reference(t.subrange(s.start, s.id_end))
                &&& t[s.type_end] == '('
                &&& t[s.end - 2] == ')'
                &&& t[s.end - 1] == ';'
            },
{
    lemma_records_from_shape(t, 0);
}

} // verus!
