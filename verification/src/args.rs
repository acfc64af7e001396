//! The argument lists of STEP records: splitting at top-level commas, and the
//! coordinates of a point.

use vstd::prelude::*;
use crate::text::{chars_of, string_of, trim, trim_chars};

verus! {

/// Where a scan of an argument list stands: the pieces finished so far, the piece
/// being read, how many parentheses are open, and whether a quoted string is open.
pub struct SplitState {
    pub pieces: Seq<Seq<char>>,
    pub cur: Seq<char>,
    pub depth: int,
    pub in_str: bool,
}

pub open spec fn split_start() -> SplitState {
    SplitState { pieces: Seq::empty(), cur: Seq::empty(), depth: 0, in_str: false }
}

/// The state after reading `s` from index `i` on, starting in state `st`.
///
/// A `'` opens or closes a quoted string, where `''` stands for a quote; outside
/// quoted strings `(` and `)` open and close a nesting level, and a `,` at level zero
/// ends a piece (trimmed) without joining any piece.
pub open spec fn split_run(s: Seq<char>, i: int, st: SplitState) -> SplitState
    decreases s.len() - i,
{
    if i < 0 || i >= s.len() {
        st
    } else {
        let ch = s[i];
        if ch == '\'' {
            if st.in_str && i + 1 < s.len() && s[i + 1] == '\'' {
                split_run(
                    s,
                    i + 2,
                    SplitState {
                        pieces: st.pieces,
                        cur: st.cur.push('\'').push('\''),
                        depth: st.depth,
                        in_str: st.in_str,
                    },
                )
            } else {
                split_run(
                    s,
                    i + 1,
                    SplitState {
                        pieces: st.pieces,
                        cur: st.cur.push('\''),
                        depth: st.depth,
                        in_str: !st.in_str,
                    },
                )
            }
        } else if !st.in_str && ch == '(' {
            split_run(
                s,
                i + 1,
                SplitState {
                    pieces: st.pieces,
                    cur: st.cur.push(ch),
                    depth: st.depth + 1,
                    in_str: st.in_str,
                },
            )
        } else if !st.in_str && ch == ')' {
            split_run(
                s,
                i + 1,
                SplitState {
                    pieces: st.pieces,
                    cur: st.cur.push(ch),
                    depth: st.depth - 1,
                    in_str: st.in_str,
                },
            )
        } else if !st.in_str && ch == ',' && st.depth == 0 {
            split_run(
                s,
                i + 1,
                SplitState {
                    pieces: st.pieces.push(trim(st.cur)),
                    cur: Seq::empty(),
                    depth: st.depth,
                    in_str: st.in_str,
                },
            )
        } else {
            split_run(
                s,
                i + 1,
                SplitState {
                    pieces: st.pieces,
                    cur: st.cur.push(ch),
                    depth: st.depth,
                    in_str: st.in_str,
                },
            )
        }
    }
}

/// Whether the nesting level stays within the range of an `i32` while `s` is read
/// from index `i` on in state `st`.
pub open spec fn split_depth_fits(s: Seq<char>, i: int, st: SplitState) -> bool
    decreases s.len() - i,
{
    if i < 0 || i >= s.len() {
        true
    } else {
        let ch = s[i];
        if ch == '\'' {
            if st.in_str && i + 1 < s.len() && s[i + 1] == '\'' {
                split_depth_fits(
                    s,
                    i + 2,
                    SplitState {
                        pieces: st.pieces,
                        cur: st.cur.push('\'').push('\''),
                        depth: st.depth,
                        in_str: st.in_str,
                    },
                )
            } else {
                split_depth_fits(
                    s,
                    i + 1,
                    SplitState {
                        pieces: st.pieces,
                        cur: st.cur.push('\''),
                        depth: st.depth,
                        in_str: !st.in_str,
                    },
                )
            }
        } else if !st.in_str && ch == '(' {
            st.depth + 1 <= i32::MAX && split_depth_fits(
                s,
                i + 1,
                SplitState {
                    pieces: st.pieces,
                    cur: st.cur.push(ch),
                    depth: st.depth + 1,
                    in_str: st.in_str,
                },
            )
        } else if !st.in_str && ch == ')' {
            st.depth - 1 >= i32::MIN && split_depth_fits(
                s,
                i + 1,
                SplitState {
                    pieces: st.pieces,
                    cur: st.cur.push(ch),
                    depth: st.depth - 1,
                    in_str: st.in_str,
                },
            )
        } else if !st.in_str && ch == ',' && st.depth == 0 {
            split_depth_fits(
                s,
                i + 1,
                SplitState {
                    pieces: st.pieces.push(trim(st.cur)),
                    cur: Seq::empty(),
                    depth: st.depth,
                    in_str: st.in_str,
                },
            )
        } else {
            split_depth_fits(
                s,
                i + 1,
                SplitState {
                    pieces: st.pieces,
                    cur: st.cur.push(ch),
                    depth: st.depth,
                    in_str: st.in_str,
                },
            )
        }
    }
}

/// The pieces of an argument list: split at the commas that stand outside quoted
/// strings and parentheses, each piece trimmed.
pub open spec fn split_pieces(s: Seq<char>) -> Seq<Seq<char>> {
    let end = split_run(s, 0, split_start());
    end.pieces.push(trim(end.cur))
}

/// One step of `raw_run` on the character `ch`.
pub open spec fn raw_step(st: SplitState, ch: char) -> SplitState {
    if ch == '\'' {
        SplitState { pieces: st.pieces, cur: st.cur.push(ch), depth: st.depth, in_str: !st.in_str }
    } else if !st.in_str && ch == '(' {
        SplitState { pieces: st.pieces, cur: st.cur.push(ch), depth: st.depth + 1, in_str: st.in_str }
    } else if !st.in_str && ch == ')' {
        SplitState { pieces: st.pieces, cur: st.cur.push(ch), depth: st.depth - 1, in_str: st.in_str }
    } else if !st.in_str && ch == ',' && st.depth == 0 {
        SplitState { pieces: st.pieces.push(st.cur), cur: Seq::empty(), depth: st.depth, in_str: st.in_str }
    } else {
        SplitState { pieces: st.pieces, cur: st.cur.push(ch), depth: st.depth, in_str: st.in_str }
    }
}

/// The state after reading `s` from index `i` on in state `st`, one character at a
/// time, with every `'` opening or closing a quoted string and each piece kept as it
/// stands. A `''` inside a quoted string closes and reopens it, which leaves the state
/// that `split_run` reaches.
pub open spec fn raw_run(s: Seq<char>, i: int, st: SplitState) -> SplitState
    decreases s.len() - i,
{
    if i < 0 || i >= s.len() {
        st
    } else {
        raw_run(s, i + 1, raw_step(st, s[i]))
    }
}

/// The pieces of an argument list between the commas that stand outside quoted strings
/// and parentheses, untrimmed.
pub open spec fn raw_pieces(s: Seq<char>) -> Seq<Seq<char>> {
    let end = raw_run(s, 0, split_start());
    end.pieces.push(end.cur)
}

/// Whether splitting `s` keeps its nesting level within an `i32`.
pub open spec fn split_fits(s: Seq<char>) -> bool {
    split_depth_fits(s, 0, split_start())
}

/// Splits an argument list at its top-level commas and trims each piece.
pub fn split_args(s: &[char]) -> (r: Vec<Vec<char>>)
    requires
        split_fits(s@),
    ensures
        r.deep_view() == split_pieces(s@),
{
    match try_split_args(s) {
        Some(r) => r,
        None => {
            proof {
                assert(false);
            }
            Vec::new()
        },
    }
}

/// Splits an argument list at its top-level commas and trims each piece, when the
/// nesting level stays within an `i32`; `None` when it does not.
pub fn try_split_args(s: &[char]) -> (r: Option<Vec<Vec<char>>>)
    ensures
        r matches Some(v) ==> split_fits(s@) && v.deep_view() == split_pieces(s@),
        r is None ==> !split_fits(s@),
{
    let mut out: Vec<Vec<char>> = Vec::new();
    let mut cur: Vec<char> = Vec::new();
    let mut depth: i32 = 0;
    let mut in_str = false;
    let n = s.len();
    let mut i: usize = 0;
    proof {
        assert(out.deep_view() =~= split_start().pieces);
        assert(cur@ =~= split_start().cur);
    }
    while i < n
        invariant
            n == s@.len(),
            i <= n,
            split_run(s@, i as int, SplitState { pieces: out.deep_view(), cur: cur@, depth: depth as int, in_str })
                == split_run(s@, 0, split_start()),
            split_depth_fits(s@, i as int, SplitState { pieces: out.deep_view(), cur: cur@, depth: depth as int, in_str })
                == split_fits(s@),
        decreases n - i,
    {
        let ghost pieces0 = out.deep_view();
        let ghost cur0 = cur@;
        let ch = s[i];
        if ch == '\'' {
            cur.push(ch);
            if in_str && i + 1 < n && s[i + 1] == '\'' {
                cur.push('\'');
                i += 1;
            } else {
                in_str = !in_str;
            }
        } else if !in_str {
            if ch == '(' {
                if depth == i32::MAX {
                    return None;
                }
                depth += 1;
                cur.push(ch);
            } else if ch == ')' {
                if depth == i32::MIN {
                    return None;
                }
                depth -= 1;
                cur.push(ch);
            } else if ch == ',' && depth == 0 {
                let piece = trim_chars(cur.as_slice());
                let ghost pv = piece@;
                assert(piece.deep_view() =~= pv);
                out.push(piece);
                cur.clear();
                assert(out.deep_view() =~= pieces0.push(trim(cur0)));
                assert(cur@ =~= Seq::<char>::empty());
            } else {
                cur.push(ch);
            }
        } else {
            cur.push(ch);
        }
        assert(out.deep_view() =~= pieces0 || out.deep_view() =~= pieces0.push(trim(cur0)));
        i += 1;
    }
    let last = trim_chars(cur.as_slice());
    let ghost lv = last@;
    assert(last.deep_view() =~= lv);
    out.push(last);
    Some(out)
}

/// The pieces of `s` between the occurrences of `sep`, as `str::split` with a character
/// gives them, when `s` is read from index `i` on with `done` finished and `cur` begun.
pub open spec fn split_on_run(s: Seq<char>, sep: char, i: int, done: Seq<Seq<char>>, cur: Seq<char>) -> Seq<Seq<char>>
    decreases s.len() - i,
{
    if i < 0 || i >= s.len() {
        done.push(cur)
    } else if s[i] == sep {
        split_on_run(s, sep, i + 1, done.push(cur), Seq::empty())
    } else {
        split_on_run(s, sep, i + 1, done, cur.push(s[i]))
    }
}

/// The pieces of `s` between the occurrences of `sep`.
pub open spec fn split_on(s: Seq<char>, sep: char) -> Seq<Seq<char>> {
    split_on_run(s, sep, 0, Seq::empty(), Seq::empty())
}

/// `s` without one pair of enclosing parentheses, if it has them.
pub open spec fn strip_parens(s: Seq<char>) -> Seq<char> {
    if s.len() >= 2 && s[0] == '(' && s[s.len() - 1] == ')' {
        s.subrange(1, s.len() - 1)
    } else {
        s
    }
}

/// The texts of the coordinates of a point: its argument list, trimmed, without its
/// enclosing parentheses, split at every comma, each piece trimmed.
pub open spec fn coordinate_texts(args: Seq<char>) -> Seq<Seq<char>> {
    split_on(strip_parens(trim(args)), ',').map_values(|p: Seq<char>| trim(p))
}

/// The texts of the coordinates of a point whose argument list is `args`.
pub fn point_coordinates(args: &[char]) -> (r: Vec<Vec<char>>)
    ensures
        r.deep_view() == coordinate_texts(args@),
{
    let t = trim_chars(args);
    let mut inner: Vec<char> = Vec::new();
    let n = t.len();
    let (a, b): (usize, usize) = if n >= 2 && t[0] == '(' && t[n - 1] == ')' {
        (1, n - 1)
    } else {
        (0, n)
    };
    let mut k = a;
    while k < b
        invariant
            a <= k <= b <= n == t@.len(),
            inner@ == t@.subrange(a as int, k as int),
        decreases b - k,
    {
        inner.push(t[k]);
        k += 1;
    }
    assert(inner@ =~= strip_parens(t@));
    let ghost full = split_on(inner@, ',');
    let mut r: Vec<Vec<char>> = Vec::new();
    let mut cur: Vec<char> = Vec::new();
    let mut i: usize = 0;
    let m = inner.len();
    proof {
        assert(r.deep_view() =~= Seq::<Seq<char>>::empty().map_values(|p: Seq<char>| trim(p)));
    }
    let ghost done: Seq<Seq<char>> = Seq::empty();
    while i < m
        invariant
            m == inner@.len(),
            i <= m,
            split_on_run(inner@, ',', i as int, done, cur@) == full,
            r.deep_view() == done.map_values(|p: Seq<char>| trim(p)),
        decreases m - i,
    {
        if inner[i] == ',' {
            let piece = trim_chars(cur.as_slice());
            let ghost pv = piece@;
            assert(piece.deep_view() =~= pv);
            let ghost old_r = r.deep_view();
            r.push(piece);
            proof {
                assert(r.deep_view() =~= old_r.push(pv));
                assert(done.push(cur@).map_values(|p: Seq<char>| trim(p)) =~= done.map_values(|p: Seq<char>| trim(p)).push(trim(cur@)));
                assert(r.deep_view() =~= done.push(cur@).map_values(|p: Seq<char>| trim(p)));
                done = done.push(cur@);
            }
            cur.clear();
            assert(cur@ =~= Seq::<char>::empty());
        } else {
            cur.push(inner[i]);
        }
        i += 1;
    }
    let piece = trim_chars(cur.as_slice());
    let ghost pv = piece@;
    assert(piece.deep_view() =~= pv);
    let ghost old_r = r.deep_view();
    r.push(piece);
    proof {
        assert(r.deep_view() =~= old_r.push(pv));
        assert(done.push(cur@).map_values(|p: Seq<char>| trim(p)) =~= done.map_values(|p: Seq<char>| trim(p)).push(trim(cur@)));
        assert(r.deep_view() =~= done.push(cur@).map_values(|p: Seq<char>| trim(p)));
    }
    r
}

/// `s` without the characters `c` that end it.
pub open spec fn strip_trailing(s: Seq<char>, c: char) -> Seq<char>
    decreases s.len(),
{
    if s.len() > 0 && s.last() == c {
        strip_trailing(s.drop_last(), c)
    } else {
        s
    }
}

/// A fixed-point numeral with its trailing zeros removed, keeping one digit after
/// the point, and with `.0` appended where no point is left.
pub open spec fn tidy_decimal(s: Seq<char>) -> Seq<char> {
    let a = strip_trailing(s, '0');
    let b = if a.len() > 0 && a.last() == '.' {
        a.push('0')
    } else {
        a
    };
    if b.contains('.') {
        b
    } else {
        b + seq!['.', '0']
    }
}

/// Shortens a numeral written with a fixed number of decimals: trailing zeros go,
/// a bare point gets one `0` back, and a numeral without a point gets `.0`.
pub fn tidy_decimal_chars(s: &[char]) -> (r: Vec<char>)
    ensures
        r@ == tidy_decimal(s@),
{
    let mut e = s.len();
    assert(s@.take(e as int) =~= s@);
    while e > 0 && s[e - 1] == '0'
        invariant
            e <= s@.len(),
            strip_trailing(s@.take(e as int), '0') == strip_trailing(s@, '0'),
        decreases e,
    {
        assert(s@.take(e as int).drop_last() =~= s@.take(e - 1));
        e -= 1;
    }
    proof {
        if s@.len() == e {
            assert(s@.take(e as int) =~= s@);
        }
    }
    let mut r: Vec<char> = Vec::new();
    let mut k: usize = 0;
    while k < e
        invariant
            k <= e <= s@.len(),
            r@ == s@.take(k as int),
        decreases e - k,
    {
        r.push(s[k]);
        k += 1;
        assert(r@ =~= s@.take(k as int));
    }
    assert(r@ =~= strip_trailing(s@, '0'));
    if r.len() > 0 && r[r.len() - 1] == '.' {
        r.push('0');
    }
    let mut has_point = false;
    let mut j: usize = 0;
    while j < r.len()
        invariant
            j <= r@.len(),
            has_point == exists|q: int| 0 <= q < j && r@[q] == '.',
        decreases r@.len() - j,
    {
        if r[j] == '.' {
            has_point = true;
        }
        j += 1;
    }
    if !has_point {
        let ghost b = r@;
        r.push('.');
        r.push('0');
        assert(r@ =~= b + seq!['.', '0']);
    }
    r
}

/// Shortens a numeral written with a fixed number of decimals (see `tidy_decimal`).
pub fn tidy_number_text(s: &str) -> (r: String)
    ensures
        r@ == tidy_decimal(s@),
{
    let chars = chars_of(s);
    let t = tidy_decimal_chars(chars.as_slice());
    string_of(t.as_slice())
}

} // verus!
