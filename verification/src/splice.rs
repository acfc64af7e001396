//! Rewriting a text record by record, and placing new records before the end of the
//! data section.

use vstd::prelude::*;
use crate::emit::{join, join_chars, push_chars};
use crate::scan::{lemma_records_in_order, records, spans_in_order, RecordSpan, Span};
use crate::table::{same_chars, copy_range};
use crate::text::{char_width, last_occurrence, rfind_chars, to_uppercase, uppercase, utf8_len, chars_of};

verus! {

/// The text that takes the place of the record with id `id`, the first that `repl`
/// lists for it.
pub open spec fn replacement_for_from(repl: Seq<(Seq<char>, Seq<char>)>, id: Seq<char>, k: int) -> Option<Seq<char>>
    decreases repl.len() - k,
{
    if k < 0 || k >= repl.len() {
        None
    } else if repl[k].0 == id {
        Some(repl[k].1)
    } else {
        replacement_for_from(repl, id, k + 1)
    }
}

pub open spec fn replacement_for(repl: Seq<(Seq<char>, Seq<char>)>, id: Seq<char>) -> Option<Seq<char>> {
    replacement_for_from(repl, id, 0)
}

/// What stands in the new text for the record at `s`: its replacement, or the record.
pub open spec fn piece(t: Seq<char>, s: Span, repl: Seq<(Seq<char>, Seq<char>)>) -> Seq<char> {
    match replacement_for(repl, t.subrange(s.start, s.id_end)) {
        Some(x) => x,
        None => t.subrange(s.start, s.end),
    }
}

/// Where the text between records resumes before the record `k`.
pub open spec fn prev_end(ss: Seq<Span>, k: int) -> int {
    if k <= 0 {
        0
    } else {
        ss[k - 1].end
    }
}

/// The new text up to the end of the record `k - 1`.
pub open spec fn spliced_upto(t: Seq<char>, ss: Seq<Span>, repl: Seq<(Seq<char>, Seq<char>)>, k: int) -> Seq<char>
    decreases k,
{
    if k <= 0 {
        Seq::empty()
    } else {
        spliced_upto(t, ss, repl, k - 1) + t.subrange(prev_end(ss, k - 1), ss[k - 1].start) + piece(
            t,
            ss[k - 1],
            repl,
        )
    }
}

/// `t` with every record at `ss` whose id `repl` lists replaced, everything between
/// and after the records kept as it is.
pub open spec fn spliced(t: Seq<char>, ss: Seq<Span>, repl: Seq<(Seq<char>, Seq<char>)>) -> Seq<char> {
    spliced_upto(t, ss, repl, ss.len() as int) + t.subrange(prev_end(ss, ss.len() as int), t.len() as int)
}

/// A record to put in place of the record with id `id`.
pub struct Replacement {
    pub id: Vec<char>,
    pub text: Vec<char>,
}

pub open spec fn replacements_view(v: Seq<Replacement>) -> Seq<(Seq<char>, Seq<char>)> {
    v.map_values(|r: Replacement| (r.id@, r.text@))
}

fn find_replacement<'a>(repl: &'a Vec<Replacement>, id: &[char]) -> (r: Option<&'a Vec<char>>)
    ensures
        r matches Some(x) ==> replacement_for(replacements_view(repl@), id@) == Some(x@),
        r is None ==> replacement_for(replacements_view(repl@), id@) is None,
{
    let ghost v = replacements_view(repl@);
    let mut k: usize = 0;
    while k < repl.len()
        invariant
            k <= repl@.len(),
            v == replacements_view(repl@),
            replacement_for_from(v, id@, k as int) == replacement_for(v, id@),
        decreases repl@.len() - k,
    {
        assert(v[k as int] == (repl@[k as int].id@, repl@[k as int].text@));
        if same_chars(repl[k].id.as_slice(), id) {
            return Some(&repl[k].text);
        }
        k += 1;
    }
    None
}

/// `t` with the records that `repl` lists replaced.
pub fn splice_text(t: &[char], spans: &Vec<RecordSpan>, repl: &Vec<Replacement>) -> (r: Vec<char>)
    requires
        spans@.map_values(|s: RecordSpan| s@) == records(t@),
    ensures
        r@ == spliced(t@, records(t@), replacements_view(repl@)),
{
    let ghost ss = records(t@);
    let ghost rv = replacements_view(repl@);
    proof {
        lemma_records_in_order(t@);
    }
    let mut r: Vec<char> = Vec::new();
    let mut last: usize = 0;
    let mut k: usize = 0;
    while k < spans.len()
        invariant
            k <= spans@.len(),
            ss == records(t@),
            rv == replacements_view(repl@),
            spans@.map_values(|s: RecordSpan| s@) == ss,
            spans_in_order(t@, ss),
            last == prev_end(ss, k as int),
            r@ == spliced_upto(t@, ss, rv, k as int),
        decreases spans@.len() - k,
    {
        let s = spans[k];
        assert(ss[k as int] == s@);
        proof {
            if k > 0 {
                assert(ss[k - 1].end <= ss[k as int].start);
            }
        }
        let gap = copy_range(t, last, s.start);
        push_chars(&mut r, gap.as_slice());
        let id = copy_range(t, s.start, s.id_end);
        match find_replacement(repl, id.as_slice()) {
            Some(x) => {
                push_chars(&mut r, x.as_slice());
            },
            None => {
                let whole = copy_range(t, s.start, s.end);
                push_chars(&mut r, whole.as_slice());
            },
        }
        last = s.end;
        k += 1;
    }
    let tail = copy_range(t, last, t.len());
    push_chars(&mut r, tail.as_slice());
    r
}

/// The first index from `k` on at which the characters of `r` before it take `b` bytes
/// of UTF-8.
pub open spec fn boundary_from(r: Seq<char>, b: nat, k: int) -> Option<int>
    decreases r.len() + 1 - k,
{
    if k < 0 || k > r.len() {
        None
    } else if utf8_len(r.take(k)) == b {
        Some(k)
    } else {
        boundary_from(r, b, k + 1)
    }
}

/// Where the new records go in a text `r`.
pub enum EndPosition {
    /// No `ENDSEC;` in the upper case of `r`.
    Missing,
    /// The byte offset of the last `ENDSEC;` in the upper case of `r` is not one at
    /// which a character of `r` begins.
    Misaligned,
    /// Before the character `k` of `r`.
    At(int),
}

/// Where the new records go in `r`, given `u`, the upper case of `r`: the last
/// `ENDSEC;` is sought in `u`, and its byte offset there is taken as a byte offset
/// into `r`.
pub open spec fn end_position_with(r: Seq<char>, u: Seq<char>) -> EndPosition {
    match last_occurrence(u, "ENDSEC;"@) {
        None => EndPosition::Missing,
        Some(j) => match boundary_from(r, utf8_len(u.take(j)), 0) {
            Some(k) => EndPosition::At(k),
            None => EndPosition::Misaligned,
        },
    }
}

/// Where the new records go in `r`: the last `ENDSEC;` is sought in the upper case of
/// the text, and its byte offset there is taken as a byte offset into the text itself.
pub open spec fn end_position(r: Seq<char>) -> EndPosition {
    end_position_with(r, uppercase(r))
}

/// `r` with the lines `lines` placed before its character `k`, each on a line of its own.
pub open spec fn with_block(r: Seq<char>, k: int, lines: Seq<Seq<char>>) -> Seq<char> {
    r.take(k) + seq!['\n'] + join(lines, seq!['\n']) + seq!['\n'] + r.skip(k)
}

fn width_of(c: char) -> (w: u8)
    ensures
        w as nat == char_width(c),
{
    let u = c as u32;
    if u < 0x80 {
        1
    } else if u < 0x800 {
        2
    } else if u < 0x10000 {
        3
    } else {
        4
    }
}

/// The UTF-8 length of the first `k` characters of `s`.
fn prefix_width(s: &[char], k: usize) -> (w: u128)
    requires
        k <= s@.len(),
    ensures
        w as nat == utf8_len(s@.take(k as int)),
{
    let mut acc: u128 = 0;
    let mut i: usize = 0;
    assert(s@.take(0) =~= Seq::<char>::empty());
    while i < k
        invariant
            i <= k <= s@.len(),
            acc as nat == utf8_len(s@.take(i as int)),
            acc <= 4 * i,
        decreases k - i,
    {
        assert(s@.take(i + 1).drop_last() =~= s@.take(i as int));
        acc = acc + width_of(s[i]) as u128;
        i += 1;
    }
    acc
}

/// Where the new records go in `r`, given `upper`, the upper case of `r` (see
/// `end_position_with`): `Ok` with the index of the character before which they go,
/// `Err(true)` when `upper` has no `ENDSEC;`, `Err(false)` when its byte offset there
/// is not one at which a character of `r` begins.
pub fn place_before_end(r: &[char], upper: &[char]) -> (p: Result<usize, bool>)
    ensures
        p matches Ok(k) ==> end_position_with(r@, upper@) == EndPosition::At(k as int),
        p == Err::<usize, bool>(true) ==> end_position_with(r@, upper@) == EndPosition::Missing,
        p == Err::<usize, bool>(false) ==> end_position_with(r@, upper@) == EndPosition::Misaligned,
{
    let marker = chars_of("ENDSEC;");
    let j = match rfind_chars(upper, marker.as_slice()) {
        Some(j) => j,
        None => return Err(true),
    };
    proof {
        crate::text::lemma_last_occurrence_before(upper@, marker@, upper@.len() + 1int);
    }
    let target = prefix_width(upper, j);
    let mut acc: u128 = 0;
    let mut k: usize = 0;
    assert(r@.take(0) =~= Seq::<char>::empty());
    let ghost outcome = match boundary_from(r@, target as nat, 0) {
        Some(k) => EndPosition::At(k),
        None => EndPosition::Misaligned,
    };
    assert(end_position_with(r@, upper@) == outcome);
    loop
        invariant
            end_position_with(r@, upper@) == outcome,
            outcome == (match boundary_from(r@, target as nat, 0) {
                Some(k) => EndPosition::At(k),
                None => EndPosition::Misaligned,
            }),
            k <= r@.len(),
            acc as nat == utf8_len(r@.take(k as int)),
            acc <= 4 * k,
            boundary_from(r@, target as nat, k as int) == boundary_from(r@, target as nat, 0),
        decreases r@.len() - k,
    {
        if acc == target {
            return Ok(k);
        }
        if k == r.len() {
            assert(boundary_from(r@, target as nat, k + 1) is None);
            return Err(false);
        }
        assert(r@.take(k + 1).drop_last() =~= r@.take(k as int));
        acc = acc + width_of(r[k]) as u128;
        k += 1;
    }
}

/// Where the new records go in `r` (see `end_position`).
pub fn find_end_position(r: &[char]) -> (p: Result<usize, bool>)
    ensures
        p matches Ok(k) ==> end_position(r@) == EndPosition::At(k as int),
        p == Err::<usize, bool>(true) ==> end_position(r@) == EndPosition::Missing,
        p == Err::<usize, bool>(false) ==> end_position(r@) == EndPosition::Misaligned,
{
    let u = to_uppercase(r);
    place_before_end(r, u.as_slice())
}

/// `r` with `lines` placed before its character `k`.
pub fn insert_block(r: &[char], k: usize, lines: &Vec<Vec<char>>) -> (out: Vec<char>)
    requires
        k <= r@.len(),
    ensures
        out@ == with_block(r@, k as int, lines.deep_view()),
{
    let mut out = copy_range(r, 0, k);
    out.push('\n');
    let mut sep: Vec<char> = Vec::new();
    sep.push('\n');
    let j = join_chars(lines, sep.as_slice());
    assert(sep@ =~= seq!['\n']);
    push_chars(&mut out, j.as_slice());
    out.push('\n');
    let tail = copy_range(r, k, r.len());
    push_chars(&mut out, tail.as_slice());
    assert(out@ =~= with_block(r@, k as int, lines.deep_view()));
    out
}


proof fn lemma_boundary_from(r: Seq<char>, b: nat, k: int)
    requires
        0 <= k,
    ensures
        boundary_from(r, b, k) matches Some(m) ==> k <= m <= r.len(),
    decreases r.len() + 1 - k,
{
    if k <= r.len() && utf8_len(r.take(k)) != b {
        lemma_boundary_from(r, b, k + 1);
    }
}

/// The place for the new records lies inside the text.
pub proof fn lemma_end_position_bound(r: Seq<char>)
    ensures
        end_position(r) matches EndPosition::At(k) ==> 0 <= k <= r.len(),
{
    let u = uppercase(r);
    if let Some(j) = last_occurrence(u, "ENDSEC;"@) {
        lemma_boundary_from(r, utf8_len(u.take(j)), 0);
    }
    assert(end_position(r) == end_position_with(r, u));
}

} // verus!
