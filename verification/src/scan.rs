//! The entity records of a STEP file, `#<id> = <TYPE>(<arguments>);`, and the
//! references `#<id>` inside their arguments.
//!
//! A record starts with `#` and decimal digits, then `=` between optional white
//! space, a type name of letters (either case), digits and `_`, and `(`. Its arguments
//! run up to the first `);` after that `(`. Records are found from left to right
//! without overlapping; a search resumes after the end of the record just found.

use vstd::prelude::*;
use crate::text::{
    is_decimal_digit, is_type_char, is_white_space, lemma_skip_white_space, skip_white_space,
    spec_is_decimal_digit, spec_is_type_char,
};

verus! {

/// The end of the run of decimal digits that starts at `i`.
pub open spec fn digits_end(t: Seq<char>, i: int) -> int
    decreases t.len() - i,
{
    if 0 <= i < t.len() && spec_is_decimal_digit(t[i]) {
        digits_end(t, i + 1)
    } else {
        i
    }
}

/// The end of the run of type name characters that starts at `i`.
pub open spec fn type_name_end(t: Seq<char>, i: int) -> int
    decreases t.len() - i,
{
    if 0 <= i < t.len() && spec_is_type_char(t[i]) {
        type_name_end(t, i + 1)
    } else {
        i
    }
}

/// Whether `);` stands at index `k`.
pub open spec fn closes_at(t: Seq<char>, k: int) -> bool {
    0 <= k && k + 1 < t.len() && t[k] == ')' && t[k + 1] == ';'
}

/// The first index at or after `k` where `);` stands.
pub open spec fn find_close(t: Seq<char>, k: int) -> Option<int>
    decreases t.len() - k,
{
    if k < 0 || k + 1 >= t.len() {
        None
    } else if closes_at(t, k) {
        Some(k)
    } else {
        find_close(t, k + 1)
    }
}

/// Where the parts of one record lie in the text: the record is `start..end`, its id
/// `start..id_end`, its type name `type_start..type_end` and its arguments
/// `args_start..args_end`.
pub struct Span {
    pub start: int,
    pub id_end: int,
    pub type_start: int,
    pub type_end: int,
    pub args_start: int,
    pub args_end: int,
    pub end: int,
}

/// The record that starts at index `i`, if one does.
pub open spec fn record_at(t: Seq<char>, i: int) -> Option<Span> {
    if 0 <= i < t.len() && t[i] == '#' {
        let d = digits_end(t, i + 1);
        let w1 = skip_white_space(t, d);
        let w2 = skip_white_space(t, w1 + 1);
        let te = type_name_end(t, w2);
        if d > i + 1 && w1 < t.len() && t[w1] == '=' && te > w2 && te < t.len() && t[te] == '(' {
            match find_close(t, te + 1) {
                Some(k) => Some(
                    Span {
                        start: i,
                        id_end: d,
                        type_start: w2,
                        type_end: te,
                        args_start: te + 1,
                        args_end: k,
                        end: k + 2,
                    },
                ),
                None => None,
            }
        } else {
            None
        }
    } else {
        None
    }
}

pub proof fn lemma_digits_end(t: Seq<char>, i: int)
    requires
        0 <= i <= t.len(),
    ensures
        i <= digits_end(t, i) <= t.len(),
        forall|k: int| i <= k < digits_end(t, i) ==> spec_is_decimal_digit(#[trigger] t[k]),
        digits_end(t, i) < t.len() ==> !spec_is_decimal_digit(t[digits_end(t, i)]),
    decreases t.len() - i,
{
    if i < t.len() && spec_is_decimal_digit(t[i]) {
        lemma_digits_end(t, i + 1);
    }
}

pub proof fn lemma_type_name_end(t: Seq<char>, i: int)
    requires
        0 <= i <= t.len(),
    ensures
        i <= type_name_end(t, i) <= t.len(),
        forall|k: int| i <= k < type_name_end(t, i) ==> spec_is_type_char(#[trigger] t[k]),
        type_name_end(t, i) < t.len() ==> !spec_is_type_char(t[type_name_end(t, i)]),
    decreases t.len() - i,
{
    if i < t.len() && spec_is_type_char(t[i]) {
        lemma_type_name_end(t, i + 1);
    }
}

pub proof fn lemma_find_close(t: Seq<char>, k: int)
    requires
        0 <= k,
    ensures
        find_close(t, k) matches Some(r) ==> k <= r && closes_at(t, r) && forall|j: int|
            k <= j < r ==> !closes_at(t, j),
        find_close(t, k) is None ==> forall|j: int| k <= j ==> !closes_at(t, j),
    decreases t.len() - k,
{
    if k + 1 < t.len() && !closes_at(t, k) {
        lemma_find_close(t, k + 1);
    }
}

/// The bounds that a record found at `i` keeps.
pub proof fn lemma_record_at(t: Seq<char>, i: int)
    requires
        0 <= i,
    ensures
        record_at(t, i) matches Some(s) ==> {
            &&& s.start == i
            &&& i + 1 < s.id_end < s.type_start < s.type_end < s.args_start
            &&& s.args_start <= s.args_end
            &&& s.end == s.args_end + 2
            &&& s.end <= t.len()
        },
{
    if 0 <= i < t.len() && t[i] == '#' {
        let d = digits_end(t, i + 1);
        lemma_digits_end(t, i + 1);
        let w1 = skip_white_space(t, d);
        lemma_skip_white_space(t, d);
        if w1 < t.len() {
            let w2 = skip_white_space(t, w1 + 1);
            lemma_skip_white_space(t, w1 + 1);
            lemma_type_name_end(t, w2);
            let te = type_name_end(t, w2);
            lemma_find_close(t, te + 1);
        }
    }
}

/// The records of `t` found from index `pos` on.
pub open spec fn records_from(t: Seq<char>, pos: int) -> Seq<Span>
    decreases t.len() - pos,
{
    if pos < 0 || pos >= t.len() {
        Seq::empty()
    } else {
        match record_at(t, pos) {
            Some(s) => {
                proof {
                    lemma_record_at(t, pos);
                }
                seq![s] + records_from(t, s.end)
            },
            None => records_from(t, pos + 1),
        }
    }
}

/// The records of `t`, from left to right.
pub open spec fn records(t: Seq<char>) -> Seq<Span> {
    records_from(t, 0)
}


/// Where a record found in a text lies; its view is the `Span` of those indices.
#[derive(Clone, Copy)]
pub struct RecordSpan {
    pub start: usize,
    pub id_end: usize,
    pub type_start: usize,
    pub type_end: usize,
    pub args_start: usize,
    pub args_end: usize,
    pub end: usize,
}

impl View for RecordSpan {
    type V = Span;

    open spec fn view(&self) -> Span {
        Span {
            start: self.start as int,
            id_end: self.id_end as int,
            type_start: self.type_start as int,
            type_end: self.type_end as int,
            args_start: self.args_start as int,
            args_end: self.args_end as int,
            end: self.end as int,
        }
    }
}

fn end_of_digits(t: &[char], i: usize) -> (r: usize)
    requires
        i <= t@.len(),
    ensures
        r == digits_end(t@, i as int),
{
    let mut j = i;
    while j < t.len() && is_decimal_digit(t[j])
        invariant
            i <= j <= t@.len(),
            digits_end(t@, j as int) == digits_end(t@, i as int),
        decreases t@.len() - j,
    {
        j += 1;
    }
    j
}

fn end_of_type_name(t: &[char], i: usize) -> (r: usize)
    requires
        i <= t@.len(),
    ensures
        r == type_name_end(t@, i as int),
{
    let mut j = i;
    while j < t.len() && is_type_char(t[j])
        invariant
            i <= j <= t@.len(),
            type_name_end(t@, j as int) == type_name_end(t@, i as int),
        decreases t@.len() - j,
    {
        j += 1;
    }
    j
}

fn end_of_white_space(t: &[char], i: usize) -> (r: usize)
    requires
        i <= t@.len(),
    ensures
        r == skip_white_space(t@, i as int),
{
    let mut j = i;
    while j < t.len() && is_white_space(t[j])
        invariant
            i <= j <= t@.len(),
            skip_white_space(t@, j as int) == skip_white_space(t@, i as int),
        decreases t@.len() - j,
    {
        j += 1;
    }
    j
}

fn next_close(t: &[char], k: usize) -> (r: Option<usize>)
    ensures
        r matches Some(j) ==> find_close(t@, k as int) == Some(j as int),
        r is None ==> find_close(t@, k as int) is None,
{
    let mut j = k;
    while j < t.len() && j + 1 < t.len()
        invariant
            k <= j,
            find_close(t@, j as int) == find_close(t@, k as int),
        decreases t@.len() - j,
    {
        if t[j] == ')' && t[j + 1] == ';' {
            return Some(j);
        }
        j += 1;
    }
    None
}

/// The record that starts at index `i` of `t`, if one does.
pub fn record_starting_at(t: &[char], i: usize) -> (r: Option<RecordSpan>)
    ensures
        r matches Some(s) ==> record_at(t@, i as int) == Some(s@),
        r is None ==> record_at(t@, i as int) is None,
{
    if i >= t.len() || t[i] != '#' {
        return None;
    }
    let d = end_of_digits(t, i + 1);
    proof {
        lemma_digits_end(t@, i + 1);
    }
    if d == i + 1 {
        return None;
    }
    let w1 = end_of_white_space(t, d);
    proof {
        lemma_skip_white_space(t@, d as int);
    }
    if w1 >= t.len() || t[w1] != '=' {
        return None;
    }
    let w2 = end_of_white_space(t, w1 + 1);
    proof {
        lemma_skip_white_space(t@, w1 + 1);
    }
    let te = end_of_type_name(t, w2);
    proof {
        lemma_type_name_end(t@, w2 as int);
    }
    if te == w2 || te >= t.len() || t[te] != '(' {
        return None;
    }
    match next_close(t, te + 1) {
        Some(k) => {
            proof {
                lemma_find_close(t@, te + 1);
            }
            Some(
                RecordSpan {
                    start: i,
                    id_end: d,
                    type_start: w2,
                    type_end: te,
                    args_start: te + 1,
                    args_end: k,
                    end: k + 2,
                },
            )
        },
        None => None,
    }
}

/// The records of `t`, from left to right, as the spans where they lie.
pub fn scan_records(t: &[char]) -> (r: Vec<RecordSpan>)
    ensures
        r@.map_values(|s: RecordSpan| s@) == records(t@),
{
    let mut r: Vec<RecordSpan> = Vec::new();
    let mut pos: usize = 0;
    while pos < t.len()
        invariant
            pos <= t@.len(),
            r@.map_values(|s: RecordSpan| s@) + records_from(t@, pos as int) == records(t@),
        decreases t@.len() - pos,
    {
        let ghost before = r@;
        match record_starting_at(t, pos) {
            Some(s) => {
                proof {
                    lemma_record_at(t@, pos as int);
                    assert(r@.push(s).map_values(|s: RecordSpan| s@) =~= before.map_values(
                        |s: RecordSpan| s@,
                    ).push(s@));
                    assert(records_from(t@, pos as int) == seq![s@] + records_from(t@, s.end as int));
                    assert(before.map_values(|s: RecordSpan| s@).push(s@) + records_from(t@, s.end as int)
                        =~= before.map_values(|s: RecordSpan| s@) + (seq![s@] + records_from(t@, s.end as int)));
                }
                r.push(s);
                pos = s.end;
            },
            None => {
                pos += 1;
            },
        }
    }
    proof {
        assert(records_from(t@, pos as int) =~= Seq::<Span>::empty());
        assert(r@.map_values(|s: RecordSpan| s@) + Seq::<Span>::empty() =~= r@.map_values(|s: RecordSpan| s@));
    }
    r
}


/// The references `#<digits>` in `t` from index `pos` on: each `#` that decimal
/// digits follow, with all of those digits, found from left to right.
pub open spec fn refs_from(t: Seq<char>, pos: int) -> Seq<Seq<char>>
    decreases t.len() - pos,
{
    if pos < 0 || pos >= t.len() {
        Seq::empty()
    } else if t[pos] == '#' && digits_end(t, pos + 1) > pos + 1 {
        proof {
            lemma_digits_end(t, pos + 1);
        }
        seq![t.subrange(pos, digits_end(t, pos + 1))] + refs_from(t, digits_end(t, pos + 1))
    } else {
        refs_from(t, pos + 1)
    }
}

/// The references in `t`, in order.
pub open spec fn refs(t: Seq<char>) -> Seq<Seq<char>> {
    refs_from(t, 0)
}

/// The references `#<digits>` in `s`, in order.
pub fn extract_refs(s: &[char]) -> (r: Vec<Vec<char>>)
    ensures
        r.deep_view() == refs(s@),
{
    let mut r: Vec<Vec<char>> = Vec::new();
    let mut pos: usize = 0;
    while pos < s.len()
        invariant
            pos <= s@.len(),
            r.deep_view() + refs_from(s@, pos as int) == refs(s@),
        decreases s@.len() - pos,
    {
        let ghost before = r.deep_view();
        if s[pos] == '#' {
            let e = end_of_digits(s, pos + 1);
            proof {
                lemma_digits_end(s@, pos + 1);
            }
            if e > pos + 1 {
                let mut id: Vec<char> = Vec::new();
                let mut k = pos;
                while k < e
                    invariant
                        pos <= k <= e <= s@.len(),
                        id@ == s@.subrange(pos as int, k as int),
                    decreases e - k,
                {
                    id.push(s[k]);
                    k += 1;
                }
                let ghost idv = id@;
                assert(id.deep_view() =~= idv);
                r.push(id);
                proof {
                    assert(r.deep_view() =~= before.push(s@.subrange(pos as int, e as int)));
                    assert(before.push(s@.subrange(pos as int, e as int)) + refs_from(s@, e as int)
                        =~= before + refs_from(s@, pos as int));
                }
                pos = e;
            } else {
                pos += 1;
            }
        } else {
            pos += 1;
        }
    }
    proof {
        assert(r.deep_view() + Seq::<Seq<char>>::empty() =~= r.deep_view());
    }
    r
}


/// Whether the spans `ss` lie in order inside `t`, without overlapping, each with its
/// parts in order.
pub open spec fn spans_in_order(t: Seq<char>, ss: Seq<Span>) -> bool {
    &&& forall|k: int|
        0 <= k < ss.len() ==> {
            let s = #[trigger] ss[k];
            &&& 0 <= s.start
            &&& s.start + 1 < s.id_end < s.type_start < s.type_end < s.args_start
            &&& s.args_start <= s.args_end
            &&& s.end == s.args_end + 2
            &&& s.end <= t.len()
        }
    &&& forall|k: int| 0 < k < ss.len() ==> ss[k - 1].end <= #[trigger] ss[k].start
}

proof fn lemma_records_from_in_order(t: Seq<char>, pos: int)
    requires
        0 <= pos,
    ensures
        spans_in_order(t, records_from(t, pos)),
        forall|k: int| 0 <= k < records_from(t, pos).len() ==> pos <= #[trigger] records_from(t, pos)[k].start,
    decreases t.len() - pos,
{
    if pos < t.len() {
        lemma_record_at(t, pos);
        match record_at(t, pos) {
            Some(s) => {
                lemma_records_from_in_order(t, s.end);
                let all = records_from(t, pos);
                let rest = records_from(t, s.end);
                assert(all == seq![s] + rest);
                assert forall|k: int| 1 <= k < all.len() implies all[k] == rest[k - 1] by {}
                assert(all[0] == s);
                assert forall|k: int| 0 < k < all.len() implies all[k - 1].end <= #[trigger] all[k].start by {
                    if k > 1 {
                        assert(all[k - 1] == rest[k - 2]);
                    }
                }
                assert forall|k: int| 0 <= k < all.len() implies pos <= #[trigger] all[k].start by {
                    if k > 0 {
                        assert(all[k] == rest[k - 1]);
                    }
                }
                assert forall|k: int| 0 <= k < all.len() implies #[trigger] all[k].end <= t.len() && all[k].start + 1 < all[k].id_end && all[k].args_start <= all[k].args_end by {
                    if k > 0 {
                        assert(all[k] == rest[k - 1]);
                    }
                }
            },
            None => {
                lemma_records_from_in_order(t, pos + 1);
                assert(records_from(t, pos) == records_from(t, pos + 1));
            },
        }
    }
}

/// The records of a text lie in order inside it.
pub proof fn lemma_records_in_order(t: Seq<char>)
    ensures
        spans_in_order(t, records(t)),
{
    lemma_records_from_in_order(t, 0);
}

} // verus!
