//! What the conversion reads from the entities: the body context, the numbers already
//! taken, the openings with their walls, and the geometry texts of each opening.

use vstd::prelude::*;
use crate::scan::{extract_refs, refs};
use crate::table::{copy_range, entries_view, same_chars, Entry, Rec};
use crate::text::{
    chars_of, contains_chars, contains_seq, parse_decimal, parse_usize,
    to_uppercase, uppercase,
};

verus! {

/// Whether an entity is the geometric subcontext of the model's bodies: an
/// `IFCGEOMETRICREPRESENTATIONSUBCONTEXT` whose upper-cased arguments hold both
/// `'BODY'` and `'MODEL'`.
pub open spec fn is_body_context(r: Rec) -> bool {
    &&& r.ty == "IFCGEOMETRICREPRESENTATIONSUBCONTEXT"@
    &&& contains_seq(uppercase(r.args), "'BODY'"@)
    &&& contains_seq(uppercase(r.args), "'MODEL'"@)
}

/// The id of the first body context from index `j` on.
pub open spec fn body_context_from(tbl: Seq<Rec>, j: int) -> Option<Seq<char>>
    decreases tbl.len() - j,
{
    if j < 0 || j >= tbl.len() {
        None
    } else if is_body_context(tbl[j]) {
        Some(tbl[j].id)
    } else {
        body_context_from(tbl, j + 1)
    }
}

/// The id of the first body context of a table.
pub open spec fn body_context(tbl: Seq<Rec>) -> Option<Seq<char>> {
    body_context_from(tbl, 0)
}

/// The number that an id `#<digits>` carries, when its digits read as a `usize`.
pub open spec fn id_number(id: Seq<char>) -> Option<usize> {
    if id.len() > 0 && id[0] == '#' {
        parse_usize(id.drop_first())
    } else {
        None
    }
}

/// The largest number that the ids from index `j` on carry, or 0.
pub open spec fn max_id_from(tbl: Seq<Rec>, j: int) -> usize
    decreases tbl.len() - j,
{
    if j < 0 || j >= tbl.len() {
        0
    } else {
        let rest = max_id_from(tbl, j + 1);
        match id_number(tbl[j].id) {
            Some(n) => if n > rest {
                n
            } else {
                rest
            },
            None => rest,
        }
    }
}

/// The largest number that an id of the table carries, or 0.
pub open spec fn max_id(tbl: Seq<Rec>) -> usize {
    max_id_from(tbl, 0)
}

/// The index of the pair whose opening is `op`.
pub open spec fn host_index_from(hs: Seq<(Seq<char>, Seq<char>)>, op: Seq<char>, k: int) -> Option<int>
    decreases hs.len() - k,
{
    if k < 0 || k >= hs.len() {
        None
    } else if hs[k].0 == op {
        Some(k)
    } else {
        host_index_from(hs, op, k + 1)
    }
}

/// The pairs with `(op, wall)` entered: it takes the place of the pair of the same
/// opening, or comes last.
pub open spec fn host_insert(hs: Seq<(Seq<char>, Seq<char>)>, op: Seq<char>, wall: Seq<char>) -> Seq<(Seq<char>, Seq<char>)> {
    match host_index_from(hs, op, 0) {
        Some(k) => hs.update(k, (op, wall)),
        None => hs.push((op, wall)),
    }
}

/// Whether an entity relates an opening to the element it voids: an
/// `IFCRELVOIDSELEMENT` with at least two references.
pub open spec fn is_void_relation(r: Rec) -> bool {
    r.ty == "IFCRELVOIDSELEMENT"@ && refs(r.args).len() >= 2
}

/// The openings and their walls that the first `j` entities relate: the last
/// reference of a void relation is the opening, the one before it the wall.
pub open spec fn hosts_upto(tbl: Seq<Rec>, j: int) -> Seq<(Seq<char>, Seq<char>)>
    decreases j,
{
    if j <= 0 || j > tbl.len() {
        Seq::empty()
    } else {
        let hs = hosts_upto(tbl, j - 1);
        let r = tbl[j - 1];
        if is_void_relation(r) {
            let rf = refs(r.args);
            host_insert(hs, rf[rf.len() - 1], rf[rf.len() - 2])
        } else {
            hs
        }
    }
}

/// The openings of a table with their walls, each opening once, in the order in
/// which the relations first name them; a later relation of the same opening
/// gives its wall.
pub open spec fn opening_hosts(tbl: Seq<Rec>) -> Seq<(Seq<char>, Seq<char>)> {
    hosts_upto(tbl, tbl.len() as int)
}

/// The literal characters of `s`.
fn lit(s: &str) -> (r: Vec<char>)
    ensures
        r@ == s@,
{
    chars_of(s)
}

/// The id of the first body context of a table.
pub fn find_body_context(tbl: &Vec<Entry>) -> (r: Option<Vec<char>>)
    ensures
        r matches Some(id) ==> body_context(entries_view(tbl@)) == Some(id@),
        r is None ==> body_context(entries_view(tbl@)) is None,
{
    let ghost v = entries_view(tbl@);
    let kind = lit("IFCGEOMETRICREPRESENTATIONSUBCONTEXT");
    let body = lit("'BODY'");
    let model = lit("'MODEL'");
    let mut j: usize = 0;
    while j < tbl.len()
        invariant
            v == entries_view(tbl@),
            j <= tbl@.len(),
            body_context_from(v, j as int) == body_context(v),
            kind@ == "IFCGEOMETRICREPRESENTATIONSUBCONTEXT"@,
            body@ == "'BODY'"@,
            model@ == "'MODEL'"@,
        decreases tbl@.len() - j,
    {
        let e = &tbl[j];
        assert(v[j as int] == e@);
        if same_chars(e.ty.as_slice(), kind.as_slice()) {
            let upper = to_uppercase(e.args.as_slice());
            if contains_chars(upper.as_slice(), body.as_slice()) && contains_chars(
                upper.as_slice(),
                model.as_slice(),
            ) {
                let mut id: Vec<char> = Vec::new();
                id.extend_from_slice(e.id.as_slice());
                assert(id@ =~= e.id@);
                return Some(id);
            }
        }
        j += 1;
    }
    None
}

/// The largest number that an id of the table carries, or 0.
pub fn find_max_id(tbl: &Vec<Entry>) -> (r: usize)
    ensures
        r == max_id(entries_view(tbl@)),
{
    let ghost v = entries_view(tbl@);
    let mut best: usize = 0;
    let mut j: usize = tbl.len();
    while j > 0
        invariant
            v == entries_view(tbl@),
            j <= tbl@.len(),
            best == max_id_from(v, j as int),
        decreases j,
    {
        j -= 1;
        let id = &tbl[j].id;
        assert(v[j as int].id == id@);
        if id.len() > 0 && id[0] == '#' {
            let digits = copy_range(id.as_slice(), 1, id.len());
            assert(digits@ =~= id@.drop_first());
            match parse_decimal(digits.as_slice()) {
                Some(n) => {
                    if n > best {
                        best = n;
                    }
                },
                None => {},
            }
        }
    }
    best
}


/// An opening and the wall that hosts it, by their ids.
pub struct HostPair {
    pub opening: Vec<char>,
    pub wall: Vec<char>,
}

pub open spec fn hosts_view(v: Seq<HostPair>) -> Seq<(Seq<char>, Seq<char>)> {
    v.map_values(|h: HostPair| (h.opening@, h.wall@))
}

fn copy_chars(s: &[char]) -> (r: Vec<char>)
    ensures
        r@ == s@,
{
    copy_range(s, 0, s.len())
}

pub proof fn lemma_host_index_from(hs: Seq<(Seq<char>, Seq<char>)>, op: Seq<char>, k: int)
    requires
        0 <= k,
    ensures
        host_index_from(hs, op, k) matches Some(m) ==> k <= m < hs.len() && hs[m].0 == op
            && forall|q: int| k <= q < m ==> hs[q].0 != op,
        host_index_from(hs, op, k) is None ==> forall|q: int| k <= q < hs.len() ==> hs[q].0 != op,
    decreases hs.len() - k,
{
    if k < hs.len() && hs[k].0 != op {
        lemma_host_index_from(hs, op, k + 1);
    }
}

fn find_host(hs: &Vec<HostPair>, op: &[char]) -> (r: Option<usize>)
    ensures
        r matches Some(k) ==> host_index_from(hosts_view(hs@), op@, 0) == Some(k as int),
        r is None ==> host_index_from(hosts_view(hs@), op@, 0) is None,
{
    let ghost v = hosts_view(hs@);
    let mut k: usize = 0;
    while k < hs.len()
        invariant
            v == hosts_view(hs@),
            k <= hs@.len(),
            host_index_from(v, op@, k as int) == host_index_from(v, op@, 0),
        decreases hs@.len() - k,
    {
        if same_chars(hs[k].opening.as_slice(), op) {
            return Some(k);
        }
        k += 1;
    }
    None
}

/// The openings of a table with their walls.
pub fn find_opening_hosts(tbl: &Vec<Entry>) -> (r: Vec<HostPair>)
    ensures
        hosts_view(r@) == opening_hosts(entries_view(tbl@)),
{
    let ghost v = entries_view(tbl@);
    let kind = lit("IFCRELVOIDSELEMENT");
    let mut hs: Vec<HostPair> = Vec::new();
    let mut j: usize = 0;
    proof {
        assert(hosts_view(hs@) =~= hosts_upto(v, 0));
    }
    while j < tbl.len()
        invariant
            v == entries_view(tbl@),
            j <= tbl@.len(),
            hosts_view(hs@) == hosts_upto(v, j as int),
            kind@ == "IFCRELVOIDSELEMENT"@,
        decreases tbl@.len() - j,
    {
        let e = &tbl[j];
        assert(v[j as int] == e@);
        let ghost before = hosts_view(hs@);
        if same_chars(e.ty.as_slice(), kind.as_slice()) {
            let rf = extract_refs(e.args.as_slice());
            if rf.len() >= 2 {
                let op = copy_chars(rf[rf.len() - 1].as_slice());
                let wall = copy_chars(rf[rf.len() - 2].as_slice());
                assert(rf.deep_view()[rf.len() - 1] == rf@[rf.len() - 1]@);
                assert(rf.deep_view()[rf.len() - 2] == rf@[rf.len() - 2]@);
                let found = find_host(&hs, op.as_slice());
                proof {
                    lemma_host_index_from(before, op@, 0);
                }
                match found {
                    Some(k) => {
                        hs.set(k, HostPair { opening: op, wall });
                        assert(hosts_view(hs@) =~= host_insert(before, rf.deep_view()[rf.len() - 1], rf.deep_view()[rf.len() - 2]));
                    },
                    None => {
                        hs.push(HostPair { opening: op, wall });
                        assert(hosts_view(hs@) =~= host_insert(before, rf.deep_view()[rf.len() - 1], rf.deep_view()[rf.len() - 2]));
                    },
                }
            }
        }
        j += 1;
    }
    hs
}

} // verus!
