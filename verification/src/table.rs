//! The entities of a file: one per id, the last record written under that id,
//! kept in the order in which the ids first appear.

use vstd::prelude::*;
use crate::scan::{records, scan_records, RecordSpan, Span};
use crate::text::{chars_of, string_of, type_upper, upper_type_name};

verus! {

/// An entity record as the text spells it: its id with the leading `#`, its
/// type name in upper case, its argument list, and the whole record.
#[derive(Debug, Clone)]
pub struct Entity {
    pub id: String,
    pub entity_type: String,
    pub args: String,
    pub full: String,
}

/// What the conversion reads of an entity: its id, its type name in upper case and
/// its argument list.
pub struct Rec {
    pub id: Seq<char>,
    pub ty: Seq<char>,
    pub args: Seq<char>,
}

/// The entity that the record at `s` of `t` describes.
pub open spec fn record_of(t: Seq<char>, s: Span) -> Rec {
    Rec {
        id: t.subrange(s.start, s.id_end),
        ty: type_upper(t.subrange(s.type_start, s.type_end)),
        args: t.subrange(s.args_start, s.args_end),
    }
}

/// The entities of `t` in the order of their records, one for each record.
pub open spec fn record_entities(t: Seq<char>) -> Seq<Rec> {
    records(t).map_values(|s: Span| record_of(t, s))
}

/// The first index from `j` on where an entity with id `id` stands.
pub open spec fn id_index_from(tbl: Seq<Rec>, id: Seq<char>, j: int) -> Option<int>
    decreases tbl.len() - j,
{
    if j < 0 || j >= tbl.len() {
        None
    } else if tbl[j].id == id {
        Some(j)
    } else {
        id_index_from(tbl, id, j + 1)
    }
}

pub open spec fn id_index(tbl: Seq<Rec>, id: Seq<char>) -> Option<int> {
    id_index_from(tbl, id, 0)
}

/// The entity with id `id`.
pub open spec fn lookup(tbl: Seq<Rec>, id: Seq<char>) -> Option<Rec> {
    match id_index(tbl, id) {
        Some(j) => Some(tbl[j]),
        None => None,
    }
}

/// A table with `r` entered: it takes the place of the entity with the same id, or
/// comes last when there is none.
pub open spec fn table_insert(tbl: Seq<Rec>, r: Rec) -> Seq<Rec> {
    match id_index(tbl, r.id) {
        Some(j) => tbl.update(j, r),
        None => tbl.push(r),
    }
}

/// The table of a sequence of entities, entered in order.
pub open spec fn table_of(rs: Seq<Rec>) -> Seq<Rec>
    decreases rs.len(),
{
    if rs.len() == 0 {
        Seq::empty()
    } else {
        table_insert(table_of(rs.drop_last()), rs.last())
    }
}

/// The entities of a file.
pub open spec fn entity_table(t: Seq<char>) -> Seq<Rec> {
    table_of(record_entities(t))
}

pub proof fn lemma_id_index_from(tbl: Seq<Rec>, id: Seq<char>, j: int)
    requires
        0 <= j,
    ensures
        id_index_from(tbl, id, j) matches Some(k) ==> j <= k < tbl.len() && tbl[k].id == id
            && forall|m: int| j <= m < k ==> tbl[m].id != id,
        id_index_from(tbl, id, j) is None ==> forall|m: int|
            j <= m < tbl.len() ==> tbl[m].id != id,
    decreases tbl.len() - j,
{
    if j < tbl.len() && tbl[j].id != id {
        lemma_id_index_from(tbl, id, j + 1);
    }
}

/// An entity of a table.
pub struct Entry {
    pub id: Vec<char>,
    pub ty: Vec<char>,
    pub args: Vec<char>,
}

impl View for Entry {
    type V = Rec;

    open spec fn view(&self) -> Rec {
        Rec { id: self.id@, ty: self.ty@, args: self.args@ }
    }
}

pub open spec fn entries_view(v: Seq<Entry>) -> Seq<Rec> {
    v.map_values(|e: Entry| e@)
}

/// Whether two character sequences are equal.
pub fn same_chars(a: &[char], b: &[char]) -> (r: bool)
    ensures
        r == (a@ == b@),
{
    if a.len() != b.len() {
        return false;
    }
    let mut i: usize = 0;
    while i < a.len()
        invariant
            a@.len() == b@.len(),
            i <= a@.len(),
            forall|k: int| 0 <= k < i ==> a@[k] == b@[k],
        decreases a@.len() - i,
    {
        if a[i] != b[i] {
            return false;
        }
        i += 1;
    }
    assert(a@ =~= b@);
    true
}

/// The characters `t[a..b]`.
pub fn copy_range(t: &[char], a: usize, b: usize) -> (r: Vec<char>)
    requires
        a <= b <= t@.len(),
    ensures
        r@ == t@.subrange(a as int, b as int),
{
    let mut r: Vec<char> = Vec::new();
    let mut k = a;
    while k < b
        invariant
            a <= k <= b <= t@.len(),
            r@ == t@.subrange(a as int, k as int),
        decreases b - k,
    {
        r.push(t[k]);
        k += 1;
    }
    r
}

fn entry_of(t: &[char], s: &RecordSpan) -> (r: Entry)
    requires
        s.start <= s.id_end <= t@.len(),
        s.type_start <= s.type_end <= t@.len(),
        s.args_start <= s.args_end <= t@.len(),
    ensures
        r@ == record_of(t@, s@),
{
    let id = copy_range(t, s.start, s.id_end);
    let name = copy_range(t, s.type_start, s.type_end);
    let ty = upper_type_name(&name);
    let args = copy_range(t, s.args_start, s.args_end);
    Entry { id, ty, args }
}

proof fn lemma_records_bounds(t: Seq<char>, pos: int)
    requires
        0 <= pos,
    ensures
        forall|k: int|
            0 <= k < crate::scan::records_from(t, pos).len() ==> {
                let s = #[trigger] crate::scan::records_from(t, pos)[k];
                &&& pos <= s.start
                &&& s.start + 1 < s.id_end < s.type_start < s.type_end < s.args_start
                &&& s.args_start <= s.args_end
                &&& s.end == s.args_end + 2
                &&& s.end <= t.len()
            },
    decreases t.len() - pos,
{
    if pos < t.len() {
        crate::scan::lemma_record_at(t, pos);
        match crate::scan::record_at(t, pos) {
            Some(s) => {
                lemma_records_bounds(t, s.end);
                let all = crate::scan::records_from(t, pos);
                let rest = crate::scan::records_from(t, s.end);
                assert(all == seq![s] + rest);
                assert forall|k: int| 1 <= k < all.len() implies all[k] == rest[k - 1] by {}
                assert(all[0] == s);
                assert forall|k: int| 0 <= k < all.len() implies pos <= (#[trigger] all[k]).start && all[k].end <= t.len() by {
                    if k > 0 {
                        assert(all[k] == rest[k - 1]);
                    }
                }
            },
            None => {
                lemma_records_bounds(t, pos + 1);
                assert(crate::scan::records_from(t, pos) == crate::scan::records_from(t, pos + 1));
            },
        }
    }
}

/// The bounds of every record of `t`: its parts lie in order inside `t`.
pub proof fn lemma_record_bounds(t: Seq<char>)
    ensures
        forall|k: int|
            0 <= k < records(t).len() ==> {
                let s = #[trigger] records(t)[k];
                &&& 0 <= s.start
                &&& s.start + 1 < s.id_end < s.type_start < s.type_end < s.args_start
                &&& s.args_start <= s.args_end
                &&& s.end == s.args_end + 2
                &&& s.end <= t.len()
            },
{
    lemma_records_bounds(t, 0);
}

/// The entities of `text`, one for each record, in the order of the records.
pub fn parse_entities(text: &str) -> (r: Vec<Entity>)
    ensures
        r@.len() == records(text@).len(),
        forall|k: int|
            0 <= k < r@.len() ==> {
                let s = records(text@)[k];
                &&& (#[trigger] r@[k]).id@ == text@.subrange(s.start, s.id_end)
                &&& r@[k].entity_type@ == type_upper(text@.subrange(s.type_start, s.type_end))
                &&& r@[k].args@ == text@.subrange(s.args_start, s.args_end)
                &&& r@[k].full@ == text@.subrange(s.start, s.end)
            },
{
    let t = chars_of(text);
    let spans = scan_records(t.as_slice());
    proof {
        lemma_record_bounds(t@);
    }
    let mut r: Vec<Entity> = Vec::new();
    let mut i: usize = 0;
    while i < spans.len()
        invariant
            t@ == text@,
            i <= spans@.len(),
            spans@.map_values(|s: RecordSpan| s@) == records(t@),
            r@.len() == i,
            forall|k: int|
                0 <= k < records(t@).len() ==> {
                    let s = #[trigger] records(t@)[k];
                    &&& 0 <= s.start
                    &&& s.start + 1 < s.id_end < s.type_start < s.type_end < s.args_start
                    &&& s.args_start <= s.args_end
                    &&& s.end == s.args_end + 2
                    &&& s.end <= t@.len()
                },
            forall|k: int|
                0 <= k < i ==> {
                    let s = records(text@)[k];
                    &&& (#[trigger] r@[k]).id@ == text@.subrange(s.start, s.id_end)
                    &&& r@[k].entity_type@ == type_upper(text@.subrange(s.type_start, s.type_end))
                    &&& r@[k].args@ == text@.subrange(s.args_start, s.args_end)
                    &&& r@[k].full@ == text@.subrange(s.start, s.end)
                },
        decreases spans@.len() - i,
    {
        let s = spans[i];
        assert(spans@.map_values(|s: RecordSpan| s@)[i as int] == s@);
        assert(records(t@)[i as int] == s@);
        let id = copy_range(t.as_slice(), s.start, s.id_end);
        let name = copy_range(t.as_slice(), s.type_start, s.type_end);
        let ty = upper_type_name(&name);
        let args = copy_range(t.as_slice(), s.args_start, s.args_end);
        let full = copy_range(t.as_slice(), s.start, s.end);
        let e = Entity {
            id: string_of(id.as_slice()),
            entity_type: string_of(ty.as_slice()),
            args: string_of(args.as_slice()),
            full: string_of(full.as_slice()),
        };
        r.push(e);
        i += 1;
    }
    r
}


/// The key under which the index files an id: the number it carries, or 0.
pub open spec fn id_key(id: Seq<char>) -> u64 {
    if id.len() > 0 && id[0] == '#' {
        match crate::text::parse_usize(id.drop_first()) {
            Some(n) => n as u64,
            None => 0,
        }
    } else {
        0
    }
}

fn key_of(id: &[char]) -> (k: u64)
    ensures
        k == id_key(id@),
{
    if id.len() > 0 && id[0] == '#' {
        let digits = copy_range(id, 1, id.len());
        assert(digits@ =~= id@.drop_first());
        match crate::text::parse_decimal(digits.as_slice()) {
            Some(n) => n as u64,
            None => 0,
        }
    } else {
        0
    }
}

/// Whether no two entities share an id.
pub open spec fn ids_distinct(v: Seq<Rec>) -> bool {
    forall|a: int, b: int| 0 <= a < b < v.len() ==> (#[trigger] v[a]).id != (#[trigger] v[b]).id
}

/// Whether `index` files every entity under the key of its id, and nothing else.
pub open spec fn index_ok(v: Seq<Rec>, index: Map<u64, Vec<usize>>) -> bool {
    &&& forall|j: int|
        0 <= j < v.len() ==> #[trigger] index.contains_key(id_key(v[j].id)) && index[id_key(v[j].id)]@.contains(
            j as usize,
        )
    &&& forall|k: u64, q: int|
        index.contains_key(k) && 0 <= q < index[k]@.len() ==> (#[trigger] index[k]@[q]) < v.len() && id_key(
            v[index[k]@[q] as int].id,
        ) == k
}

proof fn lemma_table_insert_distinct(tbl: Seq<Rec>, r: Rec)
    requires
        ids_distinct(tbl),
    ensures
        ids_distinct(table_insert(tbl, r)),
{
    lemma_id_index_from(tbl, r.id, 0);
    let nt = table_insert(tbl, r);
    match id_index(tbl, r.id) {
        Some(m) => {
            assert forall|a: int, b: int| 0 <= a < b < nt.len() implies (#[trigger] nt[a]).id != (#[trigger] nt[b]).id by {
                if a != m && b != m {
                    assert(nt[a] == tbl[a] && nt[b] == tbl[b]);
                } else if a == m {
                    assert(nt[b] == tbl[b]);
                } else {
                    assert(nt[a] == tbl[a]);
                }
            }
        },
        None => {
            assert forall|a: int, b: int| 0 <= a < b < nt.len() implies (#[trigger] nt[a]).id != (#[trigger] nt[b]).id by {
                assert(nt[a] == tbl[a]);
                if b < tbl.len() {
                    assert(nt[b] == tbl[b]);
                }
            }
        },
    }
}

/// The index of the entity with id `id`, found through the index.
fn find_indexed(entries: &Vec<Entry>, index: &std::collections::HashMap<u64, Vec<usize>>, id: &[char]) -> (r: Option<usize>)
    requires
        ids_distinct(entries_view(entries@)),
        index_ok(entries_view(entries@), index@),
    ensures
        r matches Some(j) ==> id_index(entries_view(entries@), id@) == Some(j as int),
        r is None ==> id_index(entries_view(entries@), id@) is None,
{
    broadcast use vstd::std_specs::hash::group_hash_axioms;

    let ghost v = entries_view(entries@);
    proof {
        lemma_id_index_from(v, id@, 0);
    }
    let n_entries = entries.len();
    let k = key_of(id);
    match index.get(&k) {
        Some(bucket) => {
            let mut q: usize = 0;
            while q < bucket.len()
                invariant
                    v == entries_view(entries@),
                    n_entries == v.len(),
                    q <= bucket@.len(),
                    index@.contains_key(k),
                    index@[k] == *bucket,
                    index_ok(v, index@),
                    ids_distinct(v),
                    forall|p: int| 0 <= p < q ==> v[bucket@[p] as int].id != id@,
                decreases bucket@.len() - q,
            {
                let j = bucket[q];
                assert(j < v.len());
                assert(v[j as int] == entries@[j as int]@);
                if same_chars(entries[j].id.as_slice(), id) {
                    proof {
                        lemma_id_index_from(v, id@, 0);
                        match id_index(v, id@) {
                            Some(m) => {
                                if m != j {
                                    assert(v[m].id == v[j as int].id);
                                    if m < j {
                                        assert(v[m].id != v[j as int].id);
                                    } else {
                                        assert(v[j as int].id != v[m].id);
                                    }
                                }
                            },
                            None => {
                                assert(v[j as int].id == id@);
                            },
                        }
                    }
                    return Some(j);
                }
                q += 1;
            }
            proof {
                lemma_id_index_from(v, id@, 0);
                if let Some(m) = id_index(v, id@) {
                    assert(v[m].id == id@);
                    assert(index@.contains_key(id_key(v[m].id)));
                    assert(index@[id_key(v[m].id)]@.contains(m as usize));
                    assert(bucket@.contains(m as usize));
                    let p = choose|p: int| 0 <= p < bucket@.len() && bucket@[p] == m as usize;
                    assert(m < n_entries);
                    assert(v[bucket@[p] as int].id != id@);
                }
            }
            None
        },
        None => {
            proof {
                assert(!index@.contains_key(k));
                if let Some(m) = id_index(v, id@) {
                    assert(v[m].id == id@);
                    assert(index@.contains_key(id_key(v[m].id)));
                }
            }
            None
        },
    }
}

/// The entities of a file, with an index from the numbers of their ids to where they
/// stand.
pub struct Table {
    entries: Vec<Entry>,
    index: std::collections::HashMap<u64, Vec<usize>>,
}

impl View for Table {
    type V = Seq<Rec>;

    closed spec fn view(&self) -> Seq<Rec> {
        entries_view(self.entries@)
    }
}

impl Table {
    #[verifier::type_invariant]
    spec fn inv(self) -> bool {
        &&& ids_distinct(entries_view(self.entries@))
        &&& index_ok(entries_view(self.entries@), self.index@)
    }

    /// The entities in order.
    pub fn entries(&self) -> (r: &Vec<Entry>)
        ensures
            entries_view(r@) == self@,
    {
        &self.entries
    }

    /// How many entities there are.
    pub fn len(&self) -> (n: usize)
        ensures
            n == self@.len(),
    {
        self.entries.len()
    }

    /// The index of the entity with id `id`.
    pub fn find(&self, id: &[char]) -> (r: Option<usize>)
        ensures
            r matches Some(j) ==> id_index(self@, id@) == Some(j as int),
            r is None ==> id_index(self@, id@) is None,
    {
        proof {
            use_type_invariant(self);
        }
        find_indexed(&self.entries, &self.index, id)
    }

    /// The entity with id `id`.
    pub fn get(&self, id: &[char]) -> (r: Option<&Entry>)
        ensures
            r matches Some(e) ==> lookup(self@, id@) == Some(e@),
            r is None ==> lookup(self@, id@) is None,
    {
        proof {
            lemma_id_index_from(self@, id@, 0);
        }
        match self.find(id) {
            Some(j) => {
                assert(self@[j as int] == self.entries@[j as int]@);
                Some(&self.entries[j])
            },
            None => None,
        }
    }

    /// The table of the entities of `t`, whose records lie at `spans`.
    pub fn build(t: &[char], spans: &Vec<RecordSpan>) -> (r: Table)
        requires
            spans@.map_values(|s: RecordSpan| s@) == records(t@),
        ensures
            r@ == entity_table(t@),
    {
        broadcast use vstd::std_specs::hash::group_hash_axioms;

        let ghost rs = record_entities(t@);
        proof {
            lemma_record_bounds(t@);
            assert(entries_view(Seq::<Entry>::empty()) =~= table_of(rs.take(0)));
        }
        let mut tbl: Vec<Entry> = Vec::new();
        let mut index: std::collections::HashMap<u64, Vec<usize>> = std::collections::HashMap::new();
        let mut i: usize = 0;
        while i < spans.len()
            invariant
                i <= spans@.len(),
                spans@.map_values(|s: RecordSpan| s@) == records(t@),
                rs == record_entities(t@),
                rs.len() == spans@.len(),
                entries_view(tbl@) == table_of(rs.take(i as int)),
                ids_distinct(entries_view(tbl@)),
                index_ok(entries_view(tbl@), index@),
                forall|k: int|
                    0 <= k < records(t@).len() ==> {
                        let s = #[trigger] records(t@)[k];
                        &&& 0 <= s.start
                        &&& s.start + 1 < s.id_end < s.type_start < s.type_end < s.args_start
                        &&& s.args_start <= s.args_end
                        &&& s.end == s.args_end + 2
                        &&& s.end <= t@.len()
                    },
            decreases spans@.len() - i,
        {
            let s = spans[i];
            assert(spans@.map_values(|s: RecordSpan| s@)[i as int] == s@);
            let e = entry_of(t, &s);
            assert(rs[i as int] == e@);
            assert(rs.take(i + 1).drop_last() =~= rs.take(i as int));
            let ghost before = entries_view(tbl@);
            proof {
                lemma_id_index_from(before, e@.id, 0);
                lemma_table_insert_distinct(before, e@);
            }
            let found = find_indexed(&tbl, &index, e.id.as_slice());
            match found {
                Some(j) => {
                    tbl.set(j, e);
                    assert(entries_view(tbl@) =~= before.update(j as int, rs[i as int]));
                    proof {
                        assert forall|jj: int| 0 <= jj < entries_view(tbl@).len() implies #[trigger] index@.contains_key(id_key(entries_view(tbl@)[jj].id)) && index@[id_key(entries_view(tbl@)[jj].id)]@.contains(jj as usize) by {
                            assert(index@.contains_key(id_key(before[jj].id)));
                            if jj != j {
                                assert(entries_view(tbl@)[jj] == before[jj]);
                            } else {
                                assert(entries_view(tbl@)[jj].id == before[jj].id);
                            }
                        }
                        assert forall|k: u64, q: int| index@.contains_key(k) && 0 <= q < index@[k]@.len() implies (#[trigger] index@[k]@[q]) < entries_view(tbl@).len() && id_key(entries_view(tbl@)[index@[k]@[q] as int].id) == k by {
                            let jj = index@[k]@[q] as int;
                            if jj != j {
                                assert(entries_view(tbl@)[jj] == before[jj]);
                            }
                        }
                    }
                },
                None => {
                    let k = key_of(e.id.as_slice());
                    let n = tbl.len();
                    let ghost old_index = index@;
                    let mut bucket = match index.remove(&k) {
                        Some(b) => b,
                        None => Vec::new(),
                    };
                    let ghost old_bucket = bucket@;
                    proof {
                        if old_index.contains_key(k) {
                            assert(old_bucket == old_index[k]@);
                        } else {
                            assert(old_bucket.len() == 0);
                        }
                        assert(index@ == old_index.remove(k));
                    }
                    bucket.push(n);
                    index.insert(k, bucket);
                    assert(index@[k]@ == old_bucket.push(n));
                    tbl.push(e);
                    assert(entries_view(tbl@) =~= before.push(rs[i as int]));
                    proof {
                        let nv = entries_view(tbl@);
                        assert forall|jj: int| 0 <= jj < nv.len() implies #[trigger] index@.contains_key(id_key(nv[jj].id)) && index@[id_key(nv[jj].id)]@.contains(jj as usize) by {
                            if jj < n {
                                assert(nv[jj] == before[jj]);
                                assert(old_index.contains_key(id_key(before[jj].id)));
                                if id_key(nv[jj].id) == k {
                                    assert(old_bucket.contains(jj as usize));
                                    let p = choose|p: int| 0 <= p < old_bucket.len() && old_bucket[p] == jj as usize;
                                    assert(index@[k]@[p] == jj as usize);
                                }
                            } else {
                                assert(index@[k]@[old_bucket.len() as int] == n);
                            }
                        }
                        assert forall|kk: u64, q: int| index@.contains_key(kk) && 0 <= q < index@[kk]@.len() implies (#[trigger] index@[kk]@[q]) < nv.len() && id_key(nv[index@[kk]@[q] as int].id) == kk by {
                            if kk == k {
                                if q < old_bucket.len() {
                                    assert(index@[kk]@[q] == old_bucket[q]);
                                    assert(old_index.contains_key(k));
                                    assert(old_index[k]@[q] == old_bucket[q]);
                                    assert(nv[old_bucket[q] as int] == before[old_bucket[q] as int]);
                                }
                            } else {
                                assert(old_index.contains_key(kk));
                                assert(index@[kk] == old_index[kk]);
                                assert(nv[index@[kk]@[q] as int] == before[index@[kk]@[q] as int]);
                            }
                        }
                    }
                },
            }
            i += 1;
        }
        assert(rs.take(rs.len() as int) =~= rs);
        Table { entries: tbl, index }
    }
}

} // verus!
