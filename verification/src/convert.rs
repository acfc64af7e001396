//! The conversion of a whole file.

use vstd::prelude::*;
use crate::args::split_pieces;
use crate::emit::{
    append_lines, geom_view, geometry_chars, id_chars, id_text, opening_line_chars, opening_lines,
    replacement, replacement_chars, GeomV, OpeningGeometry,
};
use crate::plan::{body_context, find_body_context, find_max_id, find_opening_hosts, max_id, opening_hosts};
use crate::scan::{records, scan_records, RecordSpan};
use crate::source::{
    candidate_args_ok, candidate_view, candidates, find_candidates, source_view, CandV, Candidate,
    OpeningSource, ProfileLookup, SourceV,
};
use crate::splice::{
    end_position, find_end_position, insert_block, replacements_view, splice_text, spliced, with_block,
    EndPosition, Replacement,
};
use crate::table::{entity_table, lookup, Rec, Table};
use crate::text::{chars_of, string_of};

verus! {

/// The new records and replacements of the first `k` openings.
pub struct RepairV {
    pub lines: Seq<Seq<char>>,
    pub repl: Seq<(Seq<char>, Seq<char>)>,
    pub count: nat,
}

/// Whether the opening `c` is repaired, given what the geometry answered for it: it
/// needs a source whose old body was found, and an answer.
pub open spec fn is_repaired(c: CandV, g: Option<GeomV>) -> bool {
    &&& c.source matches Some(src)
    &&& src.profile is Found
    &&& g is Some
}

/// The answer `gs` holds for the opening `k`; none past its end.
pub open spec fn answer_at(gs: Seq<Option<GeomV>>, k: int) -> Option<GeomV> {
    if 0 <= k < gs.len() {
        gs[k]
    } else {
        None
    }
}

/// The repairs of the first `k` openings of `cs`, given the answers `gs` of the
/// geometry, the ids of the new records counted from `n0` on, fifteen for each
/// repaired opening.
pub open spec fn repairs_upto(
    tbl: Seq<Rec>,
    cs: Seq<CandV>,
    gs: Seq<Option<GeomV>>,
    ctx: Seq<char>,
    n0: nat,
    k: int,
) -> RepairV
    decreases k,
{
    if k <= 0 {
        RepairV { lines: Seq::empty(), repl: Seq::empty(), count: 0 }
    } else {
        let prev = repairs_upto(tbl, cs, gs, ctx, n0, k - 1);
        let c = cs[k - 1];
        let g = answer_at(gs, k - 1);
        if is_repaired(c, g) {
            let n = n0 + 15 * prev.count;
            let oa = split_pieces(lookup(tbl, c.opening).unwrap().args);
            RepairV {
                lines: prev.lines + opening_lines(n, ctx, g.unwrap()),
                repl: prev.repl.push((c.opening, replacement(c.opening, oa, id_text(n + 14)))),
                count: prev.count + 1,
            }
        } else {
            prev
        }
    }
}

/// Why a file cannot be converted.
pub enum ConvertError {
    /// The file holds no entity record.
    NoEntities,
    /// No entity is the geometric subcontext of the model's bodies.
    NoBodyContext,
    /// No void relation names an opening and a wall.
    NoOpenings,
    /// No opening could be repaired.
    NothingRepaired,
    /// The file has no `ENDSEC;`.
    NoEndSection,
    /// The position of the last `ENDSEC;`, found in the upper-cased text, falls
    /// inside a character of the text itself.
    EndSectionMisaligned,
    /// The new records would need ids beyond `usize::MAX`.
    IdsExhausted,
}

/// The ids of the new records start after the largest id number of the file; where
/// the conversion gets that far, that number must leave room for the next one.
pub open spec fn ids_fit(t: Seq<char>) -> bool {
    let tbl = entity_table(t);
    (tbl.len() > 0 && body_context(tbl) is Some) ==> max_id(tbl) < usize::MAX
}

/// Whether the conversion of `t` asks the geometry for answers.
pub open spec fn reaches_geometry(t: Seq<char>) -> bool {
    let tbl = entity_table(t);
    tbl.len() > 0 && body_context(tbl) is Some && opening_hosts(tbl).len() > 0
}

/// What converting `t` gives, when the geometry answered `gs` for its openings (one
/// answer for each, in order; `None` for an opening without a source, and for those
/// past the end of `gs`).
pub open spec fn conversion(t: Seq<char>, gs: Seq<Option<GeomV>>) -> Result<(Seq<char>, nat), ConvertError> {
    let tbl = entity_table(t);
    if tbl.len() == 0 {
        Err(ConvertError::NoEntities)
    } else {
        match body_context(tbl) {
            None => Err(ConvertError::NoBodyContext),
            Some(ctx) => {
                let n0 = max_id(tbl) + 1;
                if opening_hosts(tbl).len() == 0 {
                    Err(ConvertError::NoOpenings)
                } else {
                    let cs = candidates(tbl);
                    let rp = repairs_upto(tbl, cs, gs, ctx, n0 as nat, cs.len() as int);
                    if n0 + 15 * rp.count > usize::MAX {
                        Err(ConvertError::IdsExhausted)
                    } else if rp.count == 0 {
                        Err(ConvertError::NothingRepaired)
                    } else {
                        let r = spliced(t, records(t), rp.repl);
                        match end_position(r) {
                            EndPosition::Missing => Err(ConvertError::NoEndSection),
                            EndPosition::Misaligned => Err(ConvertError::EndSectionMisaligned),
                            EndPosition::At(k) => Ok((with_block(r, k, rp.lines), rp.count)),
                        }
                    }
                }
            },
        }
    }
}

/// The message that the conversion reports for an error.
pub open spec fn error_message(e: ConvertError) -> Seq<char> {
    match e {
        ConvertError::NoEntities => "Keine IFC-Entitäten gefunden."@,
        ConvertError::NoBodyContext => "IFC-Body-Kontext wurde nicht gefunden."@,
        ConvertError::NoOpenings => "Keine Wandöffnungen (IfcRelVoidsElement) gefunden."@,
        ConvertError::NothingRepaired => "Es konnte keine OrthoGraph-Öffnung repariert werden."@,
        ConvertError::NoEndSection => "IFC-Ende (ENDSEC) wurde nicht gefunden."@,
        ConvertError::EndSectionMisaligned => "IFC-Ende (ENDSEC) liegt nicht auf einer Zeichengrenze."@,
        ConvertError::IdsExhausted => "Für die neuen IFC-Entitäten sind keine Nummern mehr frei."@,
    }
}

impl ConvertError {
    /// The message of this error.
    pub fn message(&self) -> (m: String)
        ensures
            m@ == error_message(*self),
    {
        let s = match self {
            ConvertError::NoEntities => "Keine IFC-Entitäten gefunden.",
            ConvertError::NoBodyContext => "IFC-Body-Kontext wurde nicht gefunden.",
            ConvertError::NoOpenings => "Keine Wandöffnungen (IfcRelVoidsElement) gefunden.",
            ConvertError::NothingRepaired => "Es konnte keine OrthoGraph-Öffnung repariert werden.",
            ConvertError::NoEndSection => "IFC-Ende (ENDSEC) wurde nicht gefunden.",
            ConvertError::EndSectionMisaligned => "IFC-Ende (ENDSEC) liegt nicht auf einer Zeichengrenze.",
            ConvertError::IdsExhausted => "Für die neuen IFC-Entitäten sind keine Nummern mehr frei.",
        };
        let c = chars_of(s);
        string_of(c.as_slice())
    }
}


pub open spec fn opt_geom(g: Option<OpeningGeometry>) -> Option<GeomV> {
    match g {
        Some(x) => Some(geom_view(x)),
        None => None,
    }
}

/// What the geometry answered, as views.
pub open spec fn geom_views(gs: Seq<Option<OpeningGeometry>>) -> Seq<Option<GeomV>> {
    gs.map_values(|g: Option<OpeningGeometry>| opt_geom(g))
}

/// Whether `srcs` are the sources handed to the geometry for the openings `cs`, and
/// `gs` what it answered: an opening without a source is not asked and has no answer.
pub open spec fn geometry_answers<F: Fn(&OpeningSource) -> Option<OpeningGeometry>>(
    geometry: F,
    cs: Seq<CandV>,
    srcs: Seq<Option<OpeningSource>>,
    gs: Seq<Option<OpeningGeometry>>,
) -> bool {
    &&& srcs.len() == cs.len()
    &&& gs.len() == cs.len()
    &&& forall|k: int|
        0 <= k < cs.len() ==> match #[trigger] srcs[k] {
            Some(s) => cs[k].source == Some(source_view(s)) && call_ensures(geometry, (&s,), gs[k]),
            None => cs[k].source is None && gs[k] is None,
        }
}

/// Whether `r` reports the outcome `c`: the new text and the number of repaired
/// openings, or the error's message.
pub open spec fn result_matches(r: Result<(String, usize), String>, c: Result<(Seq<char>, nat), ConvertError>) -> bool {
    match c {
        Ok((s, n)) => r matches Ok((rs, rn)) && rs@ == s && rn == n,
        Err(e) => r matches Err(m) && m@ == error_message(e),
    }
}

pub open spec fn opt_source(s: Option<OpeningSource>) -> Option<SourceV> {
    match s {
        Some(x) => Some(source_view(x)),
        None => None,
    }
}

/// The sources that the conversion of `t` hands to the geometry: one for each opening,
/// in order (`None` for an opening without one), and none at all where the conversion
/// stops before it asks.
pub open spec fn asked_sources(t: Seq<char>) -> Seq<Option<SourceV>> {
    if reaches_geometry(t) {
        candidates(entity_table(t)).map_values(|c: CandV| c.source)
    } else {
        Seq::empty()
    }
}

fn answer_of<F: Fn(&OpeningSource) -> Option<OpeningGeometry>>(geometry: &F, c: &Candidate) -> (g: Option<OpeningGeometry>)
    requires
        forall|s: OpeningSource| call_requires(*geometry, (&s,)),
    ensures
        match c.source {
            Some(s) => call_ensures(*geometry, (&s,), g),
            None => g is None,
        },
{
    match &c.source {
        Some(s) => geometry(s),
        None => None,
    }
}

fn profile_found(c: &Candidate) -> (b: bool)
    ensures
        b == (c.source matches Some(s) && s.profile is Found),
{
    match &c.source {
        Some(s) => match &s.profile {
            ProfileLookup::Found(_) => true,
            _ => false,
        },
        None => false,
    }
}

/// The repairs made so far: the new lines and replacements, how many openings were
/// repaired, the next free id, and whether the ids ran out.
struct RepairState {
    lines: Vec<Vec<char>>,
    repl: Vec<Replacement>,
    count: usize,
    next: usize,
    exhausted: bool,
}

spec fn state_ok(st: RepairState, rp: RepairV, n0: nat) -> bool {
    &&& st.count == rp.count
    &&& st.exhausted == (n0 + 15 * rp.count > usize::MAX)
    &&& !st.exhausted ==> {
        &&& st.next == n0 + 15 * rp.count
        &&& st.lines.deep_view() == rp.lines
        &&& replacements_view(st.repl@) == rp.repl
    }
}

spec fn opt_geom_ref(g: Option<&OpeningGeometry>) -> Option<GeomV> {
    match g {
        Some(x) => Some(geom_view(*x)),
        None => None,
    }
}

#[verifier::rlimit(40)]
fn repair_step(
    st: &mut RepairState,
    c: &Candidate,
    g: Option<&OpeningGeometry>,
    ctx: &Vec<char>,
    n0: usize,
    k: usize,
    Ghost(tv): Ghost<Seq<Rec>>,
    Ghost(cs): Ghost<Seq<CandV>>,
    Ghost(gsv): Ghost<Seq<Option<GeomV>>>,
)
    requires
        state_ok(*old(st), repairs_upto(tv, cs, gsv, ctx@, n0 as nat, k as int), n0 as nat),
        old(st).count <= k,
        k < usize::MAX,
        k < cs.len(),
        opt_geom_ref(g) == answer_at(gsv, k as int),
        cs[k as int] == candidate_view(*c),
        candidate_args_ok(tv, *c),
    ensures
        state_ok(*final(st), repairs_upto(tv, cs, gsv, ctx@, n0 as nat, k + 1), n0 as nat),
        final(st).count <= k + 1,
{
    let repaired = profile_found(c) && g.is_some();
    assert(repaired == is_repaired(cs[k as int], answer_at(gsv, k as int)));
    if !repaired {
        return;
    }
    if !st.exhausted {
        if st.next > usize::MAX - 15 {
            st.exhausted = true;
        } else {
            let gv = match g {
                Some(x) => x,
                None => {
                    proof {
                        assert(false);
                    }
                    return;
                },
            };
            let gc = geometry_chars(gv);
            let new_lines = opening_line_chars(st.next, ctx, &gc);
            let shape = id_chars(st.next + 14);
            let text = replacement_chars(&c.opening, &c.op_args, &shape);
            append_lines(&mut st.lines, &new_lines);
            let mut id: Vec<char> = Vec::new();
            crate::emit::push_chars(&mut id, c.opening.as_slice());
            let ghost rv = replacements_view(st.repl@);
            st.repl.push(Replacement { id, text });
            assert(replacements_view(st.repl@) =~= rv.push((c.opening@, text@)));
            st.next = st.next + 15;
        }
    }
    st.count = st.count + 1;
}

/// Whether the ids of the new records of a conversion of `text` have room to start
/// (see `ids_fit`).
pub fn ids_fit_in(text: &str) -> (b: bool)
    ensures
        b == ids_fit(text@),
{
    let t = chars_of(text);
    let spans = scan_records(t.as_slice());
    let tbl = Table::build(t.as_slice(), &spans);
    if tbl.len() == 0 {
        return true;
    }
    match find_body_context(tbl.entries()) {
        Some(_) => find_max_id(tbl.entries()) < usize::MAX,
        None => true,
    }
}

/// What a conversion has read of a file once it reaches the geometry: the text, where
/// its records lie, its entities, the body context and the openings.
struct Prepared {
    t: Vec<char>,
    spans: Vec<RecordSpan>,
    tbl: Table,
    ctx: Vec<char>,
    cands: Vec<Candidate>,
}

spec fn prepared_ok(p: Prepared, text: Seq<char>) -> bool {
    &&& p.t@ == text
    &&& p.spans@.map_values(|s: RecordSpan| s@) == records(text)
    &&& p.tbl@ == entity_table(text)
    &&& reaches_geometry(text)
    &&& body_context(p.tbl@) == Some(p.ctx@)
    &&& p.cands@.map_values(|c: Candidate| candidate_view(c)) == candidates(p.tbl@)
    &&& forall|q: int| 0 <= q < p.cands@.len() ==> candidate_args_ok(p.tbl@, #[trigger] p.cands@[q])
}

/// Reads a file up to the point where the conversion asks the geometry, or the error
/// with which the conversion stops before it.
fn prepare(text: &str) -> (r: Result<Prepared, ConvertError>)
    ensures
        r is Ok <==> reaches_geometry(text@),
        r matches Ok(p) ==> prepared_ok(p, text@),
        r matches Err(e) ==> forall|gs: Seq<Option<GeomV>>| #[trigger] conversion(text@, gs) == Err::<(Seq<char>, nat), ConvertError>(e),
{
    let t = chars_of(text);
    let spans = scan_records(t.as_slice());
    let tbl = Table::build(t.as_slice(), &spans);
    if tbl.len() == 0 {
        return Err(ConvertError::NoEntities);
    }
    let ctx = match find_body_context(tbl.entries()) {
        Some(c) => c,
        None => return Err(ConvertError::NoBodyContext),
    };
    let hosts = find_opening_hosts(tbl.entries());
    if hosts.len() == 0 {
        return Err(ConvertError::NoOpenings);
    }
    let cands = find_candidates(&tbl, &hosts);
    Ok(Prepared { t, spans, tbl, ctx, cands })
}

/// Finishes a conversion with the answers of the geometry.
fn finish(p: Prepared, answers: &Vec<Option<OpeningGeometry>>, Ghost(text): Ghost<Seq<char>>) -> (r: Result<(String, usize), String>)
    requires
        prepared_ok(p, text),
        ids_fit(text),
    ensures
        result_matches(r, conversion(text, geom_views(answers@))),
{
    let ghost tv = p.tbl@;
    let ghost cs = candidates(tv);
    let ghost gv = geom_views(answers@);
    let max = find_max_id(p.tbl.entries());
    let n0 = max + 1;
    let mut st = RepairState { lines: Vec::new(), repl: Vec::new(), count: 0, next: n0, exhausted: false };
    proof {
        assert(st.lines.deep_view() =~= Seq::<Seq<char>>::empty());
        assert(replacements_view(st.repl@) =~= Seq::<(Seq<char>, Seq<char>)>::empty());
    }
    let mut k: usize = 0;
    while k < p.cands.len()
        invariant
            k <= p.cands@.len(),
            prepared_ok(p, text),
            tv == p.tbl@,
            cs == candidates(tv),
            gv == geom_views(answers@),
            n0 == max_id(tv) + 1,
            state_ok(st, repairs_upto(tv, cs, gv, p.ctx@, n0 as nat, k as int), n0 as nat),
            st.count <= k,
        decreases p.cands@.len() - k,
    {
        let c = &p.cands[k];
        assert(p.cands@.map_values(|c: Candidate| candidate_view(c))[k as int] == candidate_view(*c));
        assert(candidate_args_ok(tv, p.cands@[k as int]));
        let g: Option<&OpeningGeometry> = if k < answers.len() {
            match &answers[k] {
                Some(x) => Some(x),
                None => None,
            }
        } else {
            None
        };
        repair_step(&mut st, c, g, &p.ctx, n0, k, Ghost(tv), Ghost(cs), Ghost(gv));
        k += 1;
    }
    let ghost rp = repairs_upto(tv, cs, gv, p.ctx@, n0 as nat, k as int);
    if st.exhausted {
        let r = Err(ConvertError::IdsExhausted.message());
        assert(result_matches(r, conversion(text, gv)));
        return r;
    }
    if st.count == 0 {
        let r = Err(ConvertError::NothingRepaired.message());
        assert(result_matches(r, conversion(text, gv)));
        return r;
    }
    let spliced_text = splice_text(p.t.as_slice(), &p.spans, &st.repl);
    assert(spliced_text@ == spliced(text, records(text), rp.repl));
    match find_end_position(spliced_text.as_slice()) {
        Ok(pos) => {
            proof {
                crate::splice::lemma_end_position_bound(spliced_text@);
            }
            let out = insert_block(spliced_text.as_slice(), pos, &st.lines);
            let r = Ok((string_of(out.as_slice()), st.count));
            assert(result_matches(r, conversion(text, gv)));
            r
        },
        Err(missing) => {
            let e = if missing {
                ConvertError::NoEndSection
            } else {
                ConvertError::EndSectionMisaligned
            };
            let r = Err(e.message());
            assert(result_matches(r, conversion(text, gv)));
            r
        },
    }
}

/// What the conversion of `text` hands to the geometry (see `asked_sources`): for each
/// opening, in order, the texts of its wall's axis and of its old body, or `None`.
pub fn opening_sources(text: &str) -> (r: Vec<Option<OpeningSource>>)
    ensures
        r@.map_values(|s: Option<OpeningSource>| opt_source(s)) == asked_sources(text@),
{
    let p = match prepare(text) {
        Ok(p) => p,
        Err(_) => {
            let r: Vec<Option<OpeningSource>> = Vec::new();
            assert(r@.map_values(|s: Option<OpeningSource>| opt_source(s)) =~= asked_sources(text@));
            return r;
        },
    };
    let ghost cv = p.cands@;
    let ghost want = asked_sources(text@);
    assert(want == cv.map_values(|c: Candidate| candidate_view(c)).map_values(|c: CandV| c.source));
    let mut r: Vec<Option<OpeningSource>> = Vec::new();
    for c in it: p.cands.into_iter()
        invariant
            cv.map_values(|c: Candidate| candidate_view(c)).map_values(|c: CandV| c.source) == want,
            it.seq() == cv,
            r@.len() == it.index(),
            forall|q: int| 0 <= q < r@.len() ==> opt_source(#[trigger] r@[q]) == candidate_view(cv[q]).source,
    {
        r.push(c.source);
    }
    assert(r@.map_values(|s: Option<OpeningSource>| opt_source(s)) =~= want);
    r
}

/// Converts `text` with the answers of the geometry given: `answers[k]` is taken as the
/// answer for the opening `k` of `opening_sources(text)`, and an opening past the end
/// of `answers` as one without an answer.
pub fn convert_with_answers(text: &str, answers: &Vec<Option<OpeningGeometry>>) -> (r: Result<(String, usize), String>)
    requires
        ids_fit(text@),
    ensures
        result_matches(r, conversion(text@, geom_views(answers@))),
{
    match prepare(text) {
        Ok(p) => finish(p, answers, Ghost(text@)),
        Err(e) => Err(e.message()),
    }
}

/// Repairs the openings of an IFC file.
///
/// Every opening (`IFCOPENINGELEMENT` or `IFCOPENINGSTANDARDCASE`) that a void
/// relation places in a wall (`IFCWALL...`) with an axis is handed to `geometry` with
/// the texts of its wall's axis and of its old body. Where `geometry` answers, the
/// opening becomes an `IFCOPENINGSTANDARDCASE` whose body is the answered rectangle
/// extruded along the wall's normal; the fifteen new records go before the last
/// `ENDSEC;`. The result is the new text and the number of repaired openings.
pub fn convert_ifc<F: Fn(&OpeningSource) -> Option<OpeningGeometry>>(text: &str, geometry: F) -> (r: Result<(String, usize), String>)
    requires
        ids_fit(text@),
        forall|s: OpeningSource| call_requires(geometry, (&s,)),
    ensures
        !reaches_geometry(text@) ==> result_matches(r, conversion(text@, Seq::empty())),
        reaches_geometry(text@) ==> exists|srcs: Seq<Option<OpeningSource>>, gs: Seq<Option<OpeningGeometry>>|
            #[trigger] geometry_answers(geometry, candidates(entity_table(text@)), srcs, gs)
                && result_matches(r, conversion(text@, geom_views(gs))),
{
    let p = match prepare(text) {
        Ok(p) => p,
        Err(e) => return Err(e.message()),
    };
    let ghost cs = candidates(p.tbl@);
    let ghost mut srcs: Seq<Option<OpeningSource>> = Seq::empty();
    let mut answers: Vec<Option<OpeningGeometry>> = Vec::new();
    let mut k: usize = 0;
    while k < p.cands.len()
        invariant
            k <= p.cands@.len(),
            prepared_ok(p, text@),
            cs == candidates(p.tbl@),
            forall|s: OpeningSource| call_requires(geometry, (&s,)),
            srcs.len() == k,
            answers@.len() == k,
            forall|q: int|
                0 <= q < k ==> match #[trigger] srcs[q] {
                    Some(s) => cs[q].source == Some(source_view(s)) && call_ensures(geometry, (&s,), answers@[q]),
                    None => cs[q].source is None && answers@[q] is None,
                },
        decreases p.cands@.len() - k,
    {
        let c = &p.cands[k];
        assert(p.cands@.map_values(|c: Candidate| candidate_view(c))[k as int] == candidate_view(*c));
        let g = answer_of(&geometry, c);
        let ghost old_srcs = srcs;
        let ghost old_answers = answers@;
        answers.push(g);
        proof {
            srcs = srcs.push(c.source);
            assert forall|q: int| 0 <= q < k + 1 implies match #[trigger] srcs[q] {
                Some(s) => cs[q].source == Some(source_view(s)) && call_ensures(geometry, (&s,), answers@[q]),
                None => cs[q].source is None && answers@[q] is None,
            } by {
                if q < k {
                    assert(srcs[q] == old_srcs[q]);
                    assert(answers@[q] == old_answers[q]);
                }
            }
        }
        k += 1;
    }
    assert(geometry_answers(geometry, cs, srcs, answers@));
    finish(p, &answers, Ghost(text@))
}

/// Repairs the openings of an IFC file (see `convert_ifc`), when the ids of the new
/// records have room to start; `None` when the file's largest id number is
/// `usize::MAX` and the conversion would need ids past it.
pub fn try_convert_ifc<F: Fn(&OpeningSource) -> Option<OpeningGeometry>>(text: &str, geometry: F) -> (r: Option<Result<(String, usize), String>>)
    requires
        forall|s: OpeningSource| call_requires(geometry, (&s,)),
    ensures
        r is None <==> !ids_fit(text@),
        r matches Some(res) ==> {
            &&& !reaches_geometry(text@) ==> result_matches(res, conversion(text@, Seq::empty()))
            &&& reaches_geometry(text@) ==> exists|srcs: Seq<Option<OpeningSource>>, gs: Seq<Option<OpeningGeometry>>|
                #[trigger] geometry_answers(geometry, candidates(entity_table(text@)), srcs, gs)
                    && result_matches(res, conversion(text@, geom_views(gs)))
        },
{
    if ids_fit_in(text) {
        Some(convert_ifc(text, geometry))
    } else {
        None
    }
}

/// Converts `text` with the answers of the geometry given (see `convert_with_answers`),
/// when the ids of the new records have room to start; `None` when the file's largest
/// id number is `usize::MAX` and the conversion would need ids past it.
pub fn try_convert_with_answers(text: &str, answers: &Vec<Option<OpeningGeometry>>) -> (r: Option<Result<(String, usize), String>>)
    ensures
        r is None <==> !ids_fit(text@),
        r matches Some(res) ==> result_matches(res, conversion(text@, geom_views(answers@))),
{
    if ids_fit_in(text) {
        Some(convert_with_answers(text, answers))
    } else {
        None
    }
}

} // verus!
