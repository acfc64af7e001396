//! The texts that the geometry of an opening is computed from: the two points of
//! its wall's axis, the outline of its old profile, the height of its old extrusion,
//! and the point where that extrusion was placed.

use vstd::prelude::*;
use crate::args::{coordinate_texts, point_coordinates, try_split_args, split_fits, split_pieces};
use crate::scan::{extract_refs, refs};
use crate::plan::{hosts_view, opening_hosts, HostPair};
use crate::table::{copy_range, lookup, same_chars, Entry, Rec, Table};
use crate::text::{chars_of, contains_chars, contains_seq, occurs_at, occurs_at_exec, string_of, to_uppercase, uppercase};

verus! {

/// The coordinate texts of the point with id `id`, when the table has a point
/// (`IFCCARTESIANPOINT`) of that id.
pub open spec fn point_coords(tbl: Seq<Rec>, id: Seq<char>) -> Option<Seq<Seq<char>>> {
    match lookup(tbl, id) {
        Some(e) => if e.ty == "IFCCARTESIANPOINT"@ {
            Some(coordinate_texts(e.args))
        } else {
            None
        },
        None => None,
    }
}

/// The coordinate texts of the two points that give a wall its axis.
pub struct AxisV {
    pub start: Seq<Seq<char>>,
    pub end: Seq<Seq<char>>,
}

/// The axis that the representation `rep_id` gives: an `IFCSHAPEREPRESENTATION`
/// whose upper-cased arguments hold `'AXIS'`, whose last reference is a polyline
/// whose first two references are points.
pub open spec fn representation_axis(tbl: Seq<Rec>, rep_id: Seq<char>) -> Option<AxisV> {
    match lookup(tbl, rep_id) {
        Some(rep) => if rep.ty == "IFCSHAPEREPRESENTATION"@ && contains_seq(
            uppercase(rep.args),
            "'AXIS'"@,
        ) && refs(rep.args).len() > 0 {
            match lookup(tbl, refs(rep.args).last()) {
                Some(item) => if item.ty == "IFCPOLYLINE"@ && refs(item.args).len() >= 2 {
                    match (
                        point_coords(tbl, refs(item.args)[0]),
                        point_coords(tbl, refs(item.args)[1]),
                    ) {
                        (Some(a), Some(b)) => Some(AxisV { start: a, end: b }),
                        _ => None,
                    }
                } else {
                    None
                },
                None => None,
            }
        } else {
            None
        },
        None => None,
    }
}

/// The axis of the first of `reps[k..]` that gives one.
pub open spec fn first_axis_from(tbl: Seq<Rec>, reps: Seq<Seq<char>>, k: int) -> Option<AxisV>
    decreases reps.len() - k,
{
    if k < 0 || k >= reps.len() {
        None
    } else {
        match representation_axis(tbl, reps[k]) {
            Some(a) => Some(a),
            None => first_axis_from(tbl, reps, k + 1),
        }
    }
}

/// The axis of a wall: the first axis among the representations of the shape that
/// the wall's last reference names.
pub open spec fn wall_axis(tbl: Seq<Rec>, wall_id: Seq<char>) -> Option<AxisV> {
    match lookup(tbl, wall_id) {
        Some(w) => if refs(w.args).len() > 0 {
            match lookup(tbl, refs(w.args).last()) {
                Some(shape) => first_axis_from(tbl, refs(shape.args), 0),
                None => None,
            }
        } else {
            None
        },
        None => None,
    }
}

pub open spec fn starts_with(s: Seq<char>, p: Seq<char>) -> bool {
    occurs_at(s, p, 0)
}

/// Whether a type is one of an opening.
pub open spec fn is_opening_type(ty: Seq<char>) -> bool {
    ty == "IFCOPENINGELEMENT"@ || ty == "IFCOPENINGSTANDARDCASE"@
}

/// The axis of the wall of an opening, when both entities exist, the opening is an
/// opening, the wall's type begins with `IFCWALL`, and the wall has an axis.
pub open spec fn opening_axis(tbl: Seq<Rec>, op: Seq<char>, wall: Seq<char>) -> Option<AxisV> {
    match (lookup(tbl, op), lookup(tbl, wall)) {
        (Some(o), Some(w)) => if is_opening_type(o.ty) && starts_with(w.ty, "IFCWALL"@) {
            wall_axis(tbl, wall)
        } else {
            None
        },
        _ => None,
    }
}

/// The coordinate texts of those of `ids` that are points, in order.
pub open spec fn points_of(tbl: Seq<Rec>, ids: Seq<Seq<char>>) -> Seq<Seq<Seq<char>>>
    decreases ids.len(),
{
    if ids.len() == 0 {
        Seq::empty()
    } else {
        let p = points_of(tbl, ids.drop_last());
        match point_coords(tbl, ids.last()) {
            Some(c) => p.push(c),
            None => p,
        }
    }
}

/// The point where a placement `IFCAXIS2PLACEMENT3D` puts its origin: its first
/// reference, when that is a point.
pub open spec fn base_point(tbl: Seq<Rec>, pos_id: Seq<char>) -> Option<Seq<Seq<char>>> {
    match lookup(tbl, pos_id) {
        Some(p) => if p.ty == "IFCAXIS2PLACEMENT3D"@ && refs(p.args).len() > 0 {
            point_coords(tbl, refs(p.args)[0])
        } else {
            None
        },
        None => None,
    }
}

/// What the old body of an opening gives.
pub struct ProfileV {
    /// The coordinate texts of the points of the old profile's outline.
    pub points: Seq<Seq<Seq<char>>>,
    /// The text of the old extrusion's depth.
    pub height: Seq<char>,
    /// The coordinate texts of the old extrusion's origin, when there is one.
    pub base: Option<Seq<Seq<char>>>,
}

pub enum ProfileLookupV {
    Found(ProfileV),
    NotFound,
    /// Splitting an argument list on the way would take its nesting level out of
    /// the range of an `i32`.
    NestingOverflow,
}

/// The profile that an extrusion `solid` (an `IFCEXTRUDEDAREASOLID`) gives.
pub open spec fn solid_profile(tbl: Seq<Rec>, solid: Rec) -> ProfileLookupV {
    if !split_fits(solid.args) {
        ProfileLookupV::NestingOverflow
    } else {
        let sargs = split_pieces(solid.args);
        if sargs.len() < 4 {
            ProfileLookupV::NotFound
        } else {
            match lookup(tbl, sargs[0]) {
                Some(prof) => if refs(prof.args).len() > 0 {
                    match lookup(tbl, refs(prof.args).last()) {
                        Some(poly) => if poly.ty == "IFCPOLYLINE"@ {
                            ProfileLookupV::Found(
                                ProfileV {
                                    points: points_of(tbl, refs(poly.args)),
                                    height: sargs[3],
                                    base: base_point(tbl, sargs[1]),
                                },
                            )
                        } else {
                            ProfileLookupV::NotFound
                        },
                        None => ProfileLookupV::NotFound,
                    }
                } else {
                    ProfileLookupV::NotFound
                },
                None => ProfileLookupV::NotFound,
            }
        }
    }
}

/// The profile of the old body of an opening: its seventh argument names a shape,
/// whose last reference names a representation, whose last reference names an
/// extrusion.
pub open spec fn opening_profile(tbl: Seq<Rec>, op: Rec) -> ProfileLookupV {
    if !split_fits(op.args) {
        ProfileLookupV::NestingOverflow
    } else {
        let oa = split_pieces(op.args);
        if oa.len() < 7 {
            ProfileLookupV::NotFound
        } else {
            match lookup(tbl, oa[6]) {
                Some(shape) => if refs(shape.args).len() > 0 {
                    match lookup(tbl, refs(shape.args).last()) {
                        Some(rep) => if refs(rep.args).len() > 0 {
                            match lookup(tbl, refs(rep.args).last()) {
                                Some(solid) => if solid.ty == "IFCEXTRUDEDAREASOLID"@ {
                                    solid_profile(tbl, solid)
                                } else {
                                    ProfileLookupV::NotFound
                                },
                                None => ProfileLookupV::NotFound,
                            }
                        } else {
                            ProfileLookupV::NotFound
                        },
                        None => ProfileLookupV::NotFound,
                    }
                } else {
                    ProfileLookupV::NotFound
                },
                None => ProfileLookupV::NotFound,
            }
        }
    }
}

/// What an opening that has a wall with an axis offers to the geometry.
pub struct SourceV {
    pub axis: AxisV,
    pub profile: ProfileLookupV,
}

/// The source of the opening `op` in the wall `wall`, when the opening has one.
pub open spec fn opening_source(tbl: Seq<Rec>, op: Seq<char>, wall: Seq<char>) -> Option<SourceV> {
    match opening_axis(tbl, op, wall) {
        Some(axis) => Some(SourceV { axis, profile: opening_profile(tbl, lookup(tbl, op).unwrap()) }),
        None => None,
    }
}


/// The entity with id `id`.
pub fn get_entry<'a>(tbl: &'a Table, id: &[char]) -> (r: Option<&'a Entry>)
    ensures
        r matches Some(e) ==> lookup(tbl@, id@) == Some(e@),
        r is None ==> lookup(tbl@, id@) is None,
{
    tbl.get(id)
}

/// The literal characters of `s`.
fn lit(s: &str) -> (r: Vec<char>)
    ensures
        r@ == s@,
{
    chars_of(s)
}

fn has_type(e: &Entry, ty: &str) -> (r: bool)
    ensures
        r == (e@.ty == ty@),
{
    let t = lit(ty);
    same_chars(e.ty.as_slice(), t.as_slice())
}

pub open spec fn opt_texts(o: Option<Vec<Vec<char>>>) -> Option<Seq<Seq<char>>> {
    match o {
        Some(v) => Some(v.deep_view()),
        None => None,
    }
}

fn last_ref(v: &Vec<Vec<char>>) -> (r: &Vec<char>)
    requires
        v@.len() > 0,
    ensures
        r@ == v.deep_view().last(),
{
    let r = &v[v.len() - 1];
    assert(v.deep_view()[v@.len() - 1] == v@[v@.len() - 1]@);
    r
}

fn ref_at(v: &Vec<Vec<char>>, k: usize) -> (r: &Vec<char>)
    requires
        k < v@.len(),
    ensures
        r@ == v.deep_view()[k as int],
{
    assert(v.deep_view()[k as int] == v@[k as int]@);
    &v[k]
}

/// The coordinate texts of the point with id `id`.
pub fn point_coords_of(tbl: &Table, id: &[char]) -> (r: Option<Vec<Vec<char>>>)
    ensures
        opt_texts(r) == point_coords(tbl@, id@),
{
    match get_entry(tbl, id) {
        Some(e) => if has_type(e, "IFCCARTESIANPOINT") {
            Some(point_coordinates(e.args.as_slice()))
        } else {
            None
        },
        None => None,
    }
}

/// The coordinate texts of the two points of an axis.
pub struct AxisChars {
    pub start: Vec<Vec<char>>,
    pub end: Vec<Vec<char>>,
}

pub open spec fn opt_axis(o: Option<AxisChars>) -> Option<AxisV> {
    match o {
        Some(a) => Some(AxisV { start: a.start.deep_view(), end: a.end.deep_view() }),
        None => None,
    }
}

fn representation_axis_of(tbl: &Table, rep_id: &[char]) -> (r: Option<AxisChars>)
    ensures
        opt_axis(r) == representation_axis(tbl@, rep_id@),
{
    let rep = match get_entry(tbl, rep_id) {
        Some(e) => e,
        None => return None,
    };
    if !has_type(rep, "IFCSHAPEREPRESENTATION") {
        return None;
    }
    let upper = to_uppercase(rep.args.as_slice());
    let axis = lit("'AXIS'");
    if !contains_chars(upper.as_slice(), axis.as_slice()) {
        return None;
    }
    let items = extract_refs(rep.args.as_slice());
    if items.len() == 0 {
        return None;
    }
    let item = match get_entry(tbl, last_ref(&items).as_slice()) {
        Some(e) => e,
        None => return None,
    };
    if !has_type(item, "IFCPOLYLINE") {
        return None;
    }
    let pp = extract_refs(item.args.as_slice());
    if pp.len() < 2 {
        return None;
    }
    let a = point_coords_of(tbl, ref_at(&pp, 0).as_slice());
    let b = point_coords_of(tbl, ref_at(&pp, 1).as_slice());
    match (a, b) {
        (Some(a), Some(b)) => Some(AxisChars { start: a, end: b }),
        _ => None,
    }
}

/// The axis of a wall.
pub fn wall_axis_of(tbl: &Table, wall_id: &[char]) -> (r: Option<AxisChars>)
    ensures
        opt_axis(r) == wall_axis(tbl@, wall_id@),
{
    let w = match get_entry(tbl, wall_id) {
        Some(e) => e,
        None => return None,
    };
    let wr = extract_refs(w.args.as_slice());
    if wr.len() == 0 {
        return None;
    }
    let shape = match get_entry(tbl, last_ref(&wr).as_slice()) {
        Some(e) => e,
        None => return None,
    };
    let reps = extract_refs(shape.args.as_slice());
    let ghost rv = reps.deep_view();
    assert(wall_axis(tbl@, wall_id@) == first_axis_from(tbl@, rv, 0));
    let mut k: usize = 0;
    while k < reps.len()
        invariant
            k <= reps@.len(),
            rv == reps.deep_view(),
            rv == refs(shape@.args),
            wall_axis(tbl@, wall_id@) == first_axis_from(tbl@, rv, 0),
            first_axis_from(tbl@, rv, k as int) == first_axis_from(
                tbl@,
                rv,
                0,
            ),
        decreases reps@.len() - k,
    {
        let found = representation_axis_of(tbl, ref_at(&reps, k).as_slice());
        if found.is_some() {
            return found;
        }
        k += 1;
    }
    None
}

/// The axis of the wall of an opening (see `opening_axis`).
pub fn opening_axis_of(tbl: &Table, op: &[char], wall: &[char]) -> (r: Option<AxisChars>)
    ensures
        opt_axis(r) == opening_axis(tbl@, op@, wall@),
{
    let o = match get_entry(tbl, op) {
        Some(e) => e,
        None => return None,
    };
    let w = match get_entry(tbl, wall) {
        Some(e) => e,
        None => return None,
    };
    if !has_type(o, "IFCOPENINGELEMENT") && !has_type(o, "IFCOPENINGSTANDARDCASE") {
        return None;
    }
    let prefix = lit("IFCWALL");
    if !occurs_at_exec(w.ty.as_slice(), prefix.as_slice(), 0) {
        return None;
    }
    wall_axis_of(tbl, wall)
}


/// The coordinate texts of those of `ids` that are points.
pub fn points_of_ids(tbl: &Table, ids: &Vec<Vec<char>>) -> (r: Vec<Vec<Vec<char>>>)
    ensures
        r.deep_view() == points_of(tbl@, ids.deep_view()),
{
    let ghost iv = ids.deep_view();
    let mut r: Vec<Vec<Vec<char>>> = Vec::new();
    let mut k: usize = 0;
    assert(iv.take(0) =~= Seq::<Seq<char>>::empty());
    assert(r.deep_view() =~= points_of(tbl@, iv.take(0)));
    while k < ids.len()
        invariant
            k <= ids@.len(),
            iv == ids.deep_view(),
            r.deep_view() == points_of(tbl@, iv.take(k as int)),
        decreases ids@.len() - k,
    {
        let id = ref_at(ids, k);
        assert(iv.take(k + 1).drop_last() =~= iv.take(k as int));
        assert(iv.take(k + 1).last() == iv[k as int]);
        let ghost before = r.deep_view();
        match point_coords_of(tbl, id.as_slice()) {
            Some(c) => {
                let ghost cv = c.deep_view();
                r.push(c);
                assert(r.deep_view() =~= before.push(cv));
            },
            None => {},
        }
        k += 1;
    }
    assert(iv.take(ids@.len() as int) =~= iv);
    r
}

/// The coordinate texts of the origin of the placement `pos_id`.
pub fn base_point_of(tbl: &Table, pos_id: &[char]) -> (r: Option<Vec<Vec<char>>>)
    ensures
        opt_texts(r) == base_point(tbl@, pos_id@),
{
    let p = match get_entry(tbl, pos_id) {
        Some(e) => e,
        None => return None,
    };
    if !has_type(p, "IFCAXIS2PLACEMENT3D") {
        return None;
    }
    let rr = extract_refs(p.args.as_slice());
    if rr.len() == 0 {
        return None;
    }
    point_coords_of(tbl, ref_at(&rr, 0).as_slice())
}

/// What the old body of an opening gives, as characters.
pub struct ProfileChars {
    pub op_args: Vec<Vec<char>>,
    pub points: Vec<Vec<Vec<char>>>,
    pub height: Vec<char>,
    pub base: Option<Vec<Vec<char>>>,
}

pub enum ProfileLookupChars {
    Found(ProfileChars),
    NotFound,
    NestingOverflow,
}

pub open spec fn profile_view(p: ProfileLookupChars) -> ProfileLookupV {
    match p {
        ProfileLookupChars::Found(f) => ProfileLookupV::Found(
            ProfileV {
                points: f.points.deep_view(),
                height: f.height@,
                base: opt_texts(f.base),
            },
        ),
        ProfileLookupChars::NotFound => ProfileLookupV::NotFound,
        ProfileLookupChars::NestingOverflow => ProfileLookupV::NestingOverflow,
    }
}

fn solid_profile_of(tbl: &Table, oa: Vec<Vec<char>>, solid: &Entry) -> (r: ProfileLookupChars)
    ensures
        profile_view(r) == solid_profile(tbl@, solid@),
        r matches ProfileLookupChars::Found(f) ==> f.op_args == oa,
{
    let sargs = match try_split_args(solid.args.as_slice()) {
        Some(v) => v,
        None => return ProfileLookupChars::NestingOverflow,
    };
    if sargs.len() < 4 {
        return ProfileLookupChars::NotFound;
    }
    let prof = match get_entry(tbl, ref_at(&sargs, 0).as_slice()) {
        Some(e) => e,
        None => return ProfileLookupChars::NotFound,
    };
    let pr = extract_refs(prof.args.as_slice());
    if pr.len() == 0 {
        return ProfileLookupChars::NotFound;
    }
    let poly = match get_entry(tbl, last_ref(&pr).as_slice()) {
        Some(e) => e,
        None => return ProfileLookupChars::NotFound,
    };
    if !has_type(poly, "IFCPOLYLINE") {
        return ProfileLookupChars::NotFound;
    }
    let ids = extract_refs(poly.args.as_slice());
    let points = points_of_ids(tbl, &ids);
    let h = ref_at(&sargs, 3);
    let height = copy_range(h.as_slice(), 0, h.len());
    assert(height@ =~= h@);
    let base = base_point_of(tbl, ref_at(&sargs, 1).as_slice());
    ProfileLookupChars::Found(ProfileChars { op_args: oa, points, height, base })
}

/// The profile of the old body of the opening `op`.
pub fn opening_profile_of(tbl: &Table, op: &Entry) -> (r: ProfileLookupChars)
    ensures
        profile_view(r) == opening_profile(tbl@, op@),
        r matches ProfileLookupChars::Found(f) ==> f.op_args.deep_view() == split_pieces(op@.args)
            && f.op_args@.len() >= 7,
{
    let oa = match try_split_args(op.args.as_slice()) {
        Some(v) => v,
        None => return ProfileLookupChars::NestingOverflow,
    };
    if oa.len() < 7 {
        return ProfileLookupChars::NotFound;
    }
    let shape = match get_entry(tbl, ref_at(&oa, 6).as_slice()) {
        Some(e) => e,
        None => return ProfileLookupChars::NotFound,
    };
    let o_reps = extract_refs(shape.args.as_slice());
    if o_reps.len() == 0 {
        return ProfileLookupChars::NotFound;
    }
    let rep = match get_entry(tbl, last_ref(&o_reps).as_slice()) {
        Some(e) => e,
        None => return ProfileLookupChars::NotFound,
    };
    let solid_refs = extract_refs(rep.args.as_slice());
    if solid_refs.len() == 0 {
        return ProfileLookupChars::NotFound;
    }
    let solid = match get_entry(tbl, last_ref(&solid_refs).as_slice()) {
        Some(e) => e,
        None => return ProfileLookupChars::NotFound,
    };
    if !has_type(solid, "IFCEXTRUDEDAREASOLID") {
        return ProfileLookupChars::NotFound;
    }
    solid_profile_of(tbl, oa, solid)
}


/// The outline, height and origin texts of an opening's old body.
pub struct ProfileSource {
    /// The coordinate texts of the points of the old profile's outline.
    pub points: Vec<Vec<String>>,
    /// The text of the old extrusion's depth.
    pub height: String,
    /// The coordinate texts of the old extrusion's origin, when there is one.
    pub base: Option<Vec<String>>,
}

/// What the search for an opening's old body found.
pub enum ProfileLookup {
    Found(ProfileSource),
    NotFound,
    /// Splitting an argument list on the way would take its nesting level out of the
    /// range of an `i32`.
    NestingOverflow,
}

/// What an opening in a wall with an axis offers to the geometry: the coordinate
/// texts of the axis' two points, and its old body.
pub struct OpeningSource {
    pub axis_start: Vec<String>,
    pub axis_end: Vec<String>,
    pub profile: ProfileLookup,
}

pub open spec fn opt_strings(o: Option<Vec<String>>) -> Option<Seq<Seq<char>>> {
    match o {
        Some(v) => Some(v.deep_view()),
        None => None,
    }
}

pub open spec fn source_view(s: OpeningSource) -> SourceV {
    SourceV {
        axis: AxisV { start: s.axis_start.deep_view(), end: s.axis_end.deep_view() },
        profile: match s.profile {
            ProfileLookup::Found(f) => ProfileLookupV::Found(
                ProfileV { points: f.points.deep_view(), height: f.height@, base: opt_strings(f.base) },
            ),
            ProfileLookup::NotFound => ProfileLookupV::NotFound,
            ProfileLookup::NestingOverflow => ProfileLookupV::NestingOverflow,
        },
    }
}

fn strings_of(v: &Vec<Vec<char>>) -> (r: Vec<String>)
    ensures
        r.deep_view() == v.deep_view(),
{
    let mut r: Vec<String> = Vec::new();
    let mut k: usize = 0;
    while k < v.len()
        invariant
            k <= v@.len(),
            r.deep_view() == v.deep_view().take(k as int),
        decreases v@.len() - k,
    {
        let s = string_of(v[k].as_slice());
        let ghost before = r.deep_view();
        r.push(s);
        assert(v.deep_view()[k as int] == v@[k as int]@);
        assert(r.deep_view() =~= before.push(v.deep_view()[k as int]));
        assert(v.deep_view().take(k + 1) =~= v.deep_view().take(k as int).push(v.deep_view()[k as int]));
        k += 1;
    }
    assert(v.deep_view().take(v@.len() as int) =~= v.deep_view());
    r
}

fn nested_strings_of(v: &Vec<Vec<Vec<char>>>) -> (r: Vec<Vec<String>>)
    ensures
        r.deep_view() == v.deep_view(),
{
    let mut r: Vec<Vec<String>> = Vec::new();
    let mut k: usize = 0;
    while k < v.len()
        invariant
            k <= v@.len(),
            r.deep_view() == v.deep_view().take(k as int),
        decreases v@.len() - k,
    {
        let s = strings_of(&v[k]);
        let ghost before = r.deep_view();
        let ghost sv = s.deep_view();
        r.push(s);
        assert(v.deep_view()[k as int] == v@[k as int].deep_view());
        assert(r.deep_view() =~= before.push(sv));
        assert(v.deep_view().take(k + 1) =~= v.deep_view().take(k as int).push(v.deep_view()[k as int]));
        k += 1;
    }
    assert(v.deep_view().take(v@.len() as int) =~= v.deep_view());
    r
}

fn public_source(axis: &AxisChars, profile: &ProfileLookupChars) -> (r: OpeningSource)
    ensures
        source_view(r) == (SourceV {
            axis: AxisV { start: axis.start.deep_view(), end: axis.end.deep_view() },
            profile: profile_view(*profile),
        }),
{
    let p = match profile {
        ProfileLookupChars::Found(f) => {
            let base = match &f.base {
                Some(b) => Some(strings_of(b)),
                None => None,
            };
            ProfileLookup::Found(
                ProfileSource {
                    points: nested_strings_of(&f.points),
                    height: string_of(f.height.as_slice()),
                    base,
                },
            )
        },
        ProfileLookupChars::NotFound => ProfileLookup::NotFound,
        ProfileLookupChars::NestingOverflow => ProfileLookup::NestingOverflow,
    };
    OpeningSource { axis_start: strings_of(&axis.start), axis_end: strings_of(&axis.end), profile: p }
}

/// An opening of the file with what it offers to the geometry, if anything.
pub struct CandV {
    pub opening: Seq<char>,
    pub source: Option<SourceV>,
}

/// The openings of a table, each with its source.
pub open spec fn candidates(tbl: Seq<Rec>) -> Seq<CandV> {
    opening_hosts(tbl).map_values(
        |h: (Seq<char>, Seq<char>)| CandV { opening: h.0, source: opening_source(tbl, h.0, h.1) },
    )
}

/// An opening with its source, and the pieces of its argument list when its old body
/// was found.
pub struct Candidate {
    pub opening: Vec<char>,
    pub source: Option<OpeningSource>,
    pub op_args: Vec<Vec<char>>,
}

pub open spec fn candidate_view(c: Candidate) -> CandV {
    CandV {
        opening: c.opening@,
        source: match c.source {
            Some(s) => Some(source_view(s)),
            None => None,
        },
    }
}

/// Whether the pieces kept with a candidate are those of its opening's arguments.
pub open spec fn candidate_args_ok(tbl: Seq<Rec>, c: Candidate) -> bool {
    (c.source matches Some(s) && s.profile is Found) ==> {
        &&& lookup(tbl, c.opening@) is Some
        &&& c.op_args.deep_view() == split_pieces(lookup(tbl, c.opening@).unwrap().args)
        &&& c.op_args@.len() >= 7
    }
}

/// The openings of a table, each with its source.
pub fn find_candidates(tbl: &Table, hosts: &Vec<HostPair>) -> (r: Vec<Candidate>)
    requires
        hosts_view(hosts@) == opening_hosts(tbl@),
    ensures
        r@.map_values(|c: Candidate| candidate_view(c)) == candidates(tbl@),
        forall|k: int| 0 <= k < r@.len() ==> candidate_args_ok(tbl@, #[trigger] r@[k]),
{
    let ghost v = tbl@;
    let ghost all = candidates(v);
    let mut r: Vec<Candidate> = Vec::new();
    let mut k: usize = 0;
    while k < hosts.len()
        invariant
            k <= hosts@.len(),
            v == tbl@,
            all == candidates(v),
            hosts_view(hosts@) == opening_hosts(v),
            r@.map_values(|c: Candidate| candidate_view(c)) == all.take(k as int),
            forall|q: int| 0 <= q < r@.len() ==> candidate_args_ok(v, #[trigger] r@[q]),
        decreases hosts@.len() - k,
    {
        let h = &hosts[k];
        assert(hosts_view(hosts@)[k as int] == (h.opening@, h.wall@));
        let opening = copy_range(h.opening.as_slice(), 0, h.opening.len());
        assert(opening@ =~= h.opening@);
        let c = match opening_axis_of(tbl, h.opening.as_slice(), h.wall.as_slice()) {
            Some(axis) => {
                let op = get_entry(tbl, h.opening.as_slice());
                match op {
                    Some(o) => {
                        let prof = opening_profile_of(tbl, o);
                        let src = public_source(&axis, &prof);
                        let op_args = match prof {
                            ProfileLookupChars::Found(f) => f.op_args,
                            _ => Vec::new(),
                        };
                        Candidate { opening, source: Some(src), op_args }
                    },
                    None => {
                        proof {
                            assert(false);
                        }
                        Candidate { opening, source: None, op_args: Vec::new() }
                    },
                }
            },
            None => Candidate { opening, source: None, op_args: Vec::new() },
        };
        let ghost before = r@;
        r.push(c);
        proof {
            assert(r@.map_values(|c: Candidate| candidate_view(c)) =~= before.map_values(
                |c: Candidate| candidate_view(c),
            ).push(candidate_view(c)));
            assert(all.take(k + 1) =~= all.take(k as int).push(all[k as int]));
            assert forall|q: int| 0 <= q < r@.len() implies candidate_args_ok(v, #[trigger] r@[q]) by {
                if q < k {
                    assert(r@[q] == before[q]);
                }
            }
        }
        k += 1;
    }
    assert(all.take(hosts@.len() as int) =~= all);
    r
}

} // verus!
