//! The text that a repaired opening adds to the file, and the record that replaces
//! the opening.

use vstd::prelude::*;
use crate::text::{chars_of, decimal, decimal_chars};

verus! {

/// The texts of the numbers of a repaired opening, written the way the file writes
/// them: the new profile is the rectangle from `(0.0, 0.0)` to `(width, height)`,
/// placed at `(origin_x, origin_y, base_z)` with its normal along
/// `(normal_x, normal_y, 0)` and its reference direction along `(axis_x, axis_y, 0)`,
/// and extruded by `depth`.
pub struct OpeningGeometry {
    pub width: String,
    pub height: String,
    pub origin_x: String,
    pub origin_y: String,
    pub base_z: String,
    pub normal_x: String,
    pub normal_y: String,
    pub axis_x: String,
    pub axis_y: String,
    pub depth: String,
}

pub struct GeomV {
    pub width: Seq<char>,
    pub height: Seq<char>,
    pub origin_x: Seq<char>,
    pub origin_y: Seq<char>,
    pub base_z: Seq<char>,
    pub normal_x: Seq<char>,
    pub normal_y: Seq<char>,
    pub axis_x: Seq<char>,
    pub axis_y: Seq<char>,
    pub depth: Seq<char>,
}

pub open spec fn geom_view(g: OpeningGeometry) -> GeomV {
    GeomV {
        width: g.width@,
        height: g.height@,
        origin_x: g.origin_x@,
        origin_y: g.origin_y@,
        base_z: g.base_z@,
        normal_x: g.normal_x@,
        normal_y: g.normal_y@,
        axis_x: g.axis_x@,
        axis_y: g.axis_y@,
        depth: g.depth@,
    }
}

/// The id `#<n>`.
pub open spec fn id_text(n: nat) -> Seq<char> {
    seq!['#'] + decimal(n)
}

/// The coordinate `0.0`, as the file writes it.
pub open spec fn zero_text() -> Seq<char> {
    "0.0"@
}

/// A record of the file: its id, ` = `, and the rest of the record.
pub open spec fn record_line(id: Seq<char>, body: Seq<char>) -> Seq<char> {
    id + " = "@ + body
}

/// What follows ` = ` in a record: its type name, `(`, its arguments and `);`.
pub open spec fn record_body(ty: Seq<char>, args: Seq<char>) -> Seq<char> {
    ty + "("@ + args + ");"@
}

/// A point of the plane.
pub open spec fn point2_line(id: Seq<char>, x: Seq<char>, y: Seq<char>) -> Seq<char> {
    record_line(id, record_body("IFCCARTESIANPOINT"@, "("@ + x + ","@ + y + ")"@))
}

/// The fifteen records of a repaired opening whose new ids start at `n`: five corners
/// of the rectangle, its polyline, the profile, the origin point, the normal, the
/// reference direction, the placement, the extrusion direction, the extrusion, the
/// body representation in the context `ctx`, and the product shape.
#[verifier::opaque]
pub open spec fn opening_lines(n: nat, ctx: Seq<char>, g: GeomV) -> Seq<Seq<char>> {
    let p0 = id_text(n);
    let p1 = id_text(n + 1);
    let p2 = id_text(n + 2);
    let p3 = id_text(n + 3);
    let p4 = id_text(n + 4);
    let poly = id_text(n + 5);
    let prof = id_text(n + 6);
    let loc = id_text(n + 7);
    let axis = id_text(n + 8);
    let refd = id_text(n + 9);
    let pos = id_text(n + 10);
    let dir = id_text(n + 11);
    let solid = id_text(n + 12);
    let rep = id_text(n + 13);
    let shape = id_text(n + 14);
    seq![
        point2_line(p0, zero_text(), zero_text()),
        point2_line(p1, g.width, zero_text()),
        point2_line(p2, g.width, g.height),
        point2_line(p3, zero_text(), g.height),
        point2_line(p4, zero_text(), zero_text()),
        record_line(poly, record_body("IFCPOLYLINE"@, "("@ + p0 + ","@ + p1 + ","@ + p2 + ","@ + p3 + ","@ + p4 + ")"@)),
        record_line(prof, record_body("IFCARBITRARYCLOSEDPROFILEDEF"@, ".AREA.,$,"@ + poly)),
        record_line(loc, record_body("IFCCARTESIANPOINT"@, "("@ + g.origin_x + ","@ + g.origin_y + ","@ + g.base_z + ")"@)),
        record_line(axis, record_body("IFCDIRECTION"@, "("@ + g.normal_x + ","@ + g.normal_y + ",0.)"@)),
        record_line(refd, record_body("IFCDIRECTION"@, "("@ + g.axis_x + ","@ + g.axis_y + ",0.)"@)),
        record_line(pos, record_body("IFCAXIS2PLACEMENT3D"@, loc + ","@ + axis + ","@ + refd)),
        record_line(dir, record_body("IFCDIRECTION"@, "(0.,0.,1.)"@)),
        record_line(solid, record_body("IFCEXTRUDEDAREASOLID"@, prof + ","@ + pos + ","@ + dir + ","@ + g.depth)),
        record_line(rep, record_body("IFCSHAPEREPRESENTATION"@, ctx + ",'Body','SweptSolid',("@ + solid + ")"@)),
        record_line(shape, record_body("IFCPRODUCTDEFINITIONSHAPE"@, "$,$,("@ + rep + ")"@)),
    ]
}

/// The pieces of `ls` with `sep` between each two.
pub open spec fn join(ls: Seq<Seq<char>>, sep: Seq<char>) -> Seq<char>
    decreases ls.len(),
{
    if ls.len() == 0 {
        Seq::empty()
    } else if ls.len() == 1 {
        ls[0]
    } else {
        join(ls.drop_last(), sep) + sep + ls.last()
    }
}

/// The record that takes the place of a repaired opening: the same id and arguments,
/// as an `IFCOPENINGSTANDARDCASE` whose seventh argument is the new shape.
pub open spec fn replacement(op: Seq<char>, oa: Seq<Seq<char>>, shape: Seq<char>) -> Seq<char> {
    op + " = IFCOPENINGSTANDARDCASE("@ + join(oa.update(6, shape), ","@) + ");"@
}

/// Appends the characters of `s`.
pub fn push_str(v: &mut Vec<char>, s: &str)
    ensures
        final(v)@ == old(v)@ + s@,
{
    let c = chars_of(s);
    push_chars(v, c.as_slice());
}

/// Appends the characters `s`.
pub fn push_chars(v: &mut Vec<char>, s: &[char])
    ensures
        final(v)@ == old(v)@ + s@,
{
    let ghost start = v@;
    let mut k: usize = 0;
    while k < s.len()
        invariant
            k <= s@.len(),
            v@ == start + s@.take(k as int),
        decreases s@.len() - k,
    {
        v.push(s[k]);
        k += 1;
        assert(v@ =~= start + s@.take(k as int));
    }
    assert(s@.take(s@.len() as int) =~= s@);
}

/// The id `#<n>`.
pub fn id_chars(n: usize) -> (r: Vec<char>)
    ensures
        r@ == id_text(n as nat),
{
    let mut r: Vec<char> = Vec::new();
    r.push('#');
    let d = decimal_chars(n);
    push_chars(&mut r, d.as_slice());
    assert(r@ =~= id_text(n as nat));
    r
}

/// The record `id = body`.
fn line_chars(id: &Vec<char>, body: &Vec<char>) -> (r: Vec<char>)
    ensures
        r@ == record_line(id@, body@),
{
    let mut r = id.clone();
    push_str(&mut r, " = ");
    push_chars(&mut r, body.as_slice());
    r
}

/// The rest of a record after ` = `, for the type `ty` and the arguments `args`.
fn body_chars(ty: &str, args: &Vec<char>) -> (r: Vec<char>)
    ensures
        r@ == record_body(ty@, args@),
{
    let mut r: Vec<char> = Vec::new();
    push_str(&mut r, ty);
    push_str(&mut r, "(");
    push_chars(&mut r, args.as_slice());
    push_str(&mut r, ");");
    r
}

fn point2_chars(id: &Vec<char>, x: &Vec<char>, y: &Vec<char>) -> (r: Vec<char>)
    ensures
        r@ == point2_line(id@, x@, y@),
{
    let mut a: Vec<char> = Vec::new();
    push_str(&mut a, "(");
    push_chars(&mut a, x.as_slice());
    push_str(&mut a, ",");
    push_chars(&mut a, y.as_slice());
    push_str(&mut a, ")");
    line_chars(id, &body_chars("IFCCARTESIANPOINT", &a))
}

/// The number texts of a repaired opening, as characters.
pub struct GeomChars {
    pub width: Vec<char>,
    pub height: Vec<char>,
    pub origin_x: Vec<char>,
    pub origin_y: Vec<char>,
    pub base_z: Vec<char>,
    pub normal_x: Vec<char>,
    pub normal_y: Vec<char>,
    pub axis_x: Vec<char>,
    pub axis_y: Vec<char>,
    pub depth: Vec<char>,
}

pub open spec fn geom_chars_view(g: GeomChars) -> GeomV {
    GeomV {
        width: g.width@,
        height: g.height@,
        origin_x: g.origin_x@,
        origin_y: g.origin_y@,
        base_z: g.base_z@,
        normal_x: g.normal_x@,
        normal_y: g.normal_y@,
        axis_x: g.axis_x@,
        axis_y: g.axis_y@,
        depth: g.depth@,
    }
}

pub fn geometry_chars(g: &OpeningGeometry) -> (r: GeomChars)
    ensures
        geom_chars_view(r) == geom_view(*g),
{
    GeomChars {
        width: chars_of(g.width.as_str()),
        height: chars_of(g.height.as_str()),
        origin_x: chars_of(g.origin_x.as_str()),
        origin_y: chars_of(g.origin_y.as_str()),
        base_z: chars_of(g.base_z.as_str()),
        normal_x: chars_of(g.normal_x.as_str()),
        normal_y: chars_of(g.normal_y.as_str()),
        axis_x: chars_of(g.axis_x.as_str()),
        axis_y: chars_of(g.axis_y.as_str()),
        depth: chars_of(g.depth.as_str()),
    }
}

fn push_line(lines: &mut Vec<Vec<char>>, l: Vec<char>)
    ensures
        final(lines).deep_view() == old(lines).deep_view().push(l@),
{
    let ghost lv = l@;
    let ghost before = lines.deep_view();
    assert(l.deep_view() =~= lv);
    lines.push(l);
    assert(lines.deep_view() =~= before.push(lv));
}

/// The fifteen records of a repaired opening whose new ids start at `n`.
pub fn opening_line_chars(n: usize, ctx: &Vec<char>, g: &GeomChars) -> (r: Vec<Vec<char>>)
    requires
        n + 14 <= usize::MAX,
    ensures
        r.deep_view() == opening_lines(n as nat, ctx@, geom_chars_view(*g)),
{
    let p0 = id_chars(n);
    let p1 = id_chars(n + 1);
    let p2 = id_chars(n + 2);
    let p3 = id_chars(n + 3);
    let p4 = id_chars(n + 4);
    let poly = id_chars(n + 5);
    let prof = id_chars(n + 6);
    let loc = id_chars(n + 7);
    let axis = id_chars(n + 8);
    let refd = id_chars(n + 9);
    let pos = id_chars(n + 10);
    let dir = id_chars(n + 11);
    let solid = id_chars(n + 12);
    let rep = id_chars(n + 13);
    let shape = id_chars(n + 14);
    let zero = chars_of("0.0");
    let mut lines: Vec<Vec<char>> = Vec::new();
    push_line(&mut lines, point2_chars(&p0, &zero, &zero));
    push_line(&mut lines, point2_chars(&p1, &g.width, &zero));
    push_line(&mut lines, point2_chars(&p2, &g.width, &g.height));
    push_line(&mut lines, point2_chars(&p3, &zero, &g.height));
    push_line(&mut lines, point2_chars(&p4, &zero, &zero));

    let mut a: Vec<char> = Vec::new();
    push_str(&mut a, "(");
    push_chars(&mut a, p0.as_slice());
    push_str(&mut a, ",");
    push_chars(&mut a, p1.as_slice());
    push_str(&mut a, ",");
    push_chars(&mut a, p2.as_slice());
    push_str(&mut a, ",");
    push_chars(&mut a, p3.as_slice());
    push_str(&mut a, ",");
    push_chars(&mut a, p4.as_slice());
    push_str(&mut a, ")");
    push_line(&mut lines, line_chars(&poly, &body_chars("IFCPOLYLINE", &a)));

    let mut a: Vec<char> = Vec::new();
    push_str(&mut a, ".AREA.,$,");
    push_chars(&mut a, poly.as_slice());
    push_line(&mut lines, line_chars(&prof, &body_chars("IFCARBITRARYCLOSEDPROFILEDEF", &a)));

    let mut a: Vec<char> = Vec::new();
    push_str(&mut a, "(");
    push_chars(&mut a, g.origin_x.as_slice());
    push_str(&mut a, ",");
    push_chars(&mut a, g.origin_y.as_slice());
    push_str(&mut a, ",");
    push_chars(&mut a, g.base_z.as_slice());
    push_str(&mut a, ")");
    push_line(&mut lines, line_chars(&loc, &body_chars("IFCCARTESIANPOINT", &a)));

    let mut a: Vec<char> = Vec::new();
    push_str(&mut a, "(");
    push_chars(&mut a, g.normal_x.as_slice());
    push_str(&mut a, ",");
    push_chars(&mut a, g.normal_y.as_slice());
    push_str(&mut a, ",0.)");
    push_line(&mut lines, line_chars(&axis, &body_chars("IFCDIRECTION", &a)));

    let mut a: Vec<char> = Vec::new();
    push_str(&mut a, "(");
    push_chars(&mut a, g.axis_x.as_slice());
    push_str(&mut a, ",");
    push_chars(&mut a, g.axis_y.as_slice());
    push_str(&mut a, ",0.)");
    push_line(&mut lines, line_chars(&refd, &body_chars("IFCDIRECTION", &a)));

    let mut a: Vec<char> = Vec::new();
    push_chars(&mut a, loc.as_slice());
    push_str(&mut a, ",");
    push_chars(&mut a, axis.as_slice());
    push_str(&mut a, ",");
    push_chars(&mut a, refd.as_slice());
    assert(a@ =~= loc@ + ","@ + axis@ + ","@ + refd@);
    push_line(&mut lines, line_chars(&pos, &body_chars("IFCAXIS2PLACEMENT3D", &a)));

    let mut a: Vec<char> = Vec::new();
    push_str(&mut a, "(0.,0.,1.)");
    push_line(&mut lines, line_chars(&dir, &body_chars("IFCDIRECTION", &a)));

    let mut a: Vec<char> = Vec::new();
    push_chars(&mut a, prof.as_slice());
    push_str(&mut a, ",");
    push_chars(&mut a, pos.as_slice());
    push_str(&mut a, ",");
    push_chars(&mut a, dir.as_slice());
    push_str(&mut a, ",");
    push_chars(&mut a, g.depth.as_slice());
    assert(a@ =~= prof@ + ","@ + pos@ + ","@ + dir@ + ","@ + g.depth@);
    push_line(&mut lines, line_chars(&solid, &body_chars("IFCEXTRUDEDAREASOLID", &a)));

    let mut a: Vec<char> = Vec::new();
    push_chars(&mut a, ctx.as_slice());
    push_str(&mut a, ",'Body','SweptSolid',(");
    push_chars(&mut a, solid.as_slice());
    push_str(&mut a, ")");
    assert(a@ =~= ctx@ + ",'Body','SweptSolid',("@ + solid@ + ")"@);
    push_line(&mut lines, line_chars(&rep, &body_chars("IFCSHAPEREPRESENTATION", &a)));

    let mut a: Vec<char> = Vec::new();
    push_str(&mut a, "$,$,(");
    push_chars(&mut a, rep.as_slice());
    push_str(&mut a, ")");
    push_line(&mut lines, line_chars(&shape, &body_chars("IFCPRODUCTDEFINITIONSHAPE", &a)));

    proof {
        reveal(opening_lines);
    }
    assert(lines.deep_view() =~= opening_lines(n as nat, ctx@, geom_chars_view(*g)));
    lines
}


/// The pieces `ls` joined with `sep` between each two.
pub fn join_chars(ls: &Vec<Vec<char>>, sep: &[char]) -> (r: Vec<char>)
    ensures
        r@ == join(ls.deep_view(), sep@),
{
    let ghost lv = ls.deep_view();
    let mut r: Vec<char> = Vec::new();
    let mut k: usize = 0;
    while k < ls.len()
        invariant
            k <= ls@.len(),
            lv == ls.deep_view(),
            r@ == join(lv.take(k as int), sep@),
        decreases ls@.len() - k,
    {
        assert(lv[k as int] == ls@[k as int]@);
        assert(lv.take(k + 1).drop_last() =~= lv.take(k as int));
        if k > 0 {
            push_chars(&mut r, sep);
        }
        push_chars(&mut r, ls[k].as_slice());
        proof {
            if k == 0 {
                assert(r@ =~= lv.take(1)[0]);
            }
        }
        k += 1;
    }
    assert(lv.take(ls@.len() as int) =~= lv);
    r
}

/// A copy of a sequence of texts.
pub fn copy_texts(v: &Vec<Vec<char>>) -> (r: Vec<Vec<char>>)
    ensures
        r.deep_view() == v.deep_view(),
{
    let mut r: Vec<Vec<char>> = Vec::new();
    let mut k: usize = 0;
    while k < v.len()
        invariant
            k <= v@.len(),
            r.deep_view() == v.deep_view().take(k as int),
        decreases v@.len() - k,
    {
        let mut c: Vec<char> = Vec::new();
        push_chars(&mut c, v[k].as_slice());
        let ghost cv = c@;
        assert(c.deep_view() =~= cv);
        let ghost before = r.deep_view();
        r.push(c);
        assert(v.deep_view()[k as int] == v@[k as int]@);
        assert(r.deep_view() =~= before.push(cv));
        assert(v.deep_view().take(k + 1) =~= v.deep_view().take(k as int).push(v.deep_view()[k as int]));
        k += 1;
    }
    assert(v.deep_view().take(v@.len() as int) =~= v.deep_view());
    r
}

/// The record that takes the place of a repaired opening.
pub fn replacement_chars(op: &Vec<char>, oa: &Vec<Vec<char>>, shape: &Vec<char>) -> (r: Vec<char>)
    requires
        oa@.len() >= 7,
    ensures
        r@ == replacement(op@, oa.deep_view(), shape@),
{
    let mut args = copy_texts(oa);
    let mut sh: Vec<char> = Vec::new();
    push_chars(&mut sh, shape.as_slice());
    assert(sh@ =~= shape@);
    assert(sh.deep_view() =~= shape@);
    let ghost before = args@;
    assert(args.deep_view().len() == args@.len());
    assert(oa.deep_view().len() == oa@.len());
    args.set(6, sh);
    assert(args@ == before.update(6, sh));
    assert forall|i: int| 0 <= i < args@.len() implies #[trigger] args.deep_view()[i] == oa.deep_view().update(6, shape@)[i] by {
        if i != 6 {
            assert(args@[i] == before[i]);
        }
    }
    assert(args.deep_view() =~= oa.deep_view().update(6, shape@));
    let mut r = op.clone();
    push_str(&mut r, " = IFCOPENINGSTANDARDCASE(");
    let j = join_chars(&args, chars_of(",").as_slice());
    push_chars(&mut r, j.as_slice());
    push_str(&mut r, ");");
    r
}


/// Appends copies of the lines `more`.
pub fn append_lines(lines: &mut Vec<Vec<char>>, more: &Vec<Vec<char>>)
    ensures
        final(lines).deep_view() == old(lines).deep_view() + more.deep_view(),
{
    let ghost start = lines.deep_view();
    let mut k: usize = 0;
    while k < more.len()
        invariant
            k <= more@.len(),
            lines.deep_view() == start + more.deep_view().take(k as int),
        decreases more@.len() - k,
    {
        let mut c: Vec<char> = Vec::new();
        push_chars(&mut c, more[k].as_slice());
        assert(more.deep_view()[k as int] == more@[k as int]@);
        push_line(lines, c);
        assert(more.deep_view().take(k + 1) =~= more.deep_view().take(k as int).push(more.deep_view()[k as int]));
        k += 1;
        assert(lines.deep_view() =~= start + more.deep_view().take(k as int));
    }
    assert(more.deep_view().take(more@.len() as int) =~= more.deep_view());
}

} // verus!
