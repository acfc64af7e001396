//! What the conversion's reading of a file picks out, stated over the entities
//! themselves: the body context, the openings with their walls, the walls that give an
//! axis, the origin of an opening's old body, and the records written for an opening.

use vstd::prelude::*;
use crate::args::{coordinate_texts, split_pieces};
use crate::emit::{id_text, opening_lines, record_body, record_line, zero_text, GeomV};
use crate::laws::begins_with;
use crate::plan::{
    body_context, body_context_from, host_index_from, host_insert, hosts_upto, lemma_host_index_from,
    opening_hosts,
};
use crate::scan::refs;
use crate::source::{
    base_point, opening_axis, opening_source, points_of, solid_profile, wall_axis, ProfileLookupV,
};
use crate::table::{lookup, Rec};
use crate::text::{contains_seq, uppercase};

verus! {

proof fn lemma_body_context_from(tbl: Seq<Rec>, j: int)
    requires
        0 <= j <= tbl.len(),
    ensures
        body_context_from(tbl, j) matches Some(id) ==> exists|m: int|
            j <= m < tbl.len() && #[trigger] tbl[m].id == id
                && tbl[m].ty == "IFCGEOMETRICREPRESENTATIONSUBCONTEXT"@
                && contains_seq(uppercase(tbl[m].args), "'BODY'"@)
                && contains_seq(uppercase(tbl[m].args), "'MODEL'"@)
                && forall|i: int| j <= i < m ==> !(tbl[i].ty == "IFCGEOMETRICREPRESENTATIONSUBCONTEXT"@
                    && contains_seq(uppercase(tbl[i].args), "'BODY'"@)
                    && contains_seq(uppercase(tbl[i].args), "'MODEL'"@)),
        body_context_from(tbl, j) is None ==> forall|i: int| j <= i < tbl.len() ==> !(
            #[trigger] tbl[i].ty == "IFCGEOMETRICREPRESENTATIONSUBCONTEXT"@
                && contains_seq(uppercase(tbl[i].args), "'BODY'"@)
                && contains_seq(uppercase(tbl[i].args), "'MODEL'"@)),
    decreases tbl.len() - j,
{
    if j < tbl.len() {
        lemma_body_context_from(tbl, j + 1);
        let r = tbl[j];
        if r.ty == "IFCGEOMETRICREPRESENTATIONSUBCONTEXT"@ && contains_seq(uppercase(r.args), "'BODY'"@)
            && contains_seq(uppercase(r.args), "'MODEL'"@) {
            assert(body_context_from(tbl, j) == Some(r.id));
            assert(tbl[j].id == r.id);
        } else {
            assert(body_context_from(tbl, j) == body_context_from(tbl, j + 1));
            if let Some(id) = body_context_from(tbl, j + 1) {
                let m = choose|m: int|
                    j + 1 <= m < tbl.len() && #[trigger] tbl[m].id == id
                        && tbl[m].ty == "IFCGEOMETRICREPRESENTATIONSUBCONTEXT"@
                        && contains_seq(uppercase(tbl[m].args), "'BODY'"@)
                        && contains_seq(uppercase(tbl[m].args), "'MODEL'"@)
                        && forall|i: int| j + 1 <= i < m ==> !(tbl[i].ty == "IFCGEOMETRICREPRESENTATIONSUBCONTEXT"@
                            && contains_seq(uppercase(tbl[i].args), "'BODY'"@)
                            && contains_seq(uppercase(tbl[i].args), "'MODEL'"@));
                assert(tbl[m].id == id);
            }
        }
    }
}

/// The body context that the new body records name is the id of the first entity that
/// is an `IFCGEOMETRICREPRESENTATIONSUBCONTEXT` whose upper-cased arguments hold both
/// `'BODY'` and `'MODEL'`; there is none exactly when no entity is such a subcontext.
pub proof fn law_body_context(tbl: Seq<Rec>)
    ensures
        body_context(tbl) matches Some(id) ==> exists|m: int|
            0 <= m < tbl.len() && #[trigger] tbl[m].id == id
                && tbl[m].ty == "IFCGEOMETRICREPRESENTATIONSUBCONTEXT"@
                && contains_seq(uppercase(tbl[m].args), "'BODY'"@)
                && contains_seq(uppercase(tbl[m].args), "'MODEL'"@)
                && forall|i: int| 0 <= i < m ==> !(tbl[i].ty == "IFCGEOMETRICREPRESENTATIONSUBCONTEXT"@
                    && contains_seq(uppercase(tbl[i].args), "'BODY'"@)
                    && contains_seq(uppercase(tbl[i].args), "'MODEL'"@)),
        body_context(tbl) is None <==> forall|i: int| 0 <= i < tbl.len() ==> !(
            #[trigger] tbl[i].ty == "IFCGEOMETRICREPRESENTATIONSUBCONTEXT"@
                && contains_seq(uppercase(tbl[i].args), "'BODY'"@)
                && contains_seq(uppercase(tbl[i].args), "'MODEL'"@)),
{
    lemma_body_context_from(tbl, 0);
}

proof fn lemma_hosts_cover(tbl: Seq<Rec>, m: int)
    requires
        0 <= m <= tbl.len(),
    ensures
        forall|j: int|
            0 <= j < m && #[trigger] tbl[j].ty == "IFCRELVOIDSELEMENT"@ && refs(tbl[j].args).len() >= 2 ==> {
                let rf = refs(tbl[j].args);
                exists|k: int|
                    0 <= k < hosts_upto(tbl, m).len() && #[trigger] hosts_upto(tbl, m)[k].0 == rf[rf.len() - 1] && (
                    hosts_upto(tbl, m)[k].1 == rf[rf.len() - 2] || exists|j2: int|
                        j < j2 < m && #[trigger] tbl[j2].ty == "IFCRELVOIDSELEMENT"@ && refs(tbl[j2].args).len() >= 2
                            && refs(tbl[j2].args)[refs(tbl[j2].args).len() - 1] == rf[rf.len() - 1])
            },
    decreases m,
{
    if m > 0 {
        lemma_hosts_cover(tbl, m - 1);
        let hs = hosts_upto(tbl, m - 1);
        let r = tbl[m - 1];
        let nh = hosts_upto(tbl, m);
        if r.ty == "IFCRELVOIDSELEMENT"@ && refs(r.args).len() >= 2 {
            let rf = refs(r.args);
            let op = rf[rf.len() - 1];
            let wall = rf[rf.len() - 2];
            lemma_host_index_from(hs, op, 0);
            assert(nh == host_insert(hs, op, wall));
            let pos = match host_index_from(hs, op, 0) {
                Some(q) => q,
                None => hs.len() as int,
            };
            assert(0 <= pos < nh.len() && nh[pos] == (op, wall));
            assert forall|j: int|
                0 <= j < m && #[trigger] tbl[j].ty == "IFCRELVOIDSELEMENT"@ && refs(tbl[j].args).len() >= 2 implies {
                    let rfj = refs(tbl[j].args);
                    exists|k: int|
                        0 <= k < nh.len() && #[trigger] nh[k].0 == rfj[rfj.len() - 1] && (nh[k].1 == rfj[rfj.len() - 2]
                            || exists|j2: int|
                            j < j2 < m && #[trigger] tbl[j2].ty == "IFCRELVOIDSELEMENT"@ && refs(tbl[j2].args).len() >= 2
                                && refs(tbl[j2].args)[refs(tbl[j2].args).len() - 1] == rfj[rfj.len() - 1])
                } by {
                let rfj = refs(tbl[j].args);
                if j == m - 1 {
                    assert(nh[pos].0 == rfj[rfj.len() - 1]);
                } else if rfj[rfj.len() - 1] == op {
                    assert(nh[pos].0 == rfj[rfj.len() - 1]);
                    assert(tbl[m - 1].ty == "IFCRELVOIDSELEMENT"@);
                } else {
                    let k = choose|k: int|
                        0 <= k < hs.len() && #[trigger] hs[k].0 == rfj[rfj.len() - 1] && (hs[k].1 == rfj[rfj.len() - 2]
                            || exists|j2: int|
                            j < j2 < m - 1 && #[trigger] tbl[j2].ty == "IFCRELVOIDSELEMENT"@ && refs(tbl[j2].args).len() >= 2
                                && refs(tbl[j2].args)[refs(tbl[j2].args).len() - 1] == rfj[rfj.len() - 1]);
                    assert(k != pos);
                    assert(nh[k] == hs[k]);
                }
            }
        } else {
            assert(nh == hs);
        }
    }
}

/// Every `IFCRELVOIDSELEMENT` whose arguments hold at least two references names, by
/// its last reference, one of the openings of the file; that opening is paired with the
/// reference before the last, unless a later such relation names the same opening.
pub proof fn law_void_relations_give_openings(tbl: Seq<Rec>)
    ensures
        forall|j: int|
            0 <= j < tbl.len() && #[trigger] tbl[j].ty == "IFCRELVOIDSELEMENT"@ && refs(tbl[j].args).len() >= 2 ==> {
                let rf = refs(tbl[j].args);
                exists|k: int|
                    0 <= k < opening_hosts(tbl).len() && #[trigger] opening_hosts(tbl)[k].0 == rf[rf.len() - 1] && (
                    opening_hosts(tbl)[k].1 == rf[rf.len() - 2] || exists|j2: int|
                        j < j2 < tbl.len() && #[trigger] tbl[j2].ty == "IFCRELVOIDSELEMENT"@ && refs(tbl[j2].args).len() >= 2
                            && refs(tbl[j2].args)[refs(tbl[j2].args).len() - 1] == rf[rf.len() - 1])
            },
{
    lemma_hosts_cover(tbl, tbl.len() as int);
    let hs = hosts_upto(tbl, tbl.len() as int);
    assert(opening_hosts(tbl) == hs);
    assert forall|j: int|
        0 <= j < tbl.len() && #[trigger] tbl[j].ty == "IFCRELVOIDSELEMENT"@ && refs(tbl[j].args).len() >= 2 implies {
            let rf = refs(tbl[j].args);
            exists|k: int|
                0 <= k < opening_hosts(tbl).len() && #[trigger] opening_hosts(tbl)[k].0 == rf[rf.len() - 1] && (
                opening_hosts(tbl)[k].1 == rf[rf.len() - 2] || exists|j2: int|
                    j < j2 < tbl.len() && #[trigger] tbl[j2].ty == "IFCRELVOIDSELEMENT"@ && refs(tbl[j2].args).len() >= 2
                        && refs(tbl[j2].args)[refs(tbl[j2].args).len() - 1] == rf[rf.len() - 1])
        } by {
        let rf = refs(tbl[j].args);
        let k = choose|k: int|
            0 <= k < hs.len() && #[trigger] hs[k].0 == rf[rf.len() - 1] && (hs[k].1 == rf[rf.len() - 2]
                || exists|j2: int|
                j < j2 < tbl.len() && #[trigger] tbl[j2].ty == "IFCRELVOIDSELEMENT"@ && refs(tbl[j2].args).len() >= 2
                    && refs(tbl[j2].args)[refs(tbl[j2].args).len() - 1] == rf[rf.len() - 1]);
        assert(opening_hosts(tbl)[k] == hs[k]);
    }
}

/// An opening (`IFCOPENINGELEMENT` or `IFCOPENINGSTANDARDCASE`) whose host's type begins
/// with `IFCWALL` gets the host's axis, whatever kind of wall it is; its source is there
/// exactly when the wall has an axis.
pub proof fn law_walls_give_axes(tbl: Seq<Rec>, op: Seq<char>, wall: Seq<char>)
    requires
        lookup(tbl, op) is Some,
        lookup(tbl, op).unwrap().ty == "IFCOPENINGELEMENT"@ || lookup(tbl, op).unwrap().ty == "IFCOPENINGSTANDARDCASE"@,
        lookup(tbl, wall) is Some,
        begins_with(lookup(tbl, wall).unwrap().ty, "IFCWALL"@),
    ensures
        opening_axis(tbl, op, wall) == wall_axis(tbl, wall),
        opening_source(tbl, op, wall) is Some <==> wall_axis(tbl, wall) is Some,
{
}

/// The origin of an opening's old body is the point that the first reference of its
/// `IFCAXIS2PLACEMENT3D` names, whatever references follow it: when that reference is
/// a point, the origin is its coordinate list, and when there is an origin, it is that.
pub proof fn law_base_is_location(tbl: Seq<Rec>, pos_id: Seq<char>)
    ensures
        ({
            &&& lookup(tbl, pos_id) matches Some(p)
            &&& p.ty == "IFCAXIS2PLACEMENT3D"@
            &&& refs(p.args).len() > 0
            &&& lookup(tbl, refs(p.args)[0]) matches Some(e)
            &&& e.ty == "IFCCARTESIANPOINT"@
        }) ==> base_point(tbl, pos_id) == Some(
            coordinate_texts(lookup(tbl, refs(lookup(tbl, pos_id).unwrap().args)[0]).unwrap().args),
        ),
        base_point(tbl, pos_id) matches Some(c) ==> {
            &&& lookup(tbl, pos_id) matches Some(p)
            &&& p.ty == "IFCAXIS2PLACEMENT3D"@
            &&& refs(p.args).len() > 0
            &&& lookup(tbl, refs(p.args)[0]) matches Some(e)
            &&& e.ty == "IFCCARTESIANPOINT"@
            &&& c == coordinate_texts(e.args)
        },
{
}


/// Only openings in walls get an axis: where the opening is neither an
/// `IFCOPENINGELEMENT` nor an `IFCOPENINGSTANDARDCASE`, or its host's type does not begin
/// with `IFCWALL`, or either of them is missing, there is none and no source.
pub proof fn law_only_wall_openings_get_axes(tbl: Seq<Rec>, op: Seq<char>, wall: Seq<char>)
    requires
        !({
            &&& lookup(tbl, op) is Some
            &&& lookup(tbl, op).unwrap().ty == "IFCOPENINGELEMENT"@ || lookup(tbl, op).unwrap().ty
                == "IFCOPENINGSTANDARDCASE"@
            &&& lookup(tbl, wall) is Some
            &&& begins_with(lookup(tbl, wall).unwrap().ty, "IFCWALL"@)
        }),
    ensures
        opening_axis(tbl, op, wall) is None,
        opening_source(tbl, op, wall) is None,
{
}

/// What the old extrusion of an opening gives: its height is its fourth argument, its
/// origin that of the placement its second argument names, and its outline the points
/// of the polyline that the last reference of the profile named by its first argument
/// names.
pub proof fn law_old_body_parts(tbl: Seq<Rec>, solid: Rec)
    ensures
        solid_profile(tbl, solid) matches ProfileLookupV::Found(f) ==> {
            let a = split_pieces(solid.args);
            &&& a.len() >= 4
            &&& f.height == a[3]
            &&& f.base == base_point(tbl, a[1])
            &&& lookup(tbl, a[0]) matches Some(prof)
            &&& refs(prof.args).len() > 0
            &&& lookup(tbl, refs(prof.args).last()) matches Some(poly)
            &&& poly.ty == "IFCPOLYLINE"@
            &&& f.points == points_of(tbl, refs(poly.args))
        },
{
}

proof fn lemma_line_0(n: nat, ctx: Seq<char>, g: GeomV)
    ensures
        opening_lines(n, ctx, g)[0] == id_text(n) + " = IFCCARTESIANPOINT((0.0,0.0));"@,
{
    reveal(opening_lines);
    assert(id_text(n + 0) == id_text(n));
    assert(opening_lines(n, ctx, g)[0] == record_line(id_text(n), record_body("IFCCARTESIANPOINT"@, "("@ + zero_text() + ","@ + zero_text() + ")"@)));
    reveal_strlit("0.0");
    reveal_strlit(" = ");
    reveal_strlit(" = IFCCARTESIANPOINT((0.0,0.0));");
    reveal_strlit("(");
    reveal_strlit(")");
    reveal_strlit(");");
    reveal_strlit(",");
    reveal_strlit("IFCCARTESIANPOINT");
    assert(" = "@ + ("IFCCARTESIANPOINT"@ + "("@ + ("("@ + zero_text() + ","@ + zero_text() + ")"@) + ");"@) =~= " = IFCCARTESIANPOINT((0.0,0.0));"@);
    assert(record_line(id_text(n), record_body("IFCCARTESIANPOINT"@, "("@ + zero_text() + ","@ + zero_text() + ")"@)) =~= id_text(n) + " = IFCCARTESIANPOINT((0.0,0.0));"@);
}

proof fn lemma_line_1(n: nat, ctx: Seq<char>, g: GeomV)
    ensures
        opening_lines(n, ctx, g)[1] == id_text(n + 1) + " = IFCCARTESIANPOINT(("@ + g.width + ",0.0));"@,
{
    reveal(opening_lines);
    assert(opening_lines(n, ctx, g)[1] == record_line(id_text(n + 1), record_body("IFCCARTESIANPOINT"@, "("@ + g.width + ","@ + zero_text() + ")"@)));
    reveal_strlit("0.0");
    reveal_strlit(" = ");
    reveal_strlit(" = IFCCARTESIANPOINT((");
    reveal_strlit("(");
    reveal_strlit(")");
    reveal_strlit(");");
    reveal_strlit(",");
    reveal_strlit(",0.0));");
    reveal_strlit("IFCCARTESIANPOINT");
    assert(" = "@ + "IFCCARTESIANPOINT"@ + "("@ + "("@ =~= " = IFCCARTESIANPOINT(("@);
    assert(","@ + zero_text() + ")"@ + ");"@ =~= ",0.0));"@);
    assert(record_line(id_text(n + 1), record_body("IFCCARTESIANPOINT"@, "("@ + g.width + ","@ + zero_text() + ")"@)) =~= id_text(n + 1) + " = IFCCARTESIANPOINT(("@ + g.width + ",0.0));"@);
}

proof fn lemma_line_2(n: nat, ctx: Seq<char>, g: GeomV)
    ensures
        opening_lines(n, ctx, g)[2] == id_text(n + 2) + " = IFCCARTESIANPOINT(("@ + g.width + ","@ + g.height + "));"@,
{
    reveal(opening_lines);
    assert(opening_lines(n, ctx, g)[2] == record_line(id_text(n + 2), record_body("IFCCARTESIANPOINT"@, "("@ + g.width + ","@ + g.height + ")"@)));
    reveal_strlit(" = ");
    reveal_strlit(" = IFCCARTESIANPOINT((");
    reveal_strlit("(");
    reveal_strlit(")");
    reveal_strlit("));");
    reveal_strlit(");");
    reveal_strlit(",");
    reveal_strlit("IFCCARTESIANPOINT");
    assert(" = "@ + "IFCCARTESIANPOINT"@ + "("@ + "("@ =~= " = IFCCARTESIANPOINT(("@);
    assert(")"@ + ");"@ =~= "));"@);
    assert(record_line(id_text(n + 2), record_body("IFCCARTESIANPOINT"@, "("@ + g.width + ","@ + g.height + ")"@)) =~= id_text(n + 2) + " = IFCCARTESIANPOINT(("@ + g.width + ","@ + g.height + "));"@);
}

proof fn lemma_line_3(n: nat, ctx: Seq<char>, g: GeomV)
    ensures
        opening_lines(n, ctx, g)[3] == id_text(n + 3) + " = IFCCARTESIANPOINT((0.0,"@ + g.height + "));"@,
{
    reveal(opening_lines);
    assert(opening_lines(n, ctx, g)[3] == record_line(id_text(n + 3), record_body("IFCCARTESIANPOINT"@, "("@ + zero_text() + ","@ + g.height + ")"@)));
    reveal_strlit("0.0");
    reveal_strlit(" = ");
    reveal_strlit(" = IFCCARTESIANPOINT((0.0,");
    reveal_strlit("(");
    reveal_strlit(")");
    reveal_strlit("));");
    reveal_strlit(");");
    reveal_strlit(",");
    reveal_strlit("IFCCARTESIANPOINT");
    assert(" = "@ + "IFCCARTESIANPOINT"@ + "("@ + "("@ + zero_text() + ","@ =~= " = IFCCARTESIANPOINT((0.0,"@);
    assert(")"@ + ");"@ =~= "));"@);
    assert(record_line(id_text(n + 3), record_body("IFCCARTESIANPOINT"@, "("@ + zero_text() + ","@ + g.height + ")"@)) =~= id_text(n + 3) + " = IFCCARTESIANPOINT((0.0,"@ + g.height + "));"@);
}

proof fn lemma_line_4(n: nat, ctx: Seq<char>, g: GeomV)
    ensures
        opening_lines(n, ctx, g)[4] == id_text(n + 4) + " = IFCCARTESIANPOINT((0.0,0.0));"@,
{
    reveal(opening_lines);
    assert(opening_lines(n, ctx, g)[4] == record_line(id_text(n + 4), record_body("IFCCARTESIANPOINT"@, "("@ + zero_text() + ","@ + zero_text() + ")"@)));
    reveal_strlit("0.0");
    reveal_strlit(" = ");
    reveal_strlit(" = IFCCARTESIANPOINT((0.0,0.0));");
    reveal_strlit("(");
    reveal_strlit(")");
    reveal_strlit(");");
    reveal_strlit(",");
    reveal_strlit("IFCCARTESIANPOINT");
    assert(" = "@ + ("IFCCARTESIANPOINT"@ + "("@ + ("("@ + zero_text() + ","@ + zero_text() + ")"@) + ");"@) =~= " = IFCCARTESIANPOINT((0.0,0.0));"@);
    assert(record_line(id_text(n + 4), record_body("IFCCARTESIANPOINT"@, "("@ + zero_text() + ","@ + zero_text() + ")"@)) =~= id_text(n + 4) + " = IFCCARTESIANPOINT((0.0,0.0));"@);
}

#[verifier::rlimit(100)]
proof fn lemma_line_5(n: nat, ctx: Seq<char>, g: GeomV)
    ensures
        opening_lines(n, ctx, g)[5] == id_text(n + 5) + " = IFCPOLYLINE(("@ + id_text(n) + ","@ + id_text(n + 1) + ","@ + id_text(n + 2) + ","@ + id_text(n + 3) + ","@ + id_text(n + 4) + "));"@,
{
    reveal(opening_lines);
    assert(opening_lines(n, ctx, g)[5] == record_line(id_text(n + 5), record_body("IFCPOLYLINE"@, "("@ + id_text(n) + ","@ + id_text(n + 1) + ","@ + id_text(n + 2) + ","@ + id_text(n + 3) + ","@ + id_text(n + 4) + ")"@)));
    reveal_strlit(" = ");
    reveal_strlit(" = IFCPOLYLINE((");
    reveal_strlit("(");
    reveal_strlit(")");
    reveal_strlit("));");
    reveal_strlit(");");
    reveal_strlit(",");
    reveal_strlit("IFCPOLYLINE");
    assert(" = "@ + "IFCPOLYLINE"@ + "("@ + "("@ =~= " = IFCPOLYLINE(("@);
    assert(")"@ + ");"@ =~= "));"@);
    assert(record_line(id_text(n + 5), record_body("IFCPOLYLINE"@, "("@ + id_text(n) + ","@ + id_text(n + 1) + ","@ + id_text(n + 2) + ","@ + id_text(n + 3) + ","@ + id_text(n + 4) + ")"@)) =~= id_text(n + 5) + " = IFCPOLYLINE(("@ + id_text(n) + ","@ + id_text(n + 1) + ","@ + id_text(n + 2) + ","@ + id_text(n + 3) + ","@ + id_text(n + 4) + "));"@);
}

proof fn lemma_line_6(n: nat, ctx: Seq<char>, g: GeomV)
    ensures
        opening_lines(n, ctx, g)[6] == id_text(n + 6) + " = IFCARBITRARYCLOSEDPROFILEDEF(.AREA.,$,"@ + id_text(n + 5) + ");"@,
{
    reveal(opening_lines);
    assert(opening_lines(n, ctx, g)[6] == record_line(id_text(n + 6), record_body("IFCARBITRARYCLOSEDPROFILEDEF"@, ".AREA.,$,"@ + id_text(n + 5))));
    reveal_strlit(" = ");
    reveal_strlit(" = IFCARBITRARYCLOSEDPROFILEDEF(.AREA.,$,");
    reveal_strlit("(");
    reveal_strlit(");");
    reveal_strlit(".AREA.,$,");
    reveal_strlit("IFCARBITRARYCLOSEDPROFILEDEF");
    assert(" = "@ + "IFCARBITRARYCLOSEDPROFILEDEF"@ + "("@ + ".AREA.,$,"@ =~= " = IFCARBITRARYCLOSEDPROFILEDEF(.AREA.,$,"@);
    assert(record_line(id_text(n + 6), record_body("IFCARBITRARYCLOSEDPROFILEDEF"@, ".AREA.,$,"@ + id_text(n + 5))) =~= id_text(n + 6) + " = IFCARBITRARYCLOSEDPROFILEDEF(.AREA.,$,"@ + id_text(n + 5) + ");"@);
}

proof fn lemma_line_7(n: nat, ctx: Seq<char>, g: GeomV)
    ensures
        opening_lines(n, ctx, g)[7] == id_text(n + 7) + " = IFCCARTESIANPOINT(("@ + g.origin_x + ","@ + g.origin_y + ","@ + g.base_z + "));"@,
{
    reveal(opening_lines);
    assert(opening_lines(n, ctx, g)[7] == record_line(id_text(n + 7), record_body("IFCCARTESIANPOINT"@, "("@ + g.origin_x + ","@ + g.origin_y + ","@ + g.base_z + ")"@)));
    reveal_strlit(" = ");
    reveal_strlit(" = IFCCARTESIANPOINT((");
    reveal_strlit("(");
    reveal_strlit(")");
    reveal_strlit("));");
    reveal_strlit(");");
    reveal_strlit(",");
    reveal_strlit("IFCCARTESIANPOINT");
    assert(" = "@ + "IFCCARTESIANPOINT"@ + "("@ + "("@ =~= " = IFCCARTESIANPOINT(("@);
    assert(")"@ + ");"@ =~= "));"@);
    assert(record_line(id_text(n + 7), record_body("IFCCARTESIANPOINT"@, "("@ + g.origin_x + ","@ + g.origin_y + ","@ + g.base_z + ")"@)) =~= id_text(n + 7) + " = IFCCARTESIANPOINT(("@ + g.origin_x + ","@ + g.origin_y + ","@ + g.base_z + "));"@);
}

proof fn lemma_line_8(n: nat, ctx: Seq<char>, g: GeomV)
    ensures
        opening_lines(n, ctx, g)[8] == id_text(n + 8) + " = IFCDIRECTION(("@ + g.normal_x + ","@ + g.normal_y + ",0.));"@,
{
    reveal(opening_lines);
    assert(opening_lines(n, ctx, g)[8] == record_line(id_text(n + 8), record_body("IFCDIRECTION"@, "("@ + g.normal_x + ","@ + g.normal_y + ",0.)"@)));
    reveal_strlit(" = ");
    reveal_strlit(" = IFCDIRECTION((");
    reveal_strlit("(");
    reveal_strlit(");");
    reveal_strlit(",");
    reveal_strlit(",0.)");
    reveal_strlit(",0.));");
    reveal_strlit("IFCDIRECTION");
    assert(" = "@ + "IFCDIRECTION"@ + "("@ + "("@ =~= " = IFCDIRECTION(("@);
    assert(",0.)"@ + ");"@ =~= ",0.));"@);
    assert(record_line(id_text(n + 8), record_body("IFCDIRECTION"@, "("@ + g.normal_x + ","@ + g.normal_y + ",0.)"@)) =~= id_text(n + 8) + " = IFCDIRECTION(("@ + g.normal_x + ","@ + g.normal_y + ",0.));"@);
}

proof fn lemma_line_9(n: nat, ctx: Seq<char>, g: GeomV)
    ensures
        opening_lines(n, ctx, g)[9] == id_text(n + 9) + " = IFCDIRECTION(("@ + g.axis_x + ","@ + g.axis_y + ",0.));"@,
{
    reveal(opening_lines);
    assert(opening_lines(n, ctx, g)[9] == record_line(id_text(n + 9), record_body("IFCDIRECTION"@, "("@ + g.axis_x + ","@ + g.axis_y + ",0.)"@)));
    reveal_strlit(" = ");
    reveal_strlit(" = IFCDIRECTION((");
    reveal_strlit("(");
    reveal_strlit(");");
    reveal_strlit(",");
    reveal_strlit(",0.)");
    reveal_strlit(",0.));");
    reveal_strlit("IFCDIRECTION");
    assert(" = "@ + "IFCDIRECTION"@ + "("@ + "("@ =~= " = IFCDIRECTION(("@);
    assert(",0.)"@ + ");"@ =~= ",0.));"@);
    assert(record_line(id_text(n + 9), record_body("IFCDIRECTION"@, "("@ + g.axis_x + ","@ + g.axis_y + ",0.)"@)) =~= id_text(n + 9) + " = IFCDIRECTION(("@ + g.axis_x + ","@ + g.axis_y + ",0.));"@);
}

proof fn lemma_line_10(n: nat, ctx: Seq<char>, g: GeomV)
    ensures
        opening_lines(n, ctx, g)[10] == id_text(n + 10) + " = IFCAXIS2PLACEMENT3D("@ + id_text(n + 7) + ","@ + id_text(n + 8) + ","@ + id_text(n + 9) + ");"@,
{
    reveal(opening_lines);
    assert(opening_lines(n, ctx, g)[10] == record_line(id_text(n + 10), record_body("IFCAXIS2PLACEMENT3D"@, id_text(n + 7) + ","@ + id_text(n + 8) + ","@ + id_text(n + 9))));
    reveal_strlit(" = ");
    reveal_strlit(" = IFCAXIS2PLACEMENT3D(");
    reveal_strlit("(");
    reveal_strlit(");");
    reveal_strlit(",");
    reveal_strlit("IFCAXIS2PLACEMENT3D");
    assert(" = "@ + "IFCAXIS2PLACEMENT3D"@ + "("@ =~= " = IFCAXIS2PLACEMENT3D("@);
    assert(record_line(id_text(n + 10), record_body("IFCAXIS2PLACEMENT3D"@, id_text(n + 7) + ","@ + id_text(n + 8) + ","@ + id_text(n + 9))) =~= id_text(n + 10) + " = IFCAXIS2PLACEMENT3D("@ + id_text(n + 7) + ","@ + id_text(n + 8) + ","@ + id_text(n + 9) + ");"@);
}

proof fn lemma_line_11(n: nat, ctx: Seq<char>, g: GeomV)
    ensures
        opening_lines(n, ctx, g)[11] == id_text(n + 11) + " = IFCDIRECTION((0.,0.,1.));"@,
{
    reveal(opening_lines);
    assert(opening_lines(n, ctx, g)[11] == record_line(id_text(n + 11), record_body("IFCDIRECTION"@, "(0.,0.,1.)"@)));
    reveal_strlit(" = ");
    reveal_strlit(" = IFCDIRECTION((0.,0.,1.));");
    reveal_strlit("(");
    reveal_strlit("(0.,0.,1.)");
    reveal_strlit(");");
    reveal_strlit("IFCDIRECTION");
    assert(" = "@ + ("IFCDIRECTION"@ + "("@ + "(0.,0.,1.)"@ + ");"@) =~= " = IFCDIRECTION((0.,0.,1.));"@);
    assert(record_line(id_text(n + 11), record_body("IFCDIRECTION"@, "(0.,0.,1.)"@)) =~= id_text(n + 11) + " = IFCDIRECTION((0.,0.,1.));"@);
}

#[verifier::rlimit(100)]
proof fn lemma_line_12(n: nat, ctx: Seq<char>, g: GeomV)
    ensures
        opening_lines(n, ctx, g)[12] == id_text(n + 12) + " = IFCEXTRUDEDAREASOLID("@ + id_text(n + 6) + ","@ + id_text(n + 10) + ","@ + id_text(n + 11) + ","@ + g.depth + ");"@,
{
    reveal(opening_lines);
    assert(opening_lines(n, ctx, g)[12] == record_line(id_text(n + 12), record_body("IFCEXTRUDEDAREASOLID"@, id_text(n + 6) + ","@ + id_text(n + 10) + ","@ + id_text(n + 11) + ","@ + g.depth)));
    reveal_strlit(" = ");
    reveal_strlit(" = IFCEXTRUDEDAREASOLID(");
    reveal_strlit("(");
    reveal_strlit(");");
    reveal_strlit(",");
    reveal_strlit("IFCEXTRUDEDAREASOLID");
    assert(" = "@ + "IFCEXTRUDEDAREASOLID"@ + "("@ =~= " = IFCEXTRUDEDAREASOLID("@);
    assert(record_line(id_text(n + 12), record_body("IFCEXTRUDEDAREASOLID"@, id_text(n + 6) + ","@ + id_text(n + 10) + ","@ + id_text(n + 11) + ","@ + g.depth)) =~= id_text(n + 12) + " = IFCEXTRUDEDAREASOLID("@ + id_text(n + 6) + ","@ + id_text(n + 10) + ","@ + id_text(n + 11) + ","@ + g.depth + ");"@);
}

proof fn lemma_line_13(n: nat, ctx: Seq<char>, g: GeomV)
    ensures
        opening_lines(n, ctx, g)[13] == id_text(n + 13) + " = IFCSHAPEREPRESENTATION("@ + ctx + ",'Body','SweptSolid',("@ + id_text(n + 12) + "));"@,
{
    reveal(opening_lines);
    assert(opening_lines(n, ctx, g)[13] == record_line(id_text(n + 13), record_body("IFCSHAPEREPRESENTATION"@, ctx + ",'Body','SweptSolid',("@ + id_text(n + 12) + ")"@)));
    reveal_strlit(" = ");
    reveal_strlit(" = IFCSHAPEREPRESENTATION(");
    reveal_strlit("(");
    reveal_strlit(")");
    reveal_strlit("));");
    reveal_strlit(");");
    reveal_strlit(",'Body','SweptSolid',(");
    reveal_strlit("IFCSHAPEREPRESENTATION");
    assert(" = "@ + "IFCSHAPEREPRESENTATION"@ + "("@ =~= " = IFCSHAPEREPRESENTATION("@);
    assert(")"@ + ");"@ =~= "));"@);
    assert(record_line(id_text(n + 13), record_body("IFCSHAPEREPRESENTATION"@, ctx + ",'Body','SweptSolid',("@ + id_text(n + 12) + ")"@)) =~= id_text(n + 13) + " = IFCSHAPEREPRESENTATION("@ + ctx + ",'Body','SweptSolid',("@ + id_text(n + 12) + "));"@);
}

proof fn lemma_line_14(n: nat, ctx: Seq<char>, g: GeomV)
    ensures
        opening_lines(n, ctx, g)[14] == id_text(n + 14) + " = IFCPRODUCTDEFINITIONSHAPE($,$,("@ + id_text(n + 13) + "));"@,
{
    reveal(opening_lines);
    assert(opening_lines(n, ctx, g)[14] == record_line(id_text(n + 14), record_body("IFCPRODUCTDEFINITIONSHAPE"@, "$,$,("@ + id_text(n + 13) + ")"@)));
    reveal_strlit(" = ");
    reveal_strlit(" = IFCPRODUCTDEFINITIONSHAPE($,$,(");
    reveal_strlit("$,$,(");
    reveal_strlit("(");
    reveal_strlit(")");
    reveal_strlit("));");
    reveal_strlit(");");
    reveal_strlit("IFCPRODUCTDEFINITIONSHAPE");
    assert(" = "@ + "IFCPRODUCTDEFINITIONSHAPE"@ + "("@ + "$,$,("@ =~= " = IFCPRODUCTDEFINITIONSHAPE($,$,("@);
    assert(")"@ + ");"@ =~= "));"@);
    assert(record_line(id_text(n + 14), record_body("IFCPRODUCTDEFINITIONSHAPE"@, "$,$,("@ + id_text(n + 13) + ")"@)) =~= id_text(n + 14) + " = IFCPRODUCTDEFINITIONSHAPE($,$,("@ + id_text(n + 13) + "));"@);
}

/// The fifteen records written for a repaired opening whose new ids start at `n`, each
/// with the texts the geometry answered in its place: the corners of the rectangle
/// `(0.0, 0.0)`, `(width, 0.0)`, `(width, height)`, `(0.0, height)`, their polyline and
/// profile, the origin `(origin_x, origin_y, base_z)`, the normal `(normal_x, normal_y)`,
/// the reference direction `(axis_x, axis_y)`, the placement, the extrusion along
/// `(0,0,1)` by `depth`, the body representation in the context `ctx`, and the shape.
pub proof fn law_opening_records(n: nat, ctx: Seq<char>, g: GeomV)
    ensures
        opening_lines(n, ctx, g) == seq![
            id_text(n) + " = IFCCARTESIANPOINT((0.0,0.0));"@,
            id_text(n + 1) + " = IFCCARTESIANPOINT(("@ + g.width + ",0.0));"@,
            id_text(n + 2) + " = IFCCARTESIANPOINT(("@ + g.width + ","@ + g.height + "));"@,
            id_text(n + 3) + " = IFCCARTESIANPOINT((0.0,"@ + g.height + "));"@,
            id_text(n + 4) + " = IFCCARTESIANPOINT((0.0,0.0));"@,
            id_text(n + 5) + " = IFCPOLYLINE(("@ + id_text(n) + ","@ + id_text(n + 1) + ","@ + id_text(n + 2) + ","@ + id_text(n + 3) + ","@ + id_text(n + 4) + "));"@,
            id_text(n + 6) + " = IFCARBITRARYCLOSEDPROFILEDEF(.AREA.,$,"@ + id_text(n + 5) + ");"@,
            id_text(n + 7) + " = IFCCARTESIANPOINT(("@ + g.origin_x + ","@ + g.origin_y + ","@ + g.base_z + "));"@,
            id_text(n + 8) + " = IFCDIRECTION(("@ + g.normal_x + ","@ + g.normal_y + ",0.));"@,
            id_text(n + 9) + " = IFCDIRECTION(("@ + g.axis_x + ","@ + g.axis_y + ",0.));"@,
            id_text(n + 10) + " = IFCAXIS2PLACEMENT3D("@ + id_text(n + 7) + ","@ + id_text(n + 8) + ","@ + id_text(n + 9) + ");"@,
            id_text(n + 11) + " = IFCDIRECTION((0.,0.,1.));"@,
            id_text(n + 12) + " = IFCEXTRUDEDAREASOLID("@ + id_text(n + 6) + ","@ + id_text(n + 10) + ","@ + id_text(n + 11) + ","@ + g.depth + ");"@,
            id_text(n + 13) + " = IFCSHAPEREPRESENTATION("@ + ctx + ",'Body','SweptSolid',("@ + id_text(n + 12) + "));"@,
            id_text(n + 14) + " = IFCPRODUCTDEFINITIONSHAPE($,$,("@ + id_text(n + 13) + "));"@,
        ],
{
    lemma_line_0(n, ctx, g);
    lemma_line_1(n, ctx, g);
    lemma_line_2(n, ctx, g);
    lemma_line_3(n, ctx, g);
    lemma_line_4(n, ctx, g);
    lemma_line_5(n, ctx, g);
    lemma_line_6(n, ctx, g);
    lemma_line_7(n, ctx, g);
    lemma_line_8(n, ctx, g);
    lemma_line_9(n, ctx, g);
    lemma_line_10(n, ctx, g);
    lemma_line_11(n, ctx, g);
    lemma_line_12(n, ctx, g);
    lemma_line_13(n, ctx, g);
    lemma_line_14(n, ctx, g);
    assert(opening_lines(n, ctx, g).len() == 15) by {
        reveal(opening_lines);
    }
    assert(opening_lines(n, ctx, g) =~= seq![
        id_text(n) + " = IFCCARTESIANPOINT((0.0,0.0));"@,
        id_text(n + 1) + " = IFCCARTESIANPOINT(("@ + g.width + ",0.0));"@,
        id_text(n + 2) + " = IFCCARTESIANPOINT(("@ + g.width + ","@ + g.height + "));"@,
        id_text(n + 3) + " = IFCCARTESIANPOINT((0.0,"@ + g.height + "));"@,
        id_text(n + 4) + " = IFCCARTESIANPOINT((0.0,0.0));"@,
        id_text(n + 5) + " = IFCPOLYLINE(("@ + id_text(n) + ","@ + id_text(n + 1) + ","@ + id_text(n + 2) + ","@ + id_text(n + 3) + ","@ + id_text(n + 4) + "));"@,
        id_text(n + 6) + " = IFCARBITRARYCLOSEDPROFILEDEF(.AREA.,$,"@ + id_text(n + 5) + ");"@,
        id_text(n + 7) + " = IFCCARTESIANPOINT(("@ + g.origin_x + ","@ + g.origin_y + ","@ + g.base_z + "));"@,
        id_text(n + 8) + " = IFCDIRECTION(("@ + g.normal_x + ","@ + g.normal_y + ",0.));"@,
        id_text(n + 9) + " = IFCDIRECTION(("@ + g.axis_x + ","@ + g.axis_y + ",0.));"@,
        id_text(n + 10) + " = IFCAXIS2PLACEMENT3D("@ + id_text(n + 7) + ","@ + id_text(n + 8) + ","@ + id_text(n + 9) + ");"@,
        id_text(n + 11) + " = IFCDIRECTION((0.,0.,1.));"@,
        id_text(n + 12) + " = IFCEXTRUDEDAREASOLID("@ + id_text(n + 6) + ","@ + id_text(n + 10) + ","@ + id_text(n + 11) + ","@ + g.depth + ");"@,
        id_text(n + 13) + " = IFCSHAPEREPRESENTATION("@ + ctx + ",'Body','SweptSolid',("@ + id_text(n + 12) + "));"@,
        id_text(n + 14) + " = IFCPRODUCTDEFINITIONSHAPE($,$,("@ + id_text(n + 13) + "));"@,
    ]);
}

} // verus!
