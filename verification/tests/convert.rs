use orthowan::convert::{
    convert_ifc, convert_with_answers, ids_fit_in, opening_sources, try_convert_ifc, try_convert_with_answers,
};
use orthowan::emit::OpeningGeometry;
use orthowan::args::tidy_number_text;
use orthowan::source::{OpeningSource, ProfileLookup};

fn fmt(mut x: f64) -> String {
    if x.abs() < 1e-12 {
        x = 0.0;
    }
    tidy_number_text(&format!("{:.10}", x))
}

fn parse_point(coords: &[String]) -> Vec<f64> {
    coords.iter().filter_map(|c| c.parse::<f64>().ok()).collect()
}

/// The geometry of an opening, computed as the desktop application does.
fn geometry(src: &OpeningSource) -> Option<OpeningGeometry> {
    let p0 = parse_point(&src.axis_start);
    let p1 = parse_point(&src.axis_end);
    let mut ax = p1[0] - p0[0];
    let mut ay = p1[1] - p0[1];
    let l = (ax * ax + ay * ay).sqrt();
    if l < 1e-9 {
        return None;
    }
    ax /= l;
    ay /= l;
    let nx = -ay;
    let ny = ax;
    let prof = match &src.profile {
        ProfileLookup::Found(p) => p,
        ProfileLookup::NotFound => return None,
        ProfileLookup::NestingOverflow => panic!("nesting overflow"),
    };
    let mut pts: Vec<Vec<f64>> = prof.points.iter().map(|c| parse_point(c)).collect();
    if pts.len() > 1 && pts[0].len() == pts[pts.len() - 1].len() {
        let mut diff = 0.0;
        for i in 0..pts[0].len() {
            diff += (pts[0][i] - pts[pts.len() - 1][i]).abs();
        }
        if diff < 1e-9 {
            pts.pop();
        }
    }
    if pts.len() < 4 {
        return None;
    }
    let height = prof.height.parse::<f64>().unwrap_or(0.0);
    if height <= 0.0 {
        return None;
    }
    let us: Vec<f64> = pts.iter().map(|p| p[0] * ax + p[1] * ay).collect();
    let vs: Vec<f64> = pts.iter().map(|p| p[0] * nx + p[1] * ny).collect();
    let u0 = us.iter().cloned().fold(f64::INFINITY, f64::min);
    let u1 = us.iter().cloned().fold(f64::NEG_INFINITY, f64::max);
    let v0 = vs.iter().cloned().fold(f64::INFINITY, f64::min);
    let v1 = vs.iter().cloned().fold(f64::NEG_INFINITY, f64::max);
    let width = u1 - u0;
    let depth = v1 - v0;
    if width <= 1e-8 || depth <= 1e-8 {
        return None;
    }
    let mut zbase = 0.0;
    if let Some(base) = &prof.base {
        let loc = parse_point(base);
        if loc.len() >= 3 {
            zbase = loc[2];
        }
    }
    let ox = ax * u0 + nx * v0;
    let oy = ay * u0 + ny * v0;
    Some(OpeningGeometry {
        width: fmt(width),
        height: fmt(height),
        origin_x: fmt(ox),
        origin_y: fmt(oy),
        base_z: fmt(zbase),
        normal_x: fmt(nx),
        normal_y: fmt(ny),
        axis_x: fmt(ax),
        axis_y: fmt(ay),
        depth: fmt(depth),
    })
}

const HEAD: &str = "ISO-10303-21;\nHEADER;\nFILE_DESCRIPTION((''),'2;1');\nENDSEC;\nDATA;\n";
const CONTEXT: &str = "#1=IFCGEOMETRICREPRESENTATIONCONTEXT($,'Model',3,1.E-05,#2,$);\n#2=IFCAXIS2PLACEMENT3D(#3,$,$);\n#3=IFCCARTESIANPOINT((0.,0.,0.));\n#4=IFCGEOMETRICREPRESENTATIONSUBCONTEXT('Body','Model',*,*,*,*,#1,$,.MODEL_VIEW.,$);\n";
const WALL: &str = "#10=IFCWALLSTANDARDCASE('wallguid',$,'Wand',$,$,#11,#12,$);\n#11=IFCLOCALPLACEMENT($,#2);\n#12=IFCPRODUCTDEFINITIONSHAPE($,$,(#13,#16));\n#13=IFCSHAPEREPRESENTATION(#4,'Axis','Curve2D',(#14));\n#14=IFCPOLYLINE((#15,#17));\n#15=IFCCARTESIANPOINT((0.,0.));\n#17=IFCCARTESIANPOINT((4.,0.));\n#16=IFCSHAPEREPRESENTATION(#4,'Body','SweptSolid',(#18));\n#18=IFCEXTRUDEDAREASOLID(#19,#2,#32,3.);\n#19=IFCRECTANGLEPROFILEDEF(.AREA.,$,#2,4.,0.3);\n";
const OPENING: &str = "#20=IFCOPENINGELEMENT('openguid',$,'Oeffnung',$,$,#21,#22,$,.OPENING.);\n";
const OPENING_BODY: &str = "#21=IFCLOCALPLACEMENT(#11,#2);\n#22=IFCPRODUCTDEFINITIONSHAPE($,$,(#23));\n#23=IFCSHAPEREPRESENTATION(#4,'Body','SweptSolid',(#24));\n#24=IFCEXTRUDEDAREASOLID(#25,#30,#32,2.1);\n#25=IFCARBITRARYCLOSEDPROFILEDEF(.AREA.,$,#26);\n#26=IFCPOLYLINE((#27,#28,#29,#33,#27));\n#27=IFCCARTESIANPOINT((1.,-0.1));\n#28=IFCCARTESIANPOINT((2.,-0.1));\n#29=IFCCARTESIANPOINT((2.,0.2));\n#33=IFCCARTESIANPOINT((1.,0.2));\n#30=IFCAXIS2PLACEMENT3D(#31,$,$);\n#31=IFCCARTESIANPOINT((0.,0.,0.9));\n#32=IFCDIRECTION((0.,0.,1.));\n";
const RELATION: &str = "#40=IFCRELVOIDSELEMENT('relguid',$,$,$,#10,#20);\n";
const TAIL: &str = "ENDSEC;\nEND-ISO-10303-21;\n";

fn sample() -> String {
    [HEAD, CONTEXT, WALL, OPENING, OPENING_BODY, RELATION, TAIL].concat()
}

const NEW_LINES: &str = "#41 = IFCCARTESIANPOINT((0.0,0.0));\n#42 = IFCCARTESIANPOINT((1.0,0.0));\n#43 = IFCCARTESIANPOINT((1.0,2.1));\n#44 = IFCCARTESIANPOINT((0.0,2.1));\n#45 = IFCCARTESIANPOINT((0.0,0.0));\n#46 = IFCPOLYLINE((#41,#42,#43,#44,#45));\n#47 = IFCARBITRARYCLOSEDPROFILEDEF(.AREA.,$,#46);\n#48 = IFCCARTESIANPOINT((1.0,-0.1,0.9));\n#49 = IFCDIRECTION((0.0,1.0,0.));\n#50 = IFCDIRECTION((1.0,0.0,0.));\n#51 = IFCAXIS2PLACEMENT3D(#48,#49,#50);\n#52 = IFCDIRECTION((0.,0.,1.));\n#53 = IFCEXTRUDEDAREASOLID(#47,#51,#52,0.3);\n#54 = IFCSHAPEREPRESENTATION(#4,'Body','SweptSolid',(#53));\n#55 = IFCPRODUCTDEFINITIONSHAPE($,$,(#54));";

#[test]
fn repairs_one_opening() {
    let text = sample();
    assert!(ids_fit_in(&text));
    let (out, repaired) = convert_ifc(&text, geometry).unwrap();
    assert_eq!(repaired, 1);
    let replaced = "#20 = IFCOPENINGSTANDARDCASE('openguid',$,'Oeffnung',$,$,#21,#55,$,.OPENING.);\n";
    let expected = [HEAD, CONTEXT, WALL, replaced, OPENING_BODY, RELATION, "\n", NEW_LINES, "\n", TAIL].concat();
    assert_eq!(out, expected);
}

#[test]
fn no_entities() {
    assert_eq!(convert_ifc("ISO-10303-21;\nENDSEC;\n", geometry), Err("Keine IFC-Entitäten gefunden.".to_string()));
}

#[test]
fn no_body_context() {
    let text = [HEAD, WALL, OPENING, OPENING_BODY, RELATION, TAIL].concat();
    assert_eq!(convert_ifc(&text, geometry), Err("IFC-Body-Kontext wurde nicht gefunden.".to_string()));
}

#[test]
fn body_context_needs_model() {
    let ctx = CONTEXT.replace("'Body','Model'", "'Body','Plan'");
    let text = [HEAD, &ctx, WALL, OPENING, OPENING_BODY, RELATION, TAIL].concat();
    assert_eq!(convert_ifc(&text, geometry), Err("IFC-Body-Kontext wurde nicht gefunden.".to_string()));
    let ctx = CONTEXT.replace("'Body','Model'", "'body','model'");
    let text = [HEAD, &ctx, WALL, OPENING, OPENING_BODY, RELATION, TAIL].concat();
    assert!(convert_ifc(&text, geometry).is_ok());
}

#[test]
fn no_openings() {
    let text = [HEAD, CONTEXT, WALL, OPENING, OPENING_BODY, TAIL].concat();
    assert_eq!(convert_ifc(&text, geometry), Err("Keine Wandöffnungen (IfcRelVoidsElement) gefunden.".to_string()));
}

#[test]
fn nothing_repaired_when_host_is_no_wall() {
    let rel = "#40=IFCRELVOIDSELEMENT('relguid',$,$,$,#21,#20);\n";
    let text = [HEAD, CONTEXT, WALL, OPENING, OPENING_BODY, rel, TAIL].concat();
    assert_eq!(convert_ifc(&text, geometry), Err("Es konnte keine OrthoGraph-Öffnung repariert werden.".to_string()));
}

#[test]
fn nothing_repaired_when_geometry_declines() {
    let text = sample();
    assert_eq!(convert_ifc(&text, |_: &OpeningSource| None), Err("Es konnte keine OrthoGraph-Öffnung repariert werden.".to_string()));
}

#[test]
fn no_end_section() {
    let text = [CONTEXT, WALL, OPENING, OPENING_BODY, RELATION].concat();
    assert_eq!(convert_ifc(&text, geometry), Err("IFC-Ende (ENDSEC) wurde nicht gefunden.".to_string()));
}

#[test]
fn end_section_is_found_in_any_case() {
    let text = [HEAD, CONTEXT, WALL, OPENING, OPENING_BODY, RELATION, "endsec;\n"].concat();
    let (out, _) = convert_ifc(&text, geometry).unwrap();
    assert!(out.ends_with(&format!("\n{}\nendsec;\n", NEW_LINES)));
}

#[test]
fn end_section_misaligned_by_upper_case() {
    // 'ı' (two bytes) becomes 'I' (one byte) in upper case, so the byte offset of
    // ENDSEC; in the upper-cased text falls inside the 'ı' of the text itself.
    let text = [HEAD, CONTEXT, WALL, OPENING, OPENING_BODY, RELATION, "ı", "ENDSEC;"].concat();
    assert_eq!(convert_ifc(&text, geometry), Err("IFC-Ende (ENDSEC) liegt nicht auf einer Zeichengrenze.".to_string()));
}

#[test]
fn ids_must_leave_room() {
    let big = format!("#{}=IFCDUMMY();\n", usize::MAX);
    let text = [HEAD, CONTEXT, &big, WALL, OPENING, OPENING_BODY, RELATION, TAIL].concat();
    assert!(!ids_fit_in(&text));
    let text = [HEAD, &big, TAIL].concat();
    assert!(ids_fit_in(&text));
}

#[test]
fn ids_exhausted() {
    let big = format!("#{}=IFCDUMMY();\n", usize::MAX - 10);
    let text = [HEAD, CONTEXT, &big, WALL, OPENING, OPENING_BODY, RELATION, TAIL].concat();
    assert!(ids_fit_in(&text));
    assert_eq!(convert_ifc(&text, geometry), Err("Für die neuen IFC-Entitäten sind keine Nummern mehr frei.".to_string()));
}

#[test]
fn later_relation_gives_the_wall() {
    let rel = "#40=IFCRELVOIDSELEMENT('relguid',$,$,$,#21,#20);\n#41=IFCRELVOIDSELEMENT('relguid2',$,$,$,#10,#20);\n";
    let text = [HEAD, CONTEXT, WALL, OPENING, OPENING_BODY, rel, TAIL].concat();
    let (out, repaired) = convert_ifc(&text, geometry).unwrap();
    assert_eq!(repaired, 1);
    assert!(out.contains("#56 = IFCPRODUCTDEFINITIONSHAPE($,$,(#55));"));
}

#[test]
fn later_record_of_same_id_wins() {
    let dup = "#24=IFCEXTRUDEDAREASOLID(#25,#30,#32,2.5);\n";
    let text = [HEAD, CONTEXT, WALL, OPENING, OPENING_BODY, dup, RELATION, TAIL].concat();
    let (out, _) = convert_ifc(&text, geometry).unwrap();
    assert!(out.contains("#43 = IFCCARTESIANPOINT((1.0,2.5));"));
}

#[test]
fn try_convert_checks_room_for_ids() {
    let big = format!("#{}=IFCDUMMY();\n", usize::MAX);
    let text = [HEAD, CONTEXT, &big, WALL, OPENING, OPENING_BODY, RELATION, TAIL].concat();
    assert!(try_convert_ifc(&text, geometry).is_none());
    let text = sample();
    assert_eq!(try_convert_ifc(&text, geometry), Some(convert_ifc(&text, geometry)));
    assert_eq!(try_convert_ifc(&text, geometry).unwrap().unwrap().1, 1);
}

fn answer() -> OpeningGeometry {
    OpeningGeometry {
        width: "1.0".to_string(),
        height: "2.1".to_string(),
        origin_x: "1.0".to_string(),
        origin_y: "-0.1".to_string(),
        base_z: "0.9".to_string(),
        normal_x: "0.0".to_string(),
        normal_y: "1.0".to_string(),
        axis_x: "1.0".to_string(),
        axis_y: "0.0".to_string(),
        depth: "0.3".to_string(),
    }
}

fn texts(v: &[&str]) -> Vec<String> {
    v.iter().map(|s| s.to_string()).collect()
}

#[test]
fn sources_of_the_sample() {
    let srcs = opening_sources(&sample());
    assert_eq!(srcs.len(), 1);
    let src = srcs[0].as_ref().unwrap();
    assert_eq!(src.axis_start, texts(&["0.", "0."]));
    assert_eq!(src.axis_end, texts(&["4.", "0."]));
    match &src.profile {
        ProfileLookup::Found(p) => {
            assert_eq!(p.points.len(), 5);
            assert_eq!(p.points[0], texts(&["1.", "-0.1"]));
            assert_eq!(p.points[2], texts(&["2.", "0.2"]));
            assert_eq!(p.height, "2.1");
            assert_eq!(p.base, Some(texts(&["0.", "0.", "0.9"])));
        }
        _ => panic!("profile not found"),
    }
}

#[test]
fn no_sources_without_body_context() {
    let text = [HEAD, WALL, OPENING, OPENING_BODY, RELATION, TAIL].concat();
    assert!(opening_sources(&text).is_empty());
}

#[test]
fn opening_in_no_wall_has_no_source() {
    let rel = "#40=IFCRELVOIDSELEMENT('relguid',$,$,$,#21,#20);\n";
    let text = [HEAD, CONTEXT, WALL, OPENING, OPENING_BODY, rel, TAIL].concat();
    let srcs = opening_sources(&text);
    assert_eq!(srcs.len(), 1);
    assert!(srcs[0].is_none());
    assert_eq!(
        convert_with_answers(&text, &vec![Some(answer())]),
        Err("Es konnte keine OrthoGraph-Öffnung repariert werden.".to_string())
    );
}

#[test]
fn converts_with_given_answers() {
    let text = sample();
    let (out, repaired) = convert_with_answers(&text, &vec![Some(answer())]).unwrap();
    assert_eq!(repaired, 1);
    let replaced = "#20 = IFCOPENINGSTANDARDCASE('openguid',$,'Oeffnung',$,$,#21,#55,$,.OPENING.);\n";
    let expected = [HEAD, CONTEXT, WALL, replaced, OPENING_BODY, RELATION, "\n", NEW_LINES, "\n", TAIL].concat();
    assert_eq!(out, expected);
    assert_eq!(convert_with_answers(&text, &vec![Some(answer())]), convert_ifc(&text, geometry));
}

#[test]
fn missing_answers_repair_nothing() {
    let text = sample();
    let msg = Err("Es konnte keine OrthoGraph-Öffnung repariert werden.".to_string());
    assert_eq!(convert_with_answers(&text, &vec![]), msg);
    assert_eq!(convert_with_answers(&text, &vec![None]), msg);
}

#[test]
fn errors_before_the_geometry_ignore_answers() {
    let text = [HEAD, CONTEXT, WALL, OPENING, OPENING_BODY, TAIL].concat();
    assert_eq!(
        convert_with_answers(&text, &vec![Some(answer())]),
        Err("Keine Wandöffnungen (IfcRelVoidsElement) gefunden.".to_string())
    );
}

#[test]
fn new_records_are_numbered_consecutively() {
    let second = "#60=IFCOPENINGELEMENT('openguid2',$,'Oeffnung 2',$,$,#21,#22,$,.OPENING.);\n#61=IFCRELVOIDSELEMENT('relguid2',$,$,$,#10,#60);\n";
    let text = [HEAD, CONTEXT, WALL, OPENING, OPENING_BODY, RELATION, second, TAIL].concat();
    let (out, repaired) = convert_with_answers(&text, &vec![Some(answer()), Some(answer())]).unwrap();
    assert_eq!(repaired, 2);
    let block_start = out.find("\n#62 = ").unwrap() + 1;
    let block: Vec<&str> = out[block_start..].lines().take(30).collect();
    for (i, line) in block.iter().enumerate() {
        assert!(line.starts_with(&format!("#{} = ", 62 + i)), "line {}: {}", i, line);
    }
    assert!(out.contains("#20 = IFCOPENINGSTANDARDCASE('openguid',$,'Oeffnung',$,$,#21,#76,$,.OPENING.);"));
    assert!(out.contains("#60 = IFCOPENINGSTANDARDCASE('openguid2',$,'Oeffnung 2',$,$,#21,#91,$,.OPENING.);"));
}

#[test]
fn try_convert_with_answers_checks_room_for_ids() {
    let big = format!("#{}=IFCDUMMY();\n", usize::MAX);
    let text = [HEAD, CONTEXT, &big, WALL, OPENING, OPENING_BODY, RELATION, TAIL].concat();
    assert!(try_convert_with_answers(&text, &vec![Some(answer())]).is_none());
    let text = sample();
    assert_eq!(
        try_convert_with_answers(&text, &vec![Some(answer())]),
        Some(convert_with_answers(&text, &vec![Some(answer())]))
    );
    assert_eq!(try_convert_with_answers(&text, &vec![Some(answer())]).unwrap().unwrap().1, 1);
}

#[test]
fn added_lines_read_as_records() {
    for (i, line) in NEW_LINES.lines().enumerate() {
        let t: Vec<char> = line.chars().collect();
        let spans = orthowan::scan::scan_records(&t);
        assert_eq!(spans.len(), 1);
        assert_eq!(spans[0].start, 0);
        assert_eq!(spans[0].end, t.len());
        let id: String = t[..spans[0].id_end].iter().collect();
        assert_eq!(id, format!("#{}", 41 + i));
    }
}
