use orthowan::scan::{extract_refs, scan_records};
use orthowan::table::parse_entities;
use regex::Regex;

fn entity_regex() -> Regex {
    Regex::new(r"(?is)(#\d+)\s*=\s*([A-Z0-9_]+)\((.*?)\);").unwrap()
}

const SAMPLES: &[&str] = &[
    "ISO-10303-21;\nDATA;\n#1= IFCPERSON($,$,'',$,$,$,$,$);\n#2 = IfcWall('a;b)', #1, (#3,#4));\nENDSEC;",
    "#10=IFCX((1.,2.));#11 =\n\tifcy ( 'x' );#12=Z();",
    "# 1 = A(); #1=(); #1 =B(;); #2=C()); #3 = D(x);",
    "#١٢ = ﬀoo(); #٣=ſK_9(arg); #4=IFC(nested #5=IFC(x);)",
    "#7=\u{17F}\u{212A}(a);#8=\u{212B}(b);#9 \u{85}=\u{1680}x(c);",
    "no records here",
    "#1=A(\n\n);\r\n#2\u{3000}=\u{2028}B(#1);",
    "#1=A(x)#2=B(y);",
    "",
];

#[test]
fn records_match_regex() {
    let re = entity_regex();
    for text in SAMPLES {
        let chars: Vec<char> = text.chars().collect();
        let spans = scan_records(&chars);
        let caps: Vec<_> = re.captures_iter(text).collect();
        assert_eq!(spans.len(), caps.len(), "{:?}", text);
        let byte_of = |k: usize| -> usize { chars[..k].iter().map(|c| c.len_utf8()).sum() };
        for (s, cap) in spans.iter().zip(caps.iter()) {
            assert_eq!(byte_of(s.start), cap.get(0).unwrap().start());
            assert_eq!(byte_of(s.end), cap.get(0).unwrap().end());
            assert_eq!(byte_of(s.id_end), cap.get(1).unwrap().end());
            assert_eq!(byte_of(s.type_start), cap.get(2).unwrap().start());
            assert_eq!(byte_of(s.type_end), cap.get(2).unwrap().end());
            assert_eq!(byte_of(s.args_start), cap.get(3).unwrap().start());
            assert_eq!(byte_of(s.args_end), cap.get(3).unwrap().end());
        }
    }
}

#[test]
fn entities_match_regex() {
    let re = entity_regex();
    for text in SAMPLES {
        let ents = parse_entities(text);
        let caps: Vec<_> = re.captures_iter(text).collect();
        assert_eq!(ents.len(), caps.len());
        for (e, cap) in ents.iter().zip(caps.iter()) {
            assert_eq!(e.id, &cap[1]);
            assert_eq!(e.entity_type, cap[2].to_uppercase());
            assert_eq!(e.args, &cap[3]);
            assert_eq!(e.full, &cap[0]);
        }
    }
}

#[test]
fn refs_match_regex() {
    let re = Regex::new(r"#\d+").unwrap();
    for s in [
        "#1,#22,(#333)",
        "'#x',#,##4,#٥٦7",
        "",
        "#",
        "a#12b#",
        "$,$,(#7,#8),#9",
    ] {
        let v: Vec<char> = s.chars().collect();
        let got: Vec<String> = extract_refs(&v).iter().map(|r| r.iter().collect()).collect();
        let want: Vec<String> = re.find_iter(s).map(|m| m.as_str().to_string()).collect();
        assert_eq!(got, want, "{:?}", s);
    }
}

/// A small deterministic generator of texts over the characters that matter to the
/// record syntax.
fn generated_texts(count: usize) -> Vec<String> {
    let alphabet: Vec<char> = "#12٣ \n=Abſ\u{212A}_();,'x\u{3000}".chars().collect();
    let mut state: u64 = 0x2545F4914F6CDD1D;
    let mut out = Vec::new();
    for _ in 0..count {
        state = state.wrapping_mul(6364136223846793005).wrapping_add(1442695040888963407);
        let len = (state >> 58) as usize;
        let mut s = String::new();
        for _ in 0..len {
            state = state.wrapping_mul(6364136223846793005).wrapping_add(1442695040888963407);
            s.push(alphabet[(state >> 33) as usize % alphabet.len()]);
        }
        out.push(s);
    }
    out
}

#[test]
fn generated_texts_match_regex() {
    let re = entity_regex();
    let refs_re = Regex::new(r"#\d+").unwrap();
    for text in generated_texts(5000) {
        let ents = parse_entities(&text);
        let caps: Vec<_> = re.captures_iter(&text).collect();
        assert_eq!(ents.len(), caps.len(), "{:?}", text);
        for (e, cap) in ents.iter().zip(caps.iter()) {
            assert_eq!(e.full, &cap[0], "{:?}", text);
            assert_eq!(e.id, &cap[1]);
            assert_eq!(e.entity_type, cap[2].to_uppercase());
            assert_eq!(e.args, &cap[3]);
        }
        let v: Vec<char> = text.chars().collect();
        let got: Vec<String> = extract_refs(&v).iter().map(|r| r.iter().collect()).collect();
        let want: Vec<String> = refs_re.find_iter(&text).map(|m| m.as_str().to_string()).collect();
        assert_eq!(got, want, "{:?}", text);
    }
}
