use orthowan::args::{split_args, tidy_number_text};
use orthowan::scan::{extract_refs, scan_records};
use orthowan::splice::{place_before_end, splice_text, Replacement};
use orthowan::text::{decimal_chars, is_decimal_digit, is_white_space, parse_decimal, trim_chars};

fn chars(s: &str) -> Vec<char> {
    s.chars().collect()
}

#[test]
fn trimming_twice_changes_nothing() {
    for s in ["  a b  ", "", "\t\n", "x", " \u{3000}y\u{2029}"] {
        let once = trim_chars(&chars(s));
        let twice = trim_chars(&once);
        assert_eq!(once, twice);
        if let (Some(f), Some(l)) = (once.first(), once.last()) {
            assert!(!is_white_space(*f) && !is_white_space(*l));
        }
    }
}

#[test]
fn split_pieces_are_trimmed() {
    for s in [" a , b ", "( x , y ) , ' z '", ",,", "\u{a0}q\u{a0}"] {
        let pieces = split_args(&chars(s));
        assert!(!pieces.is_empty());
        for p in pieces {
            assert_eq!(trim_chars(&p), p);
        }
    }
}

#[test]
fn written_ids_read_back() {
    for n in [0usize, 9, 10, 41, 1000, 987654321, usize::MAX] {
        let mut id = vec!['#'];
        id.extend(decimal_chars(n));
        assert_eq!(parse_decimal(&id[1..]), Some(n));
    }
}

#[test]
fn splice_without_replacements_keeps_text() {
    for s in ["#1=A(x);\n junk #2 = B((#1));tail", "", "no records", "#1=A(;);#1=A();"] {
        let t = chars(s);
        let spans = scan_records(&t);
        assert_eq!(splice_text(&t, &spans, &Vec::new()), t);
        let unrelated = vec![Replacement { id: chars("#99"), text: chars("X") }];
        assert_eq!(splice_text(&t, &spans, &unrelated), t);
    }
}

#[test]
fn splice_replaces_every_record_of_an_id() {
    let t = chars("a#1=A();b#1=B();c#2=C();d");
    let spans = scan_records(&t);
    let repl = vec![Replacement { id: chars("#1"), text: chars("R") }];
    assert_eq!(splice_text(&t, &spans, &repl), chars("aRbRc#2=C();d"));
}

#[test]
fn refs_are_hash_and_digits() {
    for s in ["#1,#22,(#333)", "x#٣٤y##5", "#,#a,#9"] {
        for r in extract_refs(&chars(s)) {
            assert!(r.len() >= 2 && r[0] == '#');
            assert!(r[1..].iter().all(|c| is_decimal_digit(*c)));
        }
    }
}

#[test]
fn records_are_shaped_and_ordered() {
    let t = chars("x #1 = A(a);#2=B((b));  #3=\nC('); ');");
    let spans = scan_records(&t);
    assert_eq!(spans.len(), 3);
    let mut prev_end = 0;
    for s in &spans {
        assert!(prev_end <= s.start);
        assert_eq!(t[s.start], '#');
        assert_eq!(t[s.type_end], '(');
        assert_eq!(&t[s.end - 2..s.end], &[')', ';']);
        prev_end = s.end;
    }
}

#[test]
fn tidying_twice_changes_nothing() {
    for s in ["1.2500000000", "100", "0.0000000000", "", "-0.5000", "7.", "inf", "1e10"] {
        let once = tidy_number_text(s);
        assert_eq!(tidy_number_text(&once), once);
        assert!(once.contains('.'));
    }
}

#[test]
fn end_section_with_given_upper_case() {
    let r = chars("aENDSEC;b");
    assert_eq!(place_before_end(&r, &r), Ok(1));
    assert_eq!(place_before_end(&chars("abc"), &chars("ABC")), Err(true));
    // a two-byte character whose upper case takes one byte shifts the offset
    assert_eq!(place_before_end(&chars("ıENDSEC;"), &chars("IENDSEC;")), Err(false));
    // a one-byte character whose upper case takes two bytes shifts it too
    assert_eq!(place_before_end(&chars("xENDSEC;x"), &chars("ıENDSEC;x")), Ok(2));
}

fn split_strings(s: &str) -> Vec<String> {
    split_args(&chars(s)).iter().map(|p| p.iter().collect()).collect()
}

#[test]
fn split_join_split_is_stable() {
    for s in [" a , b ", "( x , y ) , ' z '", ",,", "'it''s, ok' , (1,2)", "a,'(',b", "x)),(y", " 'open, str"] {
        let once = split_strings(s);
        let joined = once.join(",");
        assert_eq!(split_strings(&joined), once);
    }
}

#[test]
fn join_undoes_split_without_outer_spaces() {
    for s in ["a,b,c", "'x, y',(1 , 2),$", "", "''", "a(,)b,c", "'a'',b',c"] {
        assert_eq!(split_strings(s).join(","), s);
    }
}
