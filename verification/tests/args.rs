use orthowan::args::{point_coordinates, split_args, try_split_args, tidy_number_text};

fn split(s: &str) -> Vec<String> {
    let v: Vec<char> = s.chars().collect();
    split_args(&v).iter().map(|p| p.iter().collect()).collect()
}

#[test]
fn split_at_top_level_commas() {
    assert_eq!(split("a, b ,c"), vec!["a", "b", "c"]);
    assert_eq!(split("'x,y',(1,2),$"), vec!["'x,y'", "(1,2)", "$"]);
    assert_eq!(split(""), vec![""]);
    assert_eq!(split(" , "), vec!["", ""]);
    assert_eq!(split("'it''s, here',2"), vec!["'it''s, here'", "2"]);
    assert_eq!(split("((a,b),c),d"), vec!["((a,b),c)", "d"]);
    assert_eq!(split("),a,(,b"), vec!["),a,(", "b"]);
    assert_eq!(split("'',x"), vec!["''", "x"]);
}

#[test]
fn split_opening_arguments() {
    let args = "'2AbC',#5,'Fenster',$,$,#20,#30,'tag',.OPENING.";
    let pieces = split(args);
    assert_eq!(pieces.len(), 9);
    assert_eq!(pieces[6], "#30");
}

#[test]
fn try_split_agrees() {
    let v: Vec<char> = "a,(b,c)".chars().collect();
    let tried = try_split_args(&v).unwrap();
    assert_eq!(tried, split_args(&v));
}

fn coords(s: &str) -> Vec<String> {
    let v: Vec<char> = s.chars().collect();
    point_coordinates(&v).iter().map(|p| p.iter().collect()).collect()
}

#[test]
fn point_coordinate_texts() {
    assert_eq!(coords(" (1.5, 2.,-3.) "), vec!["1.5", "2.", "-3."]);
    assert_eq!(coords("(0.,0.)"), vec!["0.", "0."]);
    assert_eq!(coords("1,2"), vec!["1", "2"]);
    assert_eq!(coords("()"), vec![""]);
    assert_eq!(coords("("), vec!["("]);
    assert_eq!(coords("((1,2))"), vec!["(1", "2)"]);
}

#[test]
fn tidy_numbers() {
    assert_eq!(tidy_number_text("1.5000000000"), "1.5");
    assert_eq!(tidy_number_text("0.0000000000"), "0.0");
    assert_eq!(tidy_number_text("-2.0000000000"), "-2.0");
    assert_eq!(tidy_number_text("100"), "1.0");
    assert_eq!(tidy_number_text("100.000"), "100.0");
    assert_eq!(tidy_number_text("inf"), "inf.0");
    assert_eq!(tidy_number_text(""), ".0");
    assert_eq!(tidy_number_text("NaN"), "NaN.0");
}
