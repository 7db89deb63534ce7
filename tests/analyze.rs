use bit_set::BitSet;
use regex_analyze::{analyze, literal_const_size, AnalyzedExpr, Error, Expr, LookAround};

fn lit(c: &str) -> Expr {
    Expr::Literal { val: c.to_string(), casei: false }
}

fn lit_casei(c: &str) -> Expr {
    Expr::Literal { val: c.to_string(), casei: true }
}

fn any() -> Expr {
    Expr::Any { newline: false }
}

fn group(e: Expr) -> Expr {
    Expr::Group(Box::new(e))
}

fn repeat(e: Expr, lo: usize, hi: usize) -> Expr {
    Expr::Repeat { child: Box::new(e), lo: lo, hi: hi, greedy: true }
}

fn set_of(groups: &[usize]) -> BitSet {
    let mut s = BitSet::new();
    for g in groups {
        s.insert(*g);
    }
    s
}

fn check_ranges(a: &AnalyzedExpr, lo: usize, hi: usize) {
    assert!(lo <= a.start_group && a.start_group <= a.end_group && a.end_group <= hi);
    for c in &a.children {
        check_ranges(c, lo, hi);
    }
}

#[test]
fn case_folding_safe() {
    let re = regex::Regex::new("(?i:ß)").unwrap();
    if re.is_match("SS") {
        assert!(!literal_const_size("ß", true));
    }

    // Another tricky example, Armenian ECH YIWN
    let re = regex::Regex::new("(?i:\\x{0587})").unwrap();
    if re.is_match("\u{0565}\u{0582}") {
        assert!(!literal_const_size("\u{0587}", true));
    }
}

#[test]
fn invalid_backref_1() {
    // .\0
    let e = Expr::Concat(vec![any(), Expr::Backref(0)]);
    let backrefs = set_of(&[0]);
    assert!(analyze(&e, &backrefs).is_err());
}

#[test]
fn invalid_backref_2() {
    // (.\1)
    let e = group(Expr::Concat(vec![any(), Expr::Backref(1)]));
    let backrefs = set_of(&[1]);
    assert!(analyze(&e, &backrefs).is_err());
}

#[test]
fn invalid_backref_3() {
    // \1(.)
    let e = Expr::Concat(vec![Expr::Backref(1), group(any())]);
    let backrefs = set_of(&[1]);
    assert!(analyze(&e, &backrefs).is_err());
}

#[test]
fn is_literal() {
    let e = Expr::Concat(vec![lit("a"), lit("b"), lit("c")]);
    let backrefs = BitSet::new();
    let analyzed_expr = analyze(&e, &backrefs).unwrap();
    assert_eq!(analyzed_expr.is_literal(), true);
}

#[test]
fn is_literal_with_repeat() {
    let e = Expr::Concat(vec![lit("a"), lit("b"), repeat(lit("c"), 0, usize::MAX)]);
    let backrefs = BitSet::new();
    let analyzed_expr = analyze(&e, &backrefs).unwrap();
    assert_eq!(analyzed_expr.is_literal(), false);
}

#[test]
fn push_literal_yields_text() {
    let e = Expr::Concat(vec![lit("a"), lit("b"), lit("c")]);
    let backrefs = BitSet::new();
    let a = analyze(&e, &backrefs).unwrap();
    let mut buf = String::from(">");
    a.push_literal(&mut buf);
    assert_eq!(buf, ">abc");
}

#[test]
fn case_insensitive_literal_is_not_literal() {
    let e = Expr::Concat(vec![lit("a"), lit_casei("b")]);
    let backrefs = BitSet::new();
    let a = analyze(&e, &backrefs).unwrap();
    assert!(!a.is_literal());
    assert!(a.children[0].is_literal());
}

#[test]
fn literal_const_size_keeps_size() {
    assert!(literal_const_size("a", false));
    assert!(literal_const_size("ß", true));
}

#[test]
fn valid_backref_is_hard() {
    // (.)\1 with group 0 backreferenced
    let e = Expr::Concat(vec![group(any()), Expr::Backref(0)]);
    let backrefs = set_of(&[0]);
    let a = analyze(&e, &backrefs).unwrap();
    assert!(a.hard);
    assert!(a.children[0].hard);
    assert!(a.children[1].hard);
    assert_eq!(a.children[1].min_size, 0);
    assert!(!a.children[1].const_size);
    assert!(!a.const_size);
    assert_eq!(a.min_size, 1);
}

#[test]
fn referenced_group_is_hard_even_with_easy_body() {
    // (a)(b) where only group 1 is backreferenced
    let e = Expr::Concat(vec![group(lit("a")), group(lit("b"))]);
    let backrefs = set_of(&[1]);
    let a = analyze(&e, &backrefs).unwrap();
    assert!(!a.children[0].hard);
    assert!(a.children[1].hard);
    assert!(a.hard);
}

#[test]
fn error_is_invalid_backref() {
    let e = Expr::Backref(0);
    let backrefs = set_of(&[0]);
    match analyze(&e, &backrefs) {
        Err(err) => assert_eq!(err, Error::InvalidBackref),
        Ok(_) => panic!("expected an error"),
    }
}

#[test]
fn group_numbering_is_preorder() {
    // ((a)(b))(c)
    let e = Expr::Concat(vec![
        group(Expr::Concat(vec![group(lit("a")), group(lit("b"))])),
        group(lit("c")),
    ]);
    let backrefs = BitSet::new();
    let a = analyze(&e, &backrefs).unwrap();
    assert_eq!((a.start_group, a.end_group), (0, 4));
    let outer = &a.children[0];
    assert_eq!((outer.start_group, outer.end_group), (0, 3));
    let inner = &outer.children[0];
    assert_eq!((inner.start_group, inner.end_group), (1, 3));
    assert_eq!((inner.children[0].start_group, inner.children[0].end_group), (1, 2));
    assert_eq!((inner.children[1].start_group, inner.children[1].end_group), (2, 3));
    assert_eq!((a.children[1].start_group, a.children[1].end_group), (3, 4));
    check_ranges(&a, 0, 4);
}

#[test]
fn plain_pattern_is_not_hard() {
    let e = Expr::Concat(vec![
        Expr::StartText,
        group(Expr::Alt(vec![lit("a"), repeat(lit("b"), 1, 3)])),
        Expr::EndText,
    ]);
    let backrefs = BitSet::new();
    let a = analyze(&e, &backrefs).unwrap();
    assert!(!a.hard);
}

#[test]
fn alternation_same_sizes_is_const() {
    // a|b
    let e = Expr::Alt(vec![lit("a"), lit("b")]);
    let backrefs = BitSet::new();
    let a = analyze(&e, &backrefs).unwrap();
    assert!(a.const_size);
    assert_eq!(a.min_size, 1);
}

#[test]
fn alternation_different_sizes_is_not_const() {
    // a|bb
    let e = Expr::Alt(vec![lit("a"), Expr::Concat(vec![lit("b"), lit("b")])]);
    let backrefs = BitSet::new();
    let a = analyze(&e, &backrefs).unwrap();
    assert!(!a.const_size);
    assert_eq!(a.min_size, 1);
    // bb|a
    let e = Expr::Alt(vec![Expr::Concat(vec![lit("b"), lit("b")]), lit("a")]);
    let a = analyze(&e, &backrefs).unwrap();
    assert!(!a.const_size);
    assert_eq!(a.min_size, 1);
}

#[test]
fn concatenation_sizes_add() {
    // ab
    let e = Expr::Concat(vec![lit("a"), lit("b")]);
    let backrefs = BitSet::new();
    let a = analyze(&e, &backrefs).unwrap();
    assert_eq!(a.min_size, 2);
    assert!(a.const_size);
    // ab*
    let e = Expr::Concat(vec![lit("a"), repeat(lit("b"), 0, usize::MAX)]);
    let a = analyze(&e, &backrefs).unwrap();
    assert_eq!(a.min_size, 1);
    assert!(!a.const_size);
}

#[test]
fn exact_repeat_is_const() {
    let backrefs = BitSet::new();
    // a{3}
    let e = repeat(lit("a"), 3, 3);
    let a = analyze(&e, &backrefs).unwrap();
    assert_eq!(a.min_size, 3);
    assert!(a.const_size);
    // a{3,5}
    let e = repeat(lit("a"), 3, 5);
    let a = analyze(&e, &backrefs).unwrap();
    assert_eq!(a.min_size, 3);
    assert!(!a.const_size);
}

#[test]
fn lookaround_is_hard_and_zero_width() {
    let e = Expr::LookAround(
        Box::new(Expr::Concat(vec![lit("a"), repeat(lit("b"), 2, 7)])),
        LookAround::LookAhead,
    );
    let backrefs = BitSet::new();
    let a = analyze(&e, &backrefs).unwrap();
    assert!(a.hard);
    assert_eq!(a.min_size, 0);
    assert!(a.const_size);
    assert_eq!(a.children[0].min_size, 3);
    assert!(!a.children[0].const_size);
}

#[test]
fn atomic_group_is_hard() {
    let e = Expr::AtomicGroup(Box::new(Expr::Concat(vec![lit("a"), lit("b")])));
    let backrefs = BitSet::new();
    let a = analyze(&e, &backrefs).unwrap();
    assert!(a.hard);
    assert_eq!(a.min_size, 2);
    assert!(a.const_size);
}

#[test]
fn looks_left_only_before_width() {
    let backrefs = BitSet::new();
    // ^a
    let e = Expr::Concat(vec![Expr::StartLine, lit("a")]);
    let a = analyze(&e, &backrefs).unwrap();
    assert!(a.looks_left);
    // a^
    let e = Expr::Concat(vec![lit("a"), Expr::StartText]);
    let a = analyze(&e, &backrefs).unwrap();
    assert!(!a.looks_left);
    assert!(a.children[1].looks_left);
    // (?:^|a) and (?:a|^)
    let e = Expr::Alt(vec![Expr::StartText, lit("a")]);
    let a = analyze(&e, &backrefs).unwrap();
    assert!(a.looks_left);
    let e = Expr::Alt(vec![lit("a"), Expr::StartText]);
    let a = analyze(&e, &backrefs).unwrap();
    assert!(a.looks_left);
}

#[test]
fn delegate_size_and_looks_left() {
    let backrefs = BitSet::new();
    let e = Expr::Delegate { inner: "\\b".to_string(), size: 0, casei: false };
    let a = analyze(&e, &backrefs).unwrap();
    assert_eq!(a.min_size, 0);
    assert!(a.const_size);
    assert!(a.looks_left);
    let e = Expr::Delegate { inner: "[a-z]".to_string(), size: 1, casei: false };
    let a = analyze(&e, &backrefs).unwrap();
    assert_eq!(a.min_size, 1);
    assert!(!a.looks_left);
    assert!(!a.hard);
}

#[test]
fn empty_and_anchors_are_zero_width() {
    let backrefs = BitSet::new();
    for e in [Expr::Empty, Expr::EndText, Expr::EndLine] {
        let a = analyze(&e, &backrefs).unwrap();
        assert_eq!(a.min_size, 0);
        assert!(a.const_size);
        assert!(!a.hard);
        assert!(!a.looks_left);
        assert!(a.children.is_empty());
    }
}

fn same_tree(a: &AnalyzedExpr, b: &AnalyzedExpr) -> bool {
    a.start_group == b.start_group
        && a.end_group == b.end_group
        && a.min_size == b.min_size
        && a.const_size == b.const_size
        && a.hard == b.hard
        && a.looks_left == b.looks_left
        && a.children.len() == b.children.len()
        && a.children.iter().zip(b.children.iter()).all(|(x, y)| same_tree(x, y))
}

#[test]
fn analysis_twice_is_identical() {
    let e = Expr::Concat(vec![
        group(Expr::Alt(vec![lit("a"), Expr::Concat(vec![lit("b"), any()])])),
        Expr::Backref(0),
        repeat(group(lit("c")), 2, 2),
    ]);
    let backrefs = set_of(&[0]);
    let a = analyze(&e, &backrefs).unwrap();
    let b = analyze(&e, &backrefs).unwrap();
    assert!(same_tree(&a, &b));
    assert_eq!(a.end_group, 2);
}
