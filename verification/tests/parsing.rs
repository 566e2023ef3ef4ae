use starforged_dice::parse_roll_spec::parse;

#[test]
fn single_die() {
    let spec = parse("d4").unwrap();
    assert_eq!(spec.dice, vec![4]);
    assert!(spec.bonuses.is_empty());
}

#[test]
fn multiple_dice() {
    let spec = parse("4d8").unwrap();
    assert_eq!(spec.dice, vec![8, 8, 8, 8]);
    assert!(spec.bonuses.is_empty());
}

#[test]
fn with_bonus() {
    let spec = parse("1d10 +2").unwrap();
    assert_eq!(spec.dice, vec![10]);
    assert_eq!(spec.bonuses, vec![2]);
}

#[test]
fn multiple_sizes() {
    let spec = parse("2d6+1d4").unwrap();
    assert_eq!(spec.dice, vec![6, 6, 4]);
    assert!(spec.bonuses.is_empty());
}

#[test]
fn multiple_bonuses() {
    let spec = parse("1d12 +2+1+1").unwrap();
    assert_eq!(spec.dice, vec![12]);
    assert_eq!(spec.bonuses, vec![2, 1, 1]);
}

#[test]
fn whitespace() {
    let specs = vec![
        parse("1d4+1d6+2+1").unwrap(),
        parse("1d4 +1d6+2+1").unwrap(),
        parse("1d4 +   1d6+2+1").unwrap(),
        parse("1d4 +   1d6  +2+1").unwrap(),
        parse("1d4 +   1d6  + 2+1").unwrap(),
        parse("1d4 +   1d6  + 2+  1").unwrap(),
        parse("1d4 +   1d6  + 2 +  1").unwrap(),
        parse("1d4 +   1d6  + 2 +  1  ").unwrap(),
        parse(" 1d4 +   1d6  + 2 +  1  ").unwrap(),
    ];
    for i in 0..(specs.len() - 1) {
        assert_eq!(specs[i], specs[i + 1]);
    }
}

#[test]
fn ordering() {
    let spec = parse("1 + d4").unwrap();
    assert_eq!(spec.dice, vec![4]);
    assert_eq!(spec.bonuses, vec![1]);
}

#[test]
fn capitalisation() {
    let spec1 = parse("2d4").unwrap();
    assert_eq!(spec1.dice, vec![4, 4]);
    assert!(spec1.bonuses.is_empty());

    let spec2 = parse("2D4").unwrap();
    assert_eq!(spec1, spec2);
}

#[test]
fn bad_input() {
    parse("").unwrap_err();
    parse("5").unwrap_err();
    parse("+ 8").unwrap_err();
    parse("+d6").unwrap_err();
    parse("1d4 + fish").unwrap_err();
    parse("2d4 ++ 6").unwrap_err();
    parse("2 d4").unwrap_err();
    parse("2d 4").unwrap_err();
    parse("2 d 4").unwrap_err();
    parse("2d4 1d6").unwrap_err();
    parse("300d4").unwrap_err();
    parse("d1000").unwrap_err();
}

#[test]
fn whitespace_exact_lists() {
    let spec = parse(" 1d4 +   1d6  + 2 +  1  ").unwrap();
    assert_eq!(spec.dice, vec![4, 6]);
    assert_eq!(spec.bonuses, vec![2, 1]);
}

#[test]
fn trailing_separator_fails() {
    parse("1d4+").unwrap_err();
    parse("1d4 + ").unwrap_err();
}

#[test]
fn boundary_magnitudes() {
    let spec = parse("1d255+255").unwrap();
    assert_eq!(spec.dice, vec![255]);
    assert_eq!(spec.bonuses, vec![255]);
    parse("1d256").unwrap_err();
    parse("256d4").unwrap_err();
    parse("1d4+256").unwrap_err();
}

#[test]
fn zero_faces_parse_but_do_not_validate() {
    let spec = parse("1d0+1d4").unwrap();
    assert_eq!(spec.dice, vec![0, 4]);
    assert!(!spec.validate());
    let good = parse("1d4").unwrap();
    assert!(good.validate());
}
