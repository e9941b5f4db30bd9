use nae::fullwidth::FullWidth;

#[test]
fn test_half_to_full_number_1() {
    let s = "012345678909876543210";
    let r = FullWidth::halfwidth_to_fullwidth_number(s);
    assert_eq!(
        String::from("０１２３４５６７８９０９８７６５４３２１０"),
        r
    );
}

#[test]
fn test_full_to_half_number_1() {
    let s = "０１２３４５６７８９０９８７６５４３２１０";
    let r = FullWidth::fullwidth_to_halfwidth_number(s);
    assert_eq!(String::from("012345678909876543210"), r);
}

#[test]
fn test_full_to_half_number_2() {
    let s = "ほげ１２３Foo456";
    let r = FullWidth::fullwidth_to_halfwidth_number(s);
    assert_eq!(String::from("ほげ123Foo456"), r);
}

#[test]
fn test_half_to_full_number_2() {
    let s = "ほげ１２３Foo456";
    let r = FullWidth::halfwidth_to_fullwidth_number(s);
    assert_eq!(String::from("ほげ１２３Foo４５６"), r);
}

#[test]
fn test_fullwidth_empty() {
    assert_eq!(FullWidth::halfwidth_to_fullwidth_number(""), "");
    assert_eq!(FullWidth::fullwidth_to_halfwidth_number(""), "");
}
