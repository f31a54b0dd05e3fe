use annex::colour::{Colour, TextColour};

#[test]
fn colour_new_sets_channels() {
    let c = Colour::new(1, 2, 3);
    assert_eq!((c.r, c.g, c.b), (1, 2, 3));
    let t = TextColour::new(Colour::new(255, 255, 255), Colour::new(0, 0, 0));
    assert_eq!(t.foreground, Colour::new(255, 255, 255));
    assert_eq!(t.background, Colour::new(0, 0, 0));
}

#[test]
fn one_digit_grey() {
    assert_eq!(Colour::from_str("7"), Ok(Colour::new(7, 7, 7)));
    assert_eq!(Colour::from_str("f"), Ok(Colour::new(15, 15, 15)));
    assert_eq!(Colour::from_str("g"), Err(()));
}

#[test]
fn three_digit_colour() {
    assert_eq!(Colour::from_str("fa0"), Ok(Colour::new(15, 10, 0)));
    assert_eq!(Colour::from_str("FA0"), Ok(Colour::new(15, 10, 0)));
    assert_eq!(Colour::from_str("fa?"), Err(()));
}

#[test]
fn hash_three_digit_colour() {
    assert_eq!(Colour::from_str("#fa0"), Ok(Colour::new(15, 10, 0)));
    // The marker character itself is skipped without being inspected.
    assert_eq!(Colour::from_str("xfa0"), Ok(Colour::new(15, 10, 0)));
}

#[test]
fn six_digit_colour() {
    assert_eq!(Colour::from_str("123456"), Ok(Colour::new(0x12, 0x34, 0x56)));
    assert_eq!(Colour::from_str("ffffff"), Ok(Colour::new(255, 255, 255)));
    assert_eq!(Colour::from_str("12345z"), Err(()));
}

#[test]
fn hash_six_digit_colour() {
    assert_eq!(Colour::from_str("#C0FFEE"), Ok(Colour::new(0xc0, 0xff, 0xee)));
}

#[test]
fn unsupported_lengths_are_rejected() {
    assert_eq!(Colour::from_str(""), Err(()));
    assert_eq!(Colour::from_str("12"), Err(()));
    assert_eq!(Colour::from_str("12345"), Err(()));
    assert_eq!(Colour::from_str("12345678"), Err(()));
}
