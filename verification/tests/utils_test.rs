use doots::utils::{char_to_string, pad_end, pad_out, u16_to_string};

#[test]
fn test_pad_end() {
    assert_eq!("012", pad_end("012", " ", 3));
    assert_eq!("012  ", pad_end("012", " ", 5));
    assert_eq!("012  ", pad_end("012", "", 5));
    assert_eq!("012--", pad_end("012", "-", 5));
    assert_eq!("01234", pad_end("012", "34", 5));
    assert_eq!("012343", pad_end("012", "34", 6));
}

#[test]
fn test_pad_out() {
    assert_eq!("012", pad_out("012", " ", 0));
    assert_eq!("012", pad_out("012", " ", 3));
    assert_eq!(" 012 ", pad_out("012", " ", 5));
    assert_eq!(" 012 ", pad_out("012", "", 5));
    assert_eq!("-012-", pad_out("012", "-", 5));
    assert_eq!("30124", pad_out("012", "34", 5));
    assert_eq!("330124", pad_out("012", "34", 6));
}

#[test]
fn test_u16_to_string() {
    assert_eq!("0", u16_to_string(0));
    assert_eq!("7", u16_to_string(7));
    assert_eq!("10", u16_to_string(10));
    assert_eq!("180", u16_to_string(180));
    assert_eq!("65535", u16_to_string(65535));
}

#[test]
fn test_char_to_string() {
    assert_eq!("x", char_to_string('x'));
    assert_eq!("·", char_to_string('·'));
}
