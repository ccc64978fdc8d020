use zapzap::field::Field;
use zapzap::items::{find_from, phone_digits};
use zapzap::text::whitespace;

#[test]
fn the_caret_counts_bytes_after_typing_a_two_byte_letter() {
    let mut field: Field<32> = Field::new();
    field.push('ã');
    assert_eq!(field.text(), "ã");
    assert_eq!(field.cursor(), 2);
    assert_eq!(field.selection(), (2, 2));
}

#[test]
fn set_puts_the_caret_at_the_byte_end() {
    let mut field: Field<32> = Field::new();
    field.set(&['ã']);
    assert_eq!(field.cursor(), 2);
    field.set(&['ã', 'b']);
    assert_eq!(field.cursor(), 3);
}

#[test]
fn move_to_takes_a_byte_offset_and_selects_from_the_anchor() {
    let mut field: Field<32> = Field::new();
    field.set(&['ã', 'b', 'c']);
    field.move_to(2, false);
    assert_eq!(field.cursor(), 2);
    assert_eq!(field.selection(), (2, 2));
    field.move_to(4, true);
    assert_eq!(field.cursor(), 4);
    assert_eq!(field.selection(), (2, 4));
    field.move_to(0, true);
    assert_eq!(field.selection(), (0, 2));
    field.move_to(99, false);
    assert_eq!(field.cursor(), 4);
}

#[test]
fn typing_past_the_room_is_ignored() {
    let mut field: Field<2> = Field::new();
    field.push('a');
    field.push('ã');
    assert_eq!(field.text(), "a");
    assert_eq!(field.cursor(), 1);
}

#[test]
fn find_from_gives_byte_ranges_ignoring_case_and_accents() {
    assert_eq!(find_from("Sílvia e Silva", "SILV", 0), Some((0, 5)));
    assert_eq!(find_from("Sílvia e Silva", "SILV", 1), Some((10, 14)));
    assert_eq!(find_from("Sílvia e Silva", "SILV", 11), None);
    assert_eq!(find_from("Sílvia e Silva", "", 0), None);
}

#[test]
fn typing_that_does_not_fit_still_deletes_the_selection() {
    let mut field: Field<3> = Field::new();
    field.set(&['a', 'b', 'c']);
    field.move_to(1, false);
    field.move_to(2, true);
    field.push('€');
    assert_eq!(field.text(), "ac");
    assert_eq!(field.selection(), (1, 1));
    field.push('d');
    assert_eq!(field.text(), "adc");
    assert_eq!(field.cursor(), 2);
}

#[test]
fn white_space_is_what_unicode_calls_white_space() {
    for c in [' ', '\t', '\n', '\u{85}', '\u{A0}', '\u{2003}', '\u{3000}'] {
        assert!(whitespace(c), "{:?}", c);
        assert_eq!(whitespace(c), c.is_whitespace());
    }
    for c in ['a', '_', '\u{200B}', '\u{FEFF}', '€'] {
        assert!(!whitespace(c), "{:?}", c);
        assert_eq!(whitespace(c), c.is_whitespace());
    }
}

#[test]
fn a_phone_number_reads_its_digits_in_order() {
    let mut digits = [0u8; 15];
    assert_eq!(phone_digits("+55 (11) 99698-5554", &mut digits), Some(13));
    assert_eq!(&digits[..13], b"5511996985554");
    assert_eq!(phone_digits("1234567", &mut digits), None);
    assert_eq!(phone_digits("12a45678", &mut digits), None);
    assert_eq!(phone_digits("1234567890123456", &mut digits), None);
    assert_eq!(phone_digits("12+345678", &mut digits), None);
}

