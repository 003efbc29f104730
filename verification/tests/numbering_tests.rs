use inventory_core::numbering::{
    format_invoice_number, next_invoice_number, next_sequence, parse_digits_u64, sequence_value,
};

#[test]
fn first_number_with_no_prior_invoice() {
    assert_eq!(next_invoice_number(None), "SQ00000001");
    assert_eq!(next_sequence(None), 1);
}

#[test]
fn number_follows_prior_number() {
    assert_eq!(next_invoice_number(Some("SQ00000711")), "SQ00000712");
}

#[test]
fn number_rolls_over_eight_digits() {
    assert_eq!(next_invoice_number(Some("SQ99999999")), "SQ100000000");
    assert_eq!(format_invoice_number(123456789), "SQ123456789");
}

#[test]
fn unparseable_prior_number_restarts_at_one() {
    assert_eq!(next_invoice_number(Some("INV-42")), "SQ00000001");
    assert_eq!(next_invoice_number(Some("SQ")), "SQ00000001");
    assert_eq!(next_invoice_number(Some("SQ12x4")), "SQ00000001");
    assert_eq!(next_invoice_number(Some("")), "SQ00000001");
}

#[test]
fn prefix_is_stripped_once() {
    assert_eq!(next_invoice_number(Some("SQSQ00000123")), "SQ00000001");
}

#[test]
fn zero_padding_to_eight_digits() {
    assert_eq!(format_invoice_number(1), "SQ00000001");
    assert_eq!(format_invoice_number(0), "SQ00000000");
    assert_eq!(format_invoice_number(99999999), "SQ99999999");
}

#[test]
fn sequence_value_reads_the_digits() {
    assert_eq!(sequence_value("SQ00000711"), Some(711));
    assert_eq!(sequence_value("SQ00000001"), Some(1));
    assert_eq!(sequence_value("711"), Some(711));
    assert_eq!(sequence_value("SQ"), None);
    assert_eq!(sequence_value("SQ-1"), None);
}

#[test]
fn digit_parse_bounds() {
    assert_eq!(parse_digits_u64(""), None);
    assert_eq!(parse_digits_u64("18446744073709551615"), Some(u64::MAX));
    assert_eq!(parse_digits_u64("18446744073709551616"), None);
    assert_eq!(parse_digits_u64("00042"), Some(42));
}

#[test]
fn sequence_cap_falls_back_to_one() {
    let at_cap = format_invoice_number(u64::MAX);
    assert_eq!(at_cap, "SQ18446744073709551615");
    assert_eq!(next_sequence(Some(&at_cap)), 1);
}
