use wfb_rs::args::parse_bandwidth;
use wfb_rs::args::parse_duration;
use wfb_rs::args::Bandwidth;
use wfb_rs::args::NumberError;

#[test]
fn duration_is_a_decimal_number() {
    assert_eq!(parse_duration("1000"), Ok(1000));
    assert_eq!(parse_duration("0"), Ok(0));
    assert_eq!(parse_duration("7"), Ok(7));
    assert_eq!(parse_duration("007"), Ok(7));
    assert_eq!(parse_duration("+15"), Ok(15));
}

#[test]
fn duration_agrees_with_the_standard_parser() {
    let samples = [
        "", "+", "-", "0", "1", "42", "+42", "-42", "++42", "4 2", " 42", "42 ", "4_2", "1e3",
        "0x10", "18446744073709551615", "18446744073709551616", "18446744073709551620",
        "99999999999999999999999", "00000000000000000000000001", "+18446744073709551615",
        "184467440737095516150", "1844674407370955161a", "18446744073709551616a",
        "٣", "１２", "12\u{0}", "9223372036854775808",
    ];
    for sample in samples {
        let ours = parse_duration(sample).ok();
        let theirs = sample.parse::<u64>().ok();
        assert_eq!(ours, theirs, "{:?}", sample);
    }
}

#[test]
fn duration_of_nothing_is_empty() {
    assert_eq!(parse_duration(""), Err(NumberError::Empty));
}

#[test]
fn duration_with_a_stray_character_is_invalid() {
    assert_eq!(parse_duration("+"), Err(NumberError::InvalidDigit));
    assert_eq!(parse_duration("-"), Err(NumberError::InvalidDigit));
    assert_eq!(parse_duration("-5"), Err(NumberError::InvalidDigit));
    assert_eq!(parse_duration("12a"), Err(NumberError::InvalidDigit));
    assert_eq!(parse_duration("1 000"), Err(NumberError::InvalidDigit));
    assert_eq!(parse_duration("++1"), Err(NumberError::InvalidDigit));
    assert_eq!(parse_duration("1.5"), Err(NumberError::InvalidDigit));
}

#[test]
fn duration_stops_at_64_bits() {
    assert_eq!(parse_duration("18446744073709551615"), Ok(u64::MAX));
    assert_eq!(parse_duration("18446744073709551616"), Err(NumberError::Overflow));
    assert_eq!(parse_duration("99999999999999999999"), Err(NumberError::Overflow));
}

#[test]
fn duration_reports_what_goes_wrong_first() {
    assert_eq!(parse_duration("99999999999999999999999x"), Err(NumberError::Overflow));
    assert_eq!(parse_duration("9x9999999999999999999999"), Err(NumberError::InvalidDigit));
}

#[test]
fn number_errors_have_words() {
    assert_eq!(NumberError::Empty.message(), "cannot parse integer from empty string");
    assert_eq!(NumberError::InvalidDigit.message(), "invalid digit found in string");
    assert_eq!(NumberError::Overflow.message(), "number too large to fit in target type");
    assert_eq!(NumberError::Empty.message(), "".parse::<u64>().unwrap_err().to_string());
    assert_eq!(NumberError::InvalidDigit.message(), "x".parse::<u64>().unwrap_err().to_string());
    assert_eq!(
        NumberError::Overflow.message(),
        "99999999999999999999".parse::<u64>().unwrap_err().to_string()
    );
}

#[test]
fn bandwidth_is_one_of_five() {
    assert_eq!(parse_bandwidth("10"), Ok(Bandwidth::Bw10));
    assert_eq!(parse_bandwidth("20"), Ok(Bandwidth::Bw20));
    assert_eq!(parse_bandwidth("40"), Ok(Bandwidth::Bw40));
    assert_eq!(parse_bandwidth("80"), Ok(Bandwidth::Bw80));
    assert_eq!(parse_bandwidth("160"), Ok(Bandwidth::Bw160));
}

#[test]
fn other_bandwidths_are_invalid() {
    for arg in ["", "0", "1", "16", "30", "60", "100", "161", "1600", "20 ", " 20", "+20", "020", "2０"] {
        assert_eq!(parse_bandwidth(arg), Err("Invalid Bandwidth!".to_string()), "{:?}", arg);
    }
}

#[test]
fn bandwidth_in_megahertz() {
    assert_eq!(Bandwidth::Bw10.megahertz(), 10);
    assert_eq!(Bandwidth::Bw20.megahertz(), 20);
    assert_eq!(Bandwidth::Bw40.megahertz(), 40);
    assert_eq!(Bandwidth::Bw80.megahertz(), 80);
    assert_eq!(Bandwidth::Bw160.megahertz(), 160);
}
