use lib::coding::SegmentError;
use lib::options::{opj_j2k_parse_extra_option, parse_i32_from, ExtraOption};

#[test]
fn parses_decimal_integers_like_std() {
    assert_eq!(parse_i32_from("GUARD_BITS=5", 11), Some(5));
    assert_eq!(parse_i32_from("x+7", 1), Some(7));
    assert_eq!(parse_i32_from("-12", 0), Some(-12));
    assert_eq!(parse_i32_from("2147483647", 0), Some(i32::MAX));
    assert_eq!(parse_i32_from("-2147483648", 0), Some(i32::MIN));
    assert_eq!(parse_i32_from("2147483648", 0), None);
    assert_eq!(parse_i32_from("99999999999999", 0), None);
    assert_eq!(parse_i32_from("", 0), None);
    assert_eq!(parse_i32_from("-", 0), None);
    assert_eq!(parse_i32_from("1a", 0), None);
    assert_eq!(parse_i32_from(" 1", 0), None);
    for s in ["0", "42", "-7", "+3", "x", "12345678901"] {
        assert_eq!(parse_i32_from(s, 0), s.parse::<i32>().ok());
    }
}

#[test]
fn reads_each_kind_of_option() {
    assert_eq!(opj_j2k_parse_extra_option("PLT=YES"), ExtraOption::Plt(true));
    assert_eq!(opj_j2k_parse_extra_option("PLT=NO"), ExtraOption::Plt(false));
    assert_eq!(opj_j2k_parse_extra_option("TLM=YES"), ExtraOption::Tlm(true));
    assert_eq!(opj_j2k_parse_extra_option("TLM=NO"), ExtraOption::Tlm(false));
    assert_eq!(opj_j2k_parse_extra_option("GUARD_BITS=3"), ExtraOption::GuardBits(3));
    assert_eq!(opj_j2k_parse_extra_option("GUARD_BITS=abc"), ExtraOption::GuardBits(0));
    assert_eq!(opj_j2k_parse_extra_option("GUARD_BITS=8"), ExtraOption::Invalid);
    assert_eq!(opj_j2k_parse_extra_option("GUARD_BITS=-1"), ExtraOption::Invalid);
    assert_eq!(opj_j2k_parse_extra_option("PLT=MAYBE"), ExtraOption::Invalid);
    assert_eq!(opj_j2k_parse_extra_option("FOO=1"), ExtraOption::Invalid);
    let _ = SegmentError::TooShort;
}
