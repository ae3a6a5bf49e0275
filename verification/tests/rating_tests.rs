use trust_atom::rating::{
    blend_mean, blend_with_self, div_round, format_rating, parse_rating, pow_phi, RATING_SCALE,
};
use trust_atom::TrustAtomError;

#[test]
fn parse_plain_decimals() {
    assert_eq!(parse_rating("0.99"), Ok(990_000_000));
    assert_eq!(parse_rating("0.80"), Ok(800_000_000));
    assert_eq!(parse_rating("-0.99"), Ok(-990_000_000));
    assert_eq!(parse_rating("1"), Ok(1_000_000_000));
    assert_eq!(parse_rating("-1.000000000"), Ok(-1_000_000_000));
    assert_eq!(parse_rating("0"), Ok(0));
    assert_eq!(parse_rating("0.000000001"), Ok(1));
}

#[test]
fn parse_accepts_fraction_only_forms() {
    assert_eq!(parse_rating(".8"), Ok(800_000_000));
    assert_eq!(parse_rating(".5"), Ok(500_000_000));
    assert_eq!(parse_rating("-.99"), Ok(-990_000_000));
    assert_eq!(parse_rating(".800000000"), Ok(800_000_000));
}

#[test]
fn parse_rejects_malformed_text() {
    assert_eq!(parse_rating(""), Err(TrustAtomError::NumericParseFailure));
    assert_eq!(parse_rating("-"), Err(TrustAtomError::NumericParseFailure));
    assert_eq!(parse_rating("abc"), Err(TrustAtomError::NumericParseFailure));
    assert_eq!(parse_rating("0."), Err(TrustAtomError::NumericParseFailure));
    assert_eq!(parse_rating("."), Err(TrustAtomError::NumericParseFailure));
    assert_eq!(parse_rating("0.1.2"), Err(TrustAtomError::NumericParseFailure));
    assert_eq!(parse_rating("0.1234567891"), Err(TrustAtomError::NumericParseFailure));
}

#[test]
fn parse_rejects_out_of_range_ratings() {
    assert_eq!(parse_rating("1.000000001"), Err(TrustAtomError::NumericParseFailure));
    assert_eq!(parse_rating("2"), Err(TrustAtomError::NumericParseFailure));
    assert_eq!(parse_rating("999"), Err(TrustAtomError::NumericParseFailure));
    assert_eq!(parse_rating("-1.5"), Err(TrustAtomError::NumericParseFailure));
}

#[test]
fn format_is_canonical_nine_digits() {
    // nine fractional digits, and no integer-part zero
    assert_eq!(format_rating(990_000_000), ".990000000");
    assert_eq!(format_rating(800_000_000), ".800000000");
    assert_eq!(format_rating(-190_000_000), "-.190000000");
    assert_eq!(format_rating(0), ".000000000");
    assert_eq!(format_rating(1_000_000_000), "1.000000000");
    assert_eq!(format_rating(952_000_000), ".952000000");
    assert_eq!(format_rating(1), ".000000001");
}

#[test]
fn format_then_parse_is_identity() {
    for v in [0i64, 1, -1, 660_000_000, -990_000_000, RATING_SCALE, -RATING_SCALE] {
        assert_eq!(parse_rating(&format_rating(v)), Ok(v));
    }
}

#[test]
fn self_weight_blending() {
    // my_rating = 0.6, weighted_sum = 0.9: 0.6 + (0.9 - 0.6) * 0.20 = 0.66
    assert_eq!(blend_with_self(600_000_000, 900_000_000), 660_000_000);
}

#[test]
fn no_self_rating_fallback() {
    // two contributions summing to 1.2: 1.2 / 2 = 0.6
    assert_eq!(blend_mean(1_200_000_000, 2), 600_000_000);
}

#[test]
fn blending_clamps_to_rating_range() {
    assert_eq!(blend_mean(5_000_000_000, 1), RATING_SCALE);
    assert_eq!(blend_mean(-5_000_000_000, 1), -RATING_SCALE);
}

#[test]
fn rounded_division_ties_away_from_zero() {
    assert_eq!(div_round(7, 2), 4);
    assert_eq!(div_round(-7, 2), -4);
    assert_eq!(div_round(1, 4), 0);
    assert_eq!(div_round(3, 4), 1);
    assert_eq!(div_round(-190_000_000, 5), -38_000_000);
}

#[test]
fn golden_power_fixed_points() {
    // 1^phi == 1 exactly, and the power is positive and below its base
    // for ratings strictly between zero and one.
    assert_eq!(pow_phi(1_000_000_000), 1_000_000_000);
    let half = pow_phi(500_000_000);
    assert!(0 < half && half < 500_000_000);
    let p8 = pow_phi(800_000_000);
    assert!(half < p8 && p8 < 800_000_000);
}
