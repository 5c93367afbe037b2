use evo2::number_types::{Amount, Fraction, Rate};

#[test]
fn f32_positive_clips() {
    assert_eq!(Amount::new(0).clipped_sub(Amount::new(500)), Amount::new(0));
    assert_eq!(Amount::new(1000).clipped_sub(Amount::new(500)), Amount::new(500));
    assert_eq!(Amount::new(2000).clipped_sub(Amount::new(500)), Amount::new(1500));
}

#[test]
fn f32_zero_to_one_clips() {
    assert_eq!(Fraction::clipped(0), Fraction::checked(0));
    assert_eq!(Fraction::clipped(500), Fraction::checked(500));
    assert_eq!(Fraction::clipped(1500), Fraction::one());
}

#[test]
fn amount_times_scales_by_the_unit() {
    // 2 times 1.5 is 3
    assert_eq!(Amount::new(2000).times(Amount::new(1500)), Amount::new(3000));
    // saturates instead of overflowing
    assert_eq!(
        Amount::new(u64::MAX).times(Amount::new(u64::MAX)),
        Amount::new(u64::MAX)
    );
}

#[test]
fn amount_addition_saturates() {
    assert_eq!(
        Amount::new(u64::MAX).saturating_add(Amount::new(1)),
        Amount::new(u64::MAX)
    );
    assert_eq!(Amount::new(1).saturating_add(Amount::new(2)), Amount::new(3));
}

#[test]
fn amount_min_picks_the_smaller_value() {
    assert_eq!(Amount::new(3).min(Amount::new(5)), Amount::new(3));
    assert_eq!(Amount::new(5).min(Amount::new(3)), Amount::new(3));
}

#[test]
fn amount_divides_evenly_among_a_count() {
    assert_eq!(Amount::new(10000).divided_by(4), Amount::new(2500));
    assert_eq!(Amount::new(10).divided_by(3), Amount::new(3));
}

#[test]
fn fraction_arithmetic_clips_to_the_unit_interval() {
    assert_eq!(
        Fraction::checked(800).add_clipped(Fraction::checked(600)),
        Fraction::one()
    );
    assert_eq!(
        Fraction::checked(200).sub_clipped(Fraction::checked(600)),
        Fraction::checked(0)
    );
    assert_eq!(
        Fraction::checked(800).sub_clipped(Fraction::checked(600)),
        Fraction::checked(200)
    );
}

#[test]
fn rate_times_amount_clips_to_the_unit_interval() {
    // 0.25 per unit, applied to 2 units, is 0.5
    assert_eq!(Rate::checked(250).times(Amount::new(2000)), Fraction::checked(500));
    // 0.5 per unit, applied to 4 units, clips at 1
    assert_eq!(Rate::checked(500).times(Amount::new(4000)), Fraction::one());
}
