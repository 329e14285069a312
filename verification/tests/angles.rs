use rasterize::types::{Angle, FULL_TURN_MDEG, FULL_TURN_URAD};

#[test]
fn angle_normalize_works() {
    assert_eq!(Angle::Degrees(360_000).to_degrees(), 360_000);
    assert_eq!(Angle::Radians(FULL_TURN_URAD).to_radians(), FULL_TURN_URAD);

    // 361.2 degrees wraps to 1.2 degrees.
    assert_eq!(Angle::Degrees(361_200).normalized().to_degrees(), 1_200);

    // -270 degrees wraps to 90 degrees.
    assert_eq!(Angle::Degrees(-270_000).normalized().to_degrees(), 90_000);

    // 2.5 pi radians wraps to 0.5 pi radians (7_853_981 microradians is
    // 2.5 pi; one full turn less leaves 1_570_796, which is 0.5 pi).
    assert_eq!(
        Angle::Radians(7_853_981).normalized().to_radians(),
        7_853_981 - FULL_TURN_URAD
    );

    // -0.5 pi radians wraps to 1.5 pi radians.
    assert_eq!(
        Angle::Radians(-1_570_796).normalized().to_radians(),
        FULL_TURN_URAD - 1_570_796
    );
}

#[test]
fn normalize_lands_in_one_turn() {
    for &v in &[
        -1_000_000i64,
        -360_000,
        -270_000,
        -1,
        0,
        1,
        359_999,
        360_001,
        5_000_000,
    ] {
        let a = Angle::Degrees(v).normalized();
        let d = a.to_degrees();
        assert!(0 <= d && d <= FULL_TURN_MDEG);
        // Congruent to the input modulo one turn.
        assert_eq!((d - v).rem_euclid(FULL_TURN_MDEG), 0);
        // Idempotent.
        assert_eq!(a.normalized(), a);
    }
}

#[test]
fn to_radians_round_figures() {
    // 180 degrees is half a turn in microradians (pi, rounded down).
    assert_eq!(Angle::Degrees(180_000).to_radians(), FULL_TURN_URAD / 2);
    // A degree value converts back and forth within rounding.
    let d = Angle::Degrees(123_456);
    let r = d.to_radians();
    let back = Angle::Radians(r).to_degrees();
    assert!((back - 123_456i64).abs() <= 1);
}

#[test]
fn mixed_units_compare_in_degrees() {
    assert_eq!(Angle::Radians(FULL_TURN_URAD).to_degrees(), 360_000);
    assert_eq!(Angle::Degrees(360_000).to_radians(), FULL_TURN_URAD);
    assert_eq!(Angle::Radians(0).to_degrees(), 0);
}
