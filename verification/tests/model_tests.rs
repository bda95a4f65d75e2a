use gas_saver_eth::model::GasModel;

#[test]
fn test_model() {
    let mut model = GasModel::new(10);
    model.update(10);
    model.update(20);
    model.update(30);
    let gas_price = model.current_fee();
    let (rise, len) = model.get_trend();

    assert_eq!(gas_price, 30);
    assert_eq!(rise as f64 / len as f64, 6.666666666666667);
    // population standard deviation of {10, 20, 30} is sqrt(200/3):
    // the exact fraction of squares is 600 / 9.
    let (num, den) = model.get_volatility();
    assert_eq!(num, 600);
    assert_eq!(den, 9);
    let vol = (num as f64 / den as f64).sqrt();
    assert!((vol - 8.16496580927726).abs() < 1e-9);
}

#[test]
fn window_is_bounded_and_current_fee_tracks_tail() {
    let mut model = GasModel::new(3);
    for f in [5u64, 6, 7, 8, 9] {
        model.update(f);
        assert!(model.history.len() <= 3);
        assert_eq!(model.current_fee(), f);
    }
    assert_eq!(model.history, [7u64, 8, 9]);
}

#[test]
fn volatility_zero_on_constant_window() {
    let mut model = GasModel::new(10);
    model.update(50);
    model.update(50);
    model.update(50);
    let (num, den) = model.get_volatility();
    assert_eq!(num, 0);
    assert_eq!(den, 9);
    assert!(!model.volatility_exceeds(0));
}

#[test]
fn volatility_comparison_is_exact() {
    let mut model = GasModel::new(10);
    model.update(100);
    model.update(200);
    // dispersion is 10000, len^2 is 4: volatility is 50.
    let (num, den) = model.get_volatility();
    assert_eq!(num, 10000);
    assert_eq!(den, 4);
    assert!(model.volatility_exceeds(49));
    assert!(!model.volatility_exceeds(50));
}

#[test]
fn trend_of_short_window_is_zero() {
    let mut model = GasModel::new(10);
    assert_eq!(model.get_trend(), (0, 1));
    assert_eq!(model.get_volatility(), (0, 1));
    model.update(42);
    assert_eq!(model.get_trend(), (0, 1));
    assert_eq!(model.current_fee(), 42);
}

#[test]
fn trend_is_signed() {
    let mut model = GasModel::new(10);
    model.update(300);
    model.update(200);
    model.update(100);
    assert_eq!(model.get_trend(), (-200, 3));
}
