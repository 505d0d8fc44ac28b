use qloxide::analytics::{sibling_vols_path, Rng, Side};
use qloxide::options::{MathError, OptionType, QlError};
use qloxide::quotes::Disposition;

#[test]
fn rng_draws_xorshift64_star() {
    let mut rng = Rng::new(7);
    assert_eq!(rng.next_u64(), 15130880334998875822);
    assert_eq!(rng.next_u64(), 17123930943180875438);
    assert_eq!(rng.next_u64(), 1648209070578717474);
}

#[test]
fn same_seed_reproduces() {
    let mut a = Rng::new(42);
    let mut b = Rng::new(42);
    for _ in 0..100 {
        assert_eq!(a.next_u64(), b.next_u64());
    }
}

#[test]
fn zero_seed_is_taken_as_one_and_never_sticks_at_zero() {
    let mut zero = Rng::new(0);
    let mut one = Rng::new(1);
    assert_eq!(zero.next_u64(), 5180492295206395165);
    assert_eq!(one.next_u64(), 5180492295206395165);
    for _ in 0..1000 {
        assert_ne!(zero.next_u64(), 0);
    }
}

#[test]
fn vols_file_sits_beside_the_market_file() {
    assert_eq!(sibling_vols_path("data/market.json").as_deref(), Some("data/vols.json"));
    assert_eq!(sibling_vols_path("market.json").as_deref(), Some("vols.json"));
    assert_eq!(sibling_vols_path("data/other.json"), None);
    assert_eq!(sibling_vols_path("data/xmarket.json"), None);
}

#[test]
fn tails_have_two_sides() {
    assert_ne!(Side::Left, Side::Right);
}

#[test]
fn option_types_print_their_names() {
    assert_eq!(OptionType::Put.to_string(), "Put");
    assert_eq!(OptionType::Call.to_string(), "Call");
}

#[test]
fn model_errors_print_their_detail() {
    assert_eq!(
        QlError::ModelDataError("negative time".to_string()).to_string(),
        "GBSM incorrect model data: negative time"
    );
    assert_eq!(
        QlError::MarketDataError("spot".to_string()).to_string(),
        "GBSM incorrect market data `spot`"
    );
    let e = MathError::NonConvergeance("brent".to_string(), 0.5f64.to_bits(), 1e-3f64.to_bits(), 100);
    assert_eq!(
        QlError::IvolNonConvergeance("call".to_string(), e).to_string(),
        "ivol non-convergeance `call`"
    );
}

#[test]
fn dropped_rows_keep_their_reason() {
    let d = Disposition::Dropped { reason: "crossed".to_string() };
    match d {
        Disposition::Dropped { reason } => assert_eq!(reason, "crossed"),
        Disposition::Kept => panic!("expected a dropped row"),
    }
}
