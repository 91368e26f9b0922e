use burrowland::asset_config::AssetConfig;
use burrowland::big_decimal::LowU128;

const ONE_NEAR: u128 = 10u128.pow(24);

fn test_config() -> AssetConfig {
    AssetConfig {
        reserve_ratio: 2500,
        target_utilization: 8000,
        target_utilization_rate: LowU128(1000000000003593629036885046u128),
        max_utilization_rate: LowU128(1000000000039724853136740579u128),
        volatility_ratio: 6000,
    }
}

#[test]
fn test_get_rate() {
    let config = test_config();
    let rate = config.get_rate(3 * ONE_NEAR, 18 * ONE_NEAR);
    println!("{}", LowU128::from_big_decimal(&rate).0)
}
