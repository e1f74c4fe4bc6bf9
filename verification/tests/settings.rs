use survicraft::settings::{push_decimal, PlayerNameSetting, TerrainGenerationSeed};

#[test]
fn player_name_from_clock() {
    assert_eq!(PlayerNameSetting::from_seconds(1_700_000_123).0, "Player123");
    assert_eq!(PlayerNameSetting::from_seconds(5).0, "Player5");
    assert_eq!(PlayerNameSetting::from_seconds(1_000).0, "Player0");
    assert_eq!(PlayerNameSetting::from_seconds(1_042).0, "Player42");
}

#[test]
fn decimal_digits() {
    let mut s = String::from("n=");
    push_decimal(&mut s, u64::MAX);
    assert_eq!(s, format!("n={}", u64::MAX));
    let mut z = String::new();
    push_decimal(&mut z, 0);
    assert_eq!(z, "0");
}

#[test]
fn seed_from_clock() {
    assert_eq!(TerrainGenerationSeed::from_seconds(1_700_000_000).0, 1_700_000_000);
    assert_eq!(TerrainGenerationSeed::from_seconds((1u64 << 32) + 7).0, 7);
}
