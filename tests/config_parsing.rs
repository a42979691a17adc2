use knobify::config::{
    get_volume_down_key, get_volume_increment, get_volume_up_key, parse_key, Config,
    DEFAULT_DOWN_KEY, DEFAULT_INCREMENT, DEFAULT_UP_KEY,
};

#[test]
fn hex_and_decimal_keys_agree() {
    assert_eq!(parse_key("0x82"), Some(130));
    assert_eq!(parse_key("130"), Some(130));
    assert_eq!(parse_key("0x82"), parse_key("130"));
}

#[test]
fn hex_key_and_missing_default() {
    assert_eq!(get_volume_up_key(Some("0x90")), 0x90);
    assert_eq!(get_volume_down_key(None), 0x81);
}

#[test]
fn missing_keys_use_defaults() {
    assert_eq!(get_volume_up_key(None), DEFAULT_UP_KEY);
    assert_eq!(get_volume_up_key(None), 0x82);
    assert_eq!(get_volume_down_key(None), DEFAULT_DOWN_KEY);
}

#[test]
fn malformed_keys_use_defaults() {
    assert_eq!(get_volume_up_key(Some("")), 0x82);
    assert_eq!(get_volume_up_key(Some("0x")), 0x82);
    assert_eq!(get_volume_up_key(Some("+13")), 13);
    assert_eq!(get_volume_up_key(Some("12a")), 0x82);
    assert_eq!(get_volume_down_key(Some("0xZZ")), 0x81);
    assert_eq!(get_volume_down_key(Some(" 130")), 0x81);
    assert_eq!(get_volume_down_key(Some("-1")), 0x81);
}

#[test]
fn key_parsing_edges() {
    assert_eq!(parse_key("0xff"), Some(255));
    assert_eq!(parse_key("0xFF"), Some(255));
    assert_eq!(parse_key("0"), Some(0));
    assert_eq!(parse_key("4294967295"), Some(u32::MAX));
    assert_eq!(parse_key("0xffffffff"), Some(u32::MAX));
    assert_eq!(parse_key("4294967296"), None);
    assert_eq!(parse_key("0x100000000"), None);
    assert_eq!(parse_key("ff"), None);
    assert_eq!(parse_key("0x0x82"), None);
    assert_eq!(parse_key("+13"), Some(13));
    assert_eq!(parse_key("0x+ff"), Some(255));
    assert_eq!(parse_key("+"), None);
    assert_eq!(parse_key("++1"), None);
    assert_eq!(parse_key("0x+"), None);
}

#[test]
fn increment_parsing_and_clamp() {
    assert_eq!(get_volume_increment(None), DEFAULT_INCREMENT);
    assert_eq!(get_volume_increment(None), 5);
    assert_eq!(get_volume_increment(Some("7")), 7);
    assert_eq!(get_volume_increment(Some("100")), 100);
    assert_eq!(get_volume_increment(Some("0")), 1);
    assert_eq!(get_volume_increment(Some("250")), 100);
    assert_eq!(get_volume_increment(Some("255")), 100);
    assert_eq!(get_volume_increment(Some("256")), 5);
    assert_eq!(get_volume_increment(Some("300")), 5);
    assert_eq!(get_volume_increment(Some("99999999999999999999")), 5);
    assert_eq!(get_volume_increment(Some("+7")), 7);
    assert_eq!(get_volume_increment(Some("+")), 5);
    assert_eq!(get_volume_increment(Some("-7")), 5);
    assert_eq!(get_volume_increment(Some("abc")), 5);
    assert_eq!(get_volume_increment(Some("")), 5);
    assert_eq!(get_volume_increment(Some("0x10")), 5);
}

#[test]
fn config_from_vars() {
    let c = Config::from_vars(Some("0x90"), None, Some("10"));
    assert_eq!(c, Config { up_key: 0x90, down_key: 0x81, increment: 10 });
}

#[test]
fn decimal_and_hex_spellings_round_trip() {
    for n in [0u32, 1, 9, 10, 15, 16, 0x81, 0x82, 255, 256, 65535, 1_000_000, u32::MAX - 1, u32::MAX] {
        assert_eq!(parse_key(&format!("{}", n)), Some(n));
        assert_eq!(parse_key(&format!("0x{:x}", n)), Some(n));
        assert_eq!(parse_key(&format!("0x{:X}", n)), Some(n));
    }
}
