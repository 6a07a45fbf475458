use extrema_guard::ownership::{is_own_id, own_id_for, position_key};

const NOW: u64 = 1_750_000_000_000_000;

#[test]
fn own_ids_are_venue_legal_and_recognized() {
    let hl = own_id_for("hyperliquid", NOW, 7);
    assert!(hl.starts_with("0x"));
    assert_eq!(hl.len(), 2 + 32);
    assert!(hl[2..].chars().all(|c| c.is_ascii_hexdigit()));
    assert!(is_own_id("hyperliquid", &hl));

    let okx = own_id_for("okx", NOW, 7);
    assert!(okx.chars().all(|c| c.is_ascii_alphanumeric()));
    assert!(okx.len() <= 32);
    assert!(is_own_id("okx", &okx));

    let gate = own_id_for("gate_futures", NOW, 7);
    assert!(gate.starts_with("t-"));
    assert!(gate.len() <= 28);
    assert!(is_own_id("gate_futures", &gate));

    let binance = own_id_for("binance_um", NOW, 7);
    assert!(binance.len() <= 36);
    assert!(is_own_id("binance_um", &binance));
}

#[test]
fn foreign_ids_are_never_own() {
    assert!(!is_own_id(
        "hyperliquid",
        "0xdeadbeef00000000000000000000dead"
    ));
    assert!(!is_own_id("okx", "myalgo123"));
    assert!(!is_own_id("gate_futures", "t-web-abc"));
    assert!(!is_own_id("binance_um", "x-gateway-42"));
}

#[test]
fn own_ids_differ_by_time_and_counter() {
    for exchange in ["hyperliquid", "okx", "gate_futures", "binance_um"] {
        let a = own_id_for(exchange, NOW, 7);
        assert_ne!(a, own_id_for(exchange, NOW, 8));
        assert_ne!(a, own_id_for(exchange, NOW + 1, 7));
    }
}

#[test]
fn position_keys_are_distinct() {
    assert_ne!(position_key("okx", "A"), position_key("okx", "B"));
    assert_ne!(position_key("okx", "A"), position_key("binance_um", "A"));
}

#[test]
fn own_ids_are_prefix_time_and_counter() {
    assert_eq!(own_id_for("okx", 0x1f, 0xa), "guard1fa");
    assert_eq!(
        own_id_for("hyperliquid", 0x1f, 0x1_00_000a),
        "0x6775617264000000000000001f00000a"
    );
    assert_eq!(own_id_for("gate_futures", 0x1f, 0x10a), "t-guard1f0a");
    assert_eq!(own_id_for("binance_um", 0x1f, 0xa), "guard-1f-a");
    assert!(is_own_id("hyperliquid", "0X6775617264ABCDEF"));
    assert!(!is_own_id("okx", "GUARD1"));
    assert_eq!(position_key("okx", "BTC_USDT_PERP"), "okx:BTC_USDT_PERP");
}
