use bitcoin_alerts::config::{check_node, Chain, NodeCheck};
use bitcoin_alerts::util::bytes_to_u128;

#[test]
fn chain_from_config_names() {
    assert_eq!(Chain::from_config(None), Some(Chain::Bitcoin));
    assert_eq!(Chain::from_config(Some("bitcoin")), Some(Chain::Bitcoin));
    assert_eq!(Chain::from_config(Some("testnet")), Some(Chain::Testnet));
    assert_eq!(Chain::from_config(Some("testnet4")), Some(Chain::Testnet4));
    assert_eq!(Chain::from_config(Some("signet")), Some(Chain::Signet));
    assert_eq!(Chain::from_config(Some("regtest")), Some(Chain::Regtest));
    assert_eq!(Chain::from_config(Some("mainnet")), None);
    assert_eq!(Chain::from_config(Some("Bitcoin")), None);
}

#[test]
fn chain_defaults() {
    assert_eq!(Chain::Bitcoin.default_rpc_port(), 8332);
    assert_eq!(Chain::Testnet.default_rpc_port(), 18332);
    assert_eq!(Chain::Signet.default_rpc_port(), 38332);
    assert_eq!(Chain::Regtest.default_rpc_port(), 18443);
    assert_eq!(Chain::Testnet4.default_rpc_port(), 18443);
    assert_eq!(Chain::Bitcoin.folder(), "bitcoin");
    assert_eq!(Chain::Testnet4.folder(), "regtest");
    assert!(Chain::Regtest.announces_every_block());
    assert!(!Chain::Bitcoin.announces_every_block());
}

#[test]
fn node_check() {
    assert_eq!(check_node(219_999, true, 10, 10), NodeCheck::VersionTooOld);
    assert_eq!(check_node(220_000, false, 10, 10), NodeCheck::NetworkInactive);
    assert_eq!(check_node(270_000, true, 10, 10), NodeCheck::Ready);
    assert_eq!(check_node(270_000, true, 15, 10), NodeCheck::Syncing { left: 5 });
    assert_eq!(check_node(270_000, true, 9, 10), NodeCheck::Ready);
}

#[test]
fn u128_text() {
    assert_eq!(
        bytes_to_u128(&b"700000000000000000000".to_vec()),
        Some(700_000_000_000_000_000_000)
    );
    assert_eq!(bytes_to_u128(&b"340282366920938463463374607431768211455".to_vec()), Some(u128::MAX));
    assert_eq!(bytes_to_u128(&b"340282366920938463463374607431768211456".to_vec()), None);
    assert_eq!(bytes_to_u128(&b"1.5".to_vec()), None);
}
