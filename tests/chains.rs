use rustlink::chains::{arbitrum_contracts, ethereum_contracts, Chain};

#[test]
fn valid_networks() {
    assert!(Chain::new(1, None).rpc_url().contains("https://"));
    assert!(Chain::new(42161, None).rpc_url().contains("https://"));
}

#[test]
fn fallback_url_depends_on_network() {
    assert_eq!(Chain::new(1, None).rpc_url(), "https://1rpc.io/eth");
    assert_eq!(Chain::new(42161, None).rpc_url(), "https://1rpc.io/arb");
}

#[test]
fn custom_rpc_url_is_kept() {
    let chain = Chain::new(42161, Some("https://arb1.example.org/rpc"));
    assert_eq!(chain.rpc_url(), "https://arb1.example.org/rpc");
}

#[test]
fn preset_books_list_btc_and_eth() {
    let book = ethereum_contracts();
    assert_eq!(book.len(), 2);
    assert_eq!(
        book.get("BTC").map(|a| a.as_str()),
        Some("0xabcd1234efgh5678ijkl9012mnop3456qrst7890")
    );
    assert_eq!(
        book.get("ETH").map(|a| a.as_str()),
        Some("0x1234abcd5678efgh9012ijkl3456mnop7890qrst")
    );
    assert_eq!(book.get("DOGE"), None);
    assert_eq!(arbitrum_contracts().len(), 2);
}

#[test]
fn chain_exposes_its_book() {
    let chain = Chain::new(1, None);
    assert_eq!(
        chain.contracts().get("ETH").map(|a| a.as_str()),
        Some("0x1234abcd5678efgh9012ijkl3456mnop7890qrst")
    );
    assert_eq!(chain.contracts().get("eth"), None);
}
