use cognitrade::coingecko::{
    id_for_uppercase_symbol, is_transient, price_request_url, price_step, symbol_to_id,
    PriceAttempt, PriceStep,
};
use cognitrade::error::AppError;

#[test]
fn symbol_normalization() {
    assert_eq!(symbol_to_id("btc"), Some("bitcoin"));
    assert_eq!(symbol_to_id("BTCUSDT"), Some("bitcoin"));
    assert_eq!(symbol_to_id("ETHUSDC"), Some("ethereum"));
    assert_eq!(symbol_to_id("XYZ"), None);
}

#[test]
fn new_symbols_resolve() {
    assert_eq!(symbol_to_id("TRX"), Some("tron"));
    assert_eq!(symbol_to_id("TON"), Some("the-open-network"));
    assert_eq!(symbol_to_id("SHIB"), Some("shiba-inu"));
    assert_eq!(symbol_to_id("BCH"), Some("bitcoin-cash"));
    assert_eq!(symbol_to_id("NEAR"), Some("near"));
    assert_eq!(symbol_to_id("UNI"), Some("uniswap"));
    assert_eq!(symbol_to_id("APT"), Some("aptos"));
    assert_eq!(symbol_to_id("ICP"), Some("internet-computer"));
    assert_eq!(symbol_to_id("ETC"), Some("ethereum-classic"));
    assert_eq!(symbol_to_id("XLM"), Some("stellar"));
    assert_eq!(symbol_to_id("ATOM"), Some("cosmos"));
    assert_eq!(symbol_to_id("XMR"), Some("monero"));
    assert_eq!(symbol_to_id("PEPE"), Some("pepe"));
    assert_eq!(symbol_to_id("WIF"), Some("dogwifcoin"));
    assert_eq!(symbol_to_id("RENDER"), Some("render-token"));
}

#[test]
fn suffix_combos_lowercase_and_mixed() {
    assert_eq!(symbol_to_id("ARBUSDT"), Some("arbitrum"));
    assert_eq!(symbol_to_id("OPUSDT"), Some("optimism"));
    assert_eq!(symbol_to_id("SUIUSD"), Some("sui"));
    assert_eq!(symbol_to_id("ATOMUSD"), Some("cosmos"));
    assert_eq!(symbol_to_id("INJUSDC"), Some("injective-protocol"));
    assert_eq!(symbol_to_id("AAVEUSDC"), Some("aave"));
    assert_eq!(symbol_to_id("pepeusdt"), Some("pepe"));
    assert_eq!(symbol_to_id("SeiUsd"), Some("sei-network"));
    assert_eq!(symbol_to_id("hbarusdc"), Some("hedera-hashgraph"));
}

#[test]
fn render_alias() {
    assert_eq!(symbol_to_id("RNDR"), Some("render-token"));
    assert_eq!(symbol_to_id("RENDER"), Some("render-token"));
}

#[test]
fn still_unknown_returns_none() {
    assert_eq!(symbol_to_id("NOTACOIN"), None);
    assert_eq!(symbol_to_id("FOOUSDT"), None);
}

#[test]
fn every_table_entry_resolves_with_each_quote() {
    let table = [
        ("BTC", "bitcoin"), ("ETH", "ethereum"), ("SOL", "solana"), ("BNB", "binancecoin"),
        ("XRP", "ripple"), ("ADA", "cardano"), ("DOGE", "dogecoin"), ("AVAX", "avalanche-2"),
        ("MATIC", "matic-network"), ("LINK", "chainlink"), ("DOT", "polkadot"), ("LTC", "litecoin"),
        ("FIL", "filecoin"), ("VET", "vechain"), ("ALGO", "algorand"), ("MKR", "maker"),
        ("IMX", "immutable-x"), ("GRT", "the-graph"), ("STX", "blockstack"), ("FTM", "fantom"),
        ("RUNE", "thorchain"), ("TIA", "celestia"), ("FLOW", "flow"), ("EGLD", "elrond-erd-2"),
        ("SAND", "the-sandbox"), ("MANA", "decentraland"), ("AXS", "axie-infinity"),
        ("THETA", "theta-token"), ("EOS", "eos"), ("XTZ", "tezos"), ("CHZ", "chiliz"),
        ("GALA", "gala"), ("CRV", "curve-dao-token"), ("LDO", "lido-dao"), ("SNX", "havven"),
        ("COMP", "compound-governance-token"), ("DYDX", "dydx-chain"), ("FET", "fetch-ai"),
        ("JUP", "jupiter-exchange-solana"), ("ENA", "ethena"), ("ORDI", "ordinals"),
        ("BONK", "bonk"), ("FLOKI", "floki"), ("KAS", "kaspa"), ("QNT", "quant-network"),
        ("GMX", "gmx"), ("1INCH", "1inch"), ("ENS", "ethereum-name-service"), ("ZEC", "zcash"),
        ("DASH", "dash"),
    ];
    for (base, id) in table {
        for quote in ["", "USDT", "USD", "USDC", "usdt"] {
            let symbol = format!("{}{}", base.to_lowercase(), quote);
            assert_eq!(symbol_to_id(&symbol), Some(id), "{}", symbol);
        }
    }
}

#[test]
fn repeated_quote_suffixes_are_all_removed() {
    assert_eq!(symbol_to_id("BTCUSDTUSDT"), Some("bitcoin"));
    assert_eq!(symbol_to_id("ETHUSDUSDC"), None);
    assert_eq!(symbol_to_id("ETHUSDCUSD"), Some("ethereum"));
    assert_eq!(symbol_to_id("USDT"), None);
    assert_eq!(symbol_to_id(""), None);
}

#[test]
fn uppercase_lookup_does_not_uppercase() {
    assert_eq!(id_for_uppercase_symbol("SOLUSDT"), Some("solana"));
    assert_eq!(id_for_uppercase_symbol("solusdt"), None);
}

#[test]
fn price_url_for_known_symbol() {
    assert_eq!(
        price_request_url("ethusdt").unwrap(),
        "https://api.coingecko.com/api/v3/simple/price?ids=ethereum&vs_currencies=usd"
    );
}

#[test]
fn price_url_refuses_unknown_symbol() {
    assert_eq!(
        price_request_url("FOO"),
        Err(AppError::Invalid("unknown symbol for CoinGecko: FOO".to_string()))
    );
}

#[test]
fn transient_failures() {
    assert!(is_transient(true, false, false, None));
    assert!(is_transient(false, true, false, None));
    assert!(is_transient(false, false, true, None));
    assert!(is_transient(false, false, false, Some(503)));
    assert!(is_transient(false, false, false, Some(500)));
    assert!(!is_transient(false, false, false, Some(404)));
    assert!(!is_transient(false, false, false, Some(600)));
    assert!(!is_transient(false, false, false, None));
}

#[test]
fn retry_once_on_server_error() {
    assert_eq!(price_step(0, PriceAttempt::Responded(200)), PriceStep::ReadBody);
    assert_eq!(price_step(0, PriceAttempt::Responded(502)), PriceStep::Retry);
    assert_eq!(price_step(1, PriceAttempt::Responded(502)), PriceStep::FailStatus(502));
    assert_eq!(price_step(0, PriceAttempt::Responded(404)), PriceStep::FailStatus(404));
    assert_eq!(price_step(0, PriceAttempt::SendFailed { transient: true }), PriceStep::Retry);
    assert_eq!(price_step(1, PriceAttempt::SendFailed { transient: true }), PriceStep::FailSend);
    assert_eq!(price_step(0, PriceAttempt::SendFailed { transient: false }), PriceStep::FailSend);
    assert_eq!(price_step(1, PriceAttempt::Responded(204)), PriceStep::ReadBody);
}
