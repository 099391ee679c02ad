//! Mapping exchange tickers to CoinGecko coin ids, and the decisions of the
//! price lookup (its URL and its single retry).

use vstd::prelude::*;
use crate::error::{concat, AppError};
use crate::text::{
    ascii_lower, ascii_upper, ends_with, is_ascii, lemma_ascii_upper, lemma_upper_of_lower, range_eq_str,
    str_to_chars, str_to_uppercase, to_uppercase, trim_end_matches, trim_end_matches_len,
};

verus! {

/// The CoinGecko API root.
pub const BASE: &'static str = "https://api.coingecko.com/api/v3";

/// The id CoinGecko gives the coin with the uppercase ticker `t`, if known.
pub open spec fn coin_id(t: Seq<char>) -> Option<Seq<char>> {
    if t == "BTC"@ {
        Some("bitcoin"@)
    } else if t == "ETH"@ {
        Some("ethereum"@)
    } else if t == "SOL"@ {
        Some("solana"@)
    } else if t == "BNB"@ {
        Some("binancecoin"@)
    } else if t == "XRP"@ {
        Some("ripple"@)
    } else if t == "ADA"@ {
        Some("cardano"@)
    } else if t == "DOGE"@ {
        Some("dogecoin"@)
    } else if t == "AVAX"@ {
        Some("avalanche-2"@)
    } else if t == "MATIC"@ {
        Some("matic-network"@)
    } else if t == "LINK"@ {
        Some("chainlink"@)
    } else if t == "DOT"@ {
        Some("polkadot"@)
    } else if t == "LTC"@ {
        Some("litecoin"@)
    } else if t == "TRX"@ {
        Some("tron"@)
    } else if t == "TON"@ {
        Some("the-open-network"@)
    } else if t == "SHIB"@ {
        Some("shiba-inu"@)
    } else if t == "BCH"@ {
        Some("bitcoin-cash"@)
    } else if t == "NEAR"@ {
        Some("near"@)
    } else if t == "UNI"@ {
        Some("uniswap"@)
    } else if t == "APT"@ {
        Some("aptos"@)
    } else if t == "ICP"@ {
        Some("internet-computer"@)
    } else if t == "ETC"@ {
        Some("ethereum-classic"@)
    } else if t == "XLM"@ {
        Some("stellar"@)
    } else if t == "FIL"@ {
        Some("filecoin"@)
    } else if t == "ARB"@ {
        Some("arbitrum"@)
    } else if t == "OP"@ {
        Some("optimism"@)
    } else if t == "INJ"@ {
        Some("injective-protocol"@)
    } else if t == "SUI"@ {
        Some("sui"@)
    } else if t == "SEI"@ {
        Some("sei-network"@)
    } else if t == "ATOM"@ {
        Some("cosmos"@)
    } else if t == "XMR"@ {
        Some("monero"@)
    } else if t == "HBAR"@ {
        Some("hedera-hashgraph"@)
    } else if t == "VET"@ {
        Some("vechain"@)
    } else if t == "ALGO"@ {
        Some("algorand"@)
    } else if t == "AAVE"@ {
        Some("aave"@)
    } else if t == "MKR"@ {
        Some("maker"@)
    } else if t == "RENDER"@ {
        Some("render-token"@)
    } else if t == "RNDR"@ {
        Some("render-token"@)
    } else if t == "IMX"@ {
        Some("immutable-x"@)
    } else if t == "GRT"@ {
        Some("the-graph"@)
    } else if t == "STX"@ {
        Some("blockstack"@)
    } else if t == "FTM"@ {
        Some("fantom"@)
    } else if t == "RUNE"@ {
        Some("thorchain"@)
    } else if t == "PEPE"@ {
        Some("pepe"@)
    } else if t == "WIF"@ {
        Some("dogwifcoin"@)
    } else if t == "TIA"@ {
        Some("celestia"@)
    } else if t == "FLOW"@ {
        Some("flow"@)
    } else if t == "EGLD"@ {
        Some("elrond-erd-2"@)
    } else if t == "SAND"@ {
        Some("the-sandbox"@)
    } else if t == "MANA"@ {
        Some("decentraland"@)
    } else if t == "AXS"@ {
        Some("axie-infinity"@)
    } else if t == "THETA"@ {
        Some("theta-token"@)
    } else if t == "EOS"@ {
        Some("eos"@)
    } else if t == "XTZ"@ {
        Some("tezos"@)
    } else if t == "CHZ"@ {
        Some("chiliz"@)
    } else if t == "GALA"@ {
        Some("gala"@)
    } else if t == "CRV"@ {
        Some("curve-dao-token"@)
    } else if t == "LDO"@ {
        Some("lido-dao"@)
    } else if t == "SNX"@ {
        Some("havven"@)
    } else if t == "COMP"@ {
        Some("compound-governance-token"@)
    } else if t == "DYDX"@ {
        Some("dydx-chain"@)
    } else if t == "FET"@ {
        Some("fetch-ai"@)
    } else if t == "JUP"@ {
        Some("jupiter-exchange-solana"@)
    } else if t == "ENA"@ {
        Some("ethena"@)
    } else if t == "ORDI"@ {
        Some("ordinals"@)
    } else if t == "BONK"@ {
        Some("bonk"@)
    } else if t == "FLOKI"@ {
        Some("floki"@)
    } else if t == "KAS"@ {
        Some("kaspa"@)
    } else if t == "QNT"@ {
        Some("quant-network"@)
    } else if t == "GMX"@ {
        Some("gmx"@)
    } else if t == "1INCH"@ {
        Some("1inch"@)
    } else if t == "ENS"@ {
        Some("ethereum-name-service"@)
    } else if t == "ZEC"@ {
        Some("zcash"@)
    } else if t == "DASH"@ {
        Some("dash"@)
    } else {
        None
    }
}

/// An uppercase symbol with any trailing `USDT`, then `USD`, then `USDC`
/// quote suffixes removed.
pub open spec fn base_ticker(s: Seq<char>) -> Seq<char> {
    trim_end_matches(trim_end_matches(trim_end_matches(s, "USDT"@), "USD"@), "USDC"@)
}

/// The view of an optional string.
pub open spec fn opt_str_view(o: Option<&str>) -> Option<Seq<char>> {
    match o {
        Some(s) => Some(s@),
        None => None,
    }
}

/// The CoinGecko id of the coin named by `chars[..end]`, an uppercase ticker.
fn coin_id_of(s: &[char], end: usize) -> (r: Option<&'static str>)
    requires
        end <= s@.len(),
    ensures
        opt_str_view(r) == coin_id(s@.subrange(0, end as int)),
{
    if range_eq_str(s, 0, end, "BTC") {
        return Some("bitcoin");
    }
    if range_eq_str(s, 0, end, "ETH") {
        return Some("ethereum");
    }
    if range_eq_str(s, 0, end, "SOL") {
        return Some("solana");
    }
    if range_eq_str(s, 0, end, "BNB") {
        return Some("binancecoin");
    }
    if range_eq_str(s, 0, end, "XRP") {
        return Some("ripple");
    }
    if range_eq_str(s, 0, end, "ADA") {
        return Some("cardano");
    }
    if range_eq_str(s, 0, end, "DOGE") {
        return Some("dogecoin");
    }
    if range_eq_str(s, 0, end, "AVAX") {
        return Some("avalanche-2");
    }
    if range_eq_str(s, 0, end, "MATIC") {
        return Some("matic-network");
    }
    if range_eq_str(s, 0, end, "LINK") {
        return Some("chainlink");
    }
    if range_eq_str(s, 0, end, "DOT") {
        return Some("polkadot");
    }
    if range_eq_str(s, 0, end, "LTC") {
        return Some("litecoin");
    }
    if range_eq_str(s, 0, end, "TRX") {
        return Some("tron");
    }
    if range_eq_str(s, 0, end, "TON") {
        return Some("the-open-network");
    }
    if range_eq_str(s, 0, end, "SHIB") {
        return Some("shiba-inu");
    }
    if range_eq_str(s, 0, end, "BCH") {
        return Some("bitcoin-cash");
    }
    if range_eq_str(s, 0, end, "NEAR") {
        return Some("near");
    }
    if range_eq_str(s, 0, end, "UNI") {
        return Some("uniswap");
    }
    if range_eq_str(s, 0, end, "APT") {
        return Some("aptos");
    }
    if range_eq_str(s, 0, end, "ICP") {
        return Some("internet-computer");
    }
    if range_eq_str(s, 0, end, "ETC") {
        return Some("ethereum-classic");
    }
    if range_eq_str(s, 0, end, "XLM") {
        return Some("stellar");
    }
    if range_eq_str(s, 0, end, "FIL") {
        return Some("filecoin");
    }
    if range_eq_str(s, 0, end, "ARB") {
        return Some("arbitrum");
    }
    if range_eq_str(s, 0, end, "OP") {
        return Some("optimism");
    }
    if range_eq_str(s, 0, end, "INJ") {
        return Some("injective-protocol");
    }
    if range_eq_str(s, 0, end, "SUI") {
        return Some("sui");
    }
    if range_eq_str(s, 0, end, "SEI") {
        return Some("sei-network");
    }
    if range_eq_str(s, 0, end, "ATOM") {
        return Some("cosmos");
    }
    if range_eq_str(s, 0, end, "XMR") {
        return Some("monero");
    }
    if range_eq_str(s, 0, end, "HBAR") {
        return Some("hedera-hashgraph");
    }
    if range_eq_str(s, 0, end, "VET") {
        return Some("vechain");
    }
    if range_eq_str(s, 0, end, "ALGO") {
        return Some("algorand");
    }
    if range_eq_str(s, 0, end, "AAVE") {
        return Some("aave");
    }
    if range_eq_str(s, 0, end, "MKR") {
        return Some("maker");
    }
    if range_eq_str(s, 0, end, "RENDER") {
        return Some("render-token");
    }
    if range_eq_str(s, 0, end, "RNDR") {
        return Some("render-token");
    }
    if range_eq_str(s, 0, end, "IMX") {
        return Some("immutable-x");
    }
    if range_eq_str(s, 0, end, "GRT") {
        return Some("the-graph");
    }
    if range_eq_str(s, 0, end, "STX") {
        return Some("blockstack");
    }
    if range_eq_str(s, 0, end, "FTM") {
        return Some("fantom");
    }
    if range_eq_str(s, 0, end, "RUNE") {
        return Some("thorchain");
    }
    if range_eq_str(s, 0, end, "PEPE") {
        return Some("pepe");
    }
    if range_eq_str(s, 0, end, "WIF") {
        return Some("dogwifcoin");
    }
    if range_eq_str(s, 0, end, "TIA") {
        return Some("celestia");
    }
    if range_eq_str(s, 0, end, "FLOW") {
        return Some("flow");
    }
    if range_eq_str(s, 0, end, "EGLD") {
        return Some("elrond-erd-2");
    }
    if range_eq_str(s, 0, end, "SAND") {
        return Some("the-sandbox");
    }
    if range_eq_str(s, 0, end, "MANA") {
        return Some("decentraland");
    }
    if range_eq_str(s, 0, end, "AXS") {
        return Some("axie-infinity");
    }
    if range_eq_str(s, 0, end, "THETA") {
        return Some("theta-token");
    }
    if range_eq_str(s, 0, end, "EOS") {
        return Some("eos");
    }
    if range_eq_str(s, 0, end, "XTZ") {
        return Some("tezos");
    }
    if range_eq_str(s, 0, end, "CHZ") {
        return Some("chiliz");
    }
    if range_eq_str(s, 0, end, "GALA") {
        return Some("gala");
    }
    if range_eq_str(s, 0, end, "CRV") {
        return Some("curve-dao-token");
    }
    if range_eq_str(s, 0, end, "LDO") {
        return Some("lido-dao");
    }
    if range_eq_str(s, 0, end, "SNX") {
        return Some("havven");
    }
    if range_eq_str(s, 0, end, "COMP") {
        return Some("compound-governance-token");
    }
    if range_eq_str(s, 0, end, "DYDX") {
        return Some("dydx-chain");
    }
    if range_eq_str(s, 0, end, "FET") {
        return Some("fetch-ai");
    }
    if range_eq_str(s, 0, end, "JUP") {
        return Some("jupiter-exchange-solana");
    }
    if range_eq_str(s, 0, end, "ENA") {
        return Some("ethena");
    }
    if range_eq_str(s, 0, end, "ORDI") {
        return Some("ordinals");
    }
    if range_eq_str(s, 0, end, "BONK") {
        return Some("bonk");
    }
    if range_eq_str(s, 0, end, "FLOKI") {
        return Some("floki");
    }
    if range_eq_str(s, 0, end, "KAS") {
        return Some("kaspa");
    }
    if range_eq_str(s, 0, end, "QNT") {
        return Some("quant-network");
    }
    if range_eq_str(s, 0, end, "GMX") {
        return Some("gmx");
    }
    if range_eq_str(s, 0, end, "1INCH") {
        return Some("1inch");
    }
    if range_eq_str(s, 0, end, "ENS") {
        return Some("ethereum-name-service");
    }
    if range_eq_str(s, 0, end, "ZEC") {
        return Some("zcash");
    }
    if range_eq_str(s, 0, end, "DASH") {
        return Some("dash");
    }
    None
}

/// The CoinGecko id for an already uppercased symbol such as `BTCUSDT`.
pub fn id_for_uppercase_symbol(upper: &str) -> (r: Option<&'static str>)
    ensures
        opt_str_view(r) == coin_id(base_ticker(upper@)),
{
    let chars = str_to_chars(upper);
    let e1 = trim_end_matches_len(chars.as_slice(), chars.len(), "USDT");
    let e2 = trim_end_matches_len(chars.as_slice(), e1, "USD");
    let e3 = trim_end_matches_len(chars.as_slice(), e2, "USDC");
    proof {
        assert(chars@.subrange(0, chars@.len() as int) =~= chars@);
    }
    coin_id_of(chars.as_slice(), e3)
}

/// Map a common ticker (`BTC`, `eth`, `BTCUSDT`, ...) to its CoinGecko id:
/// the symbol is uppercased and its quote suffixes removed.
pub fn symbol_to_id(symbol: &str) -> (r: Option<&'static str>)
    ensures
        opt_str_view(r) == coin_id(base_ticker(str_to_uppercase(symbol@))),
        is_ascii(symbol@) ==> opt_str_view(r) == coin_id(base_ticker(ascii_upper(symbol@))),
{
    let upper = to_uppercase(symbol);
    id_for_uppercase_symbol(upper.as_str())
}


proof fn lemma_trim_absent(s: Seq<char>, p: Seq<char>)
    requires
        !ends_with(s, p),
    ensures
        trim_end_matches(s, p) == s,
{
}

proof fn lemma_trim_once(s: Seq<char>, p: Seq<char>)
    requires
        p.len() > 0,
        !ends_with(s, p),
    ensures
        trim_end_matches(s + p, p) == s,
{
    let t = s + p;
    assert(t.subrange(t.len() - p.len(), t.len() as int) =~= p);
    assert(t.subrange(0, t.len() - p.len()) =~= s);
    assert(ends_with(t, p));
    assert(trim_end_matches(t, p) == trim_end_matches(t.subrange(0, t.len() - p.len()), p));
    lemma_trim_absent(s, p);
}

proof fn lemma_not_ends_with_last(s: Seq<char>, p: Seq<char>)
    requires
        p.len() > 0,
        s.len() > 0,
        s.last() != p.last(),
    ensures
        !ends_with(s, p),
{
    if ends_with(s, p) {
        assert(s.subrange(s.len() - p.len(), s.len() as int)[p.len() - 1] == s.last());
    }
}

/// Appending a quote currency (`USDT`, `USD` or `USDC`) to an uppercase
/// ticker that does not itself end in one leaves the ticker, and so its
/// CoinGecko id, unchanged.
pub proof fn lemma_quote_suffix_ignored(base: Seq<char>, quote: Seq<char>)
    requires
        !ends_with(base, "USDT"@),
        !ends_with(base, "USD"@),
        !ends_with(base, "USDC"@),
        quote == "USDT"@ || quote == "USD"@ || quote == "USDC"@ || quote.len() == 0,
    ensures
        base_ticker(base + quote) == base,
        coin_id(base_ticker(base + quote)) == coin_id(base),
{
    reveal_strlit("USDT");
    reveal_strlit("USD");
    reveal_strlit("USDC");
    let t = base + quote;
    if quote.len() == 0 {
        assert(t =~= base);
    } else if quote == "USDT"@ {
        lemma_trim_once(base, quote);
    } else if quote == "USD"@ {
        lemma_not_ends_with_last(t, "USDT"@);
        lemma_trim_once(base, quote);
    } else {
        lemma_not_ends_with_last(t, "USDT"@);
        lemma_not_ends_with_last(t, "USD"@);
        lemma_trim_once(base, quote);
    }
}


/// Ticker lookup ignores ASCII case and a quote suffix. For an uppercase
/// ASCII ticker `t` that does not itself end in a quote currency: `t` written
/// in any mix of cases (`cased`), lowercase included, and followed by `USDT`,
/// `USD`, `USDC` or nothing, is ASCII and resolves as `t` does; and for any
/// ASCII symbol `s`, uppercasing it first does not change what it resolves to.
pub proof fn lemma_symbol_case_and_suffix(t: Seq<char>, cased: Seq<char>, quote: Seq<char>, s: Seq<char>)
    requires
        is_ascii(t),
        ascii_upper(t) == t,
        !ends_with(t, "USDT"@),
        !ends_with(t, "USD"@),
        !ends_with(t, "USDC"@),
        is_ascii(cased),
        ascii_upper(cased) == t,
        quote == "USDT"@ || quote == "USD"@ || quote == "USDC"@ || quote.len() == 0,
        is_ascii(s),
    ensures
        is_ascii(cased + quote),
        coin_id(base_ticker(ascii_upper(cased + quote))) == coin_id(t),
        is_ascii(ascii_lower(t)),
        ascii_upper(ascii_lower(t)) == t,
        is_ascii(ascii_upper(s)),
        coin_id(base_ticker(ascii_upper(ascii_upper(s)))) == coin_id(base_ticker(ascii_upper(s))),
{
    reveal_strlit("USDT");
    reveal_strlit("USD");
    reveal_strlit("USDC");
    assert(ascii_upper(quote) =~= quote);
    assert(is_ascii(quote));
    assert(is_ascii(cased + quote)) by {
        assert forall|i: int| 0 <= i < (cased + quote).len() implies crate::text::is_ascii_char(
            #[trigger] (cased + quote)[i],
        ) by {
            if i < cased.len() {
                assert((cased + quote)[i] == cased[i]);
            } else {
                assert((cased + quote)[i] == quote[i - cased.len()]);
            }
        }
    }
    lemma_ascii_upper(cased, quote);
    lemma_quote_suffix_ignored(t, quote);
    lemma_upper_of_lower(t);
    assert(is_ascii(ascii_lower(t))) by {
        assert forall|i: int| 0 <= i < ascii_lower(t).len() implies crate::text::is_ascii_char(
            #[trigger] ascii_lower(t)[i],
        ) by {
            assert(crate::text::is_ascii_char(t[i]));
        }
    }
    lemma_ascii_upper(s, Seq::empty());
}

/// The price query for the coin with CoinGecko id `id`.
pub open spec fn price_url_spec(id: Seq<char>) -> Seq<char> {
    BASE@ + "/simple/price?ids="@ + id + "&vs_currencies=usd"@
}

/// The URL of the USD price of `symbol`, or `Invalid` when the symbol has no
/// known CoinGecko id.
pub fn price_request_url(symbol: &str) -> (r: Result<String, AppError>)
    ensures
        match coin_id(base_ticker(str_to_uppercase(symbol@))) {
            Some(id) => r matches Ok(url) && url@ == price_url_spec(id),
            None => r matches Err(AppError::Invalid(m)) && m@ == "unknown symbol for CoinGecko: "@
                + symbol@,
        },
{
    match symbol_to_id(symbol) {
        Some(id) => {
            let mut url = concat(BASE, "/simple/price?ids=");
            url.append(id);
            url.append("&vs_currencies=usd");
            Ok(url)
        },
        None => Err(AppError::Invalid(concat("unknown symbol for CoinGecko: ", symbol))),
    }
}

/// A transport failure is worth one retry when it timed out, failed to
/// connect or to send, or came back with a 5xx status.
pub open spec fn is_transient_spec(is_timeout: bool, is_connect: bool, is_request: bool, status: Option<u16>) -> bool {
    is_timeout || is_connect || is_request || (status matches Some(code) && 500 <= code <= 599)
}

/// Whether a failed request is worth retrying once, from what the HTTP client
/// reports of the failure.
pub fn is_transient(is_timeout: bool, is_connect: bool, is_request: bool, status: Option<u16>) -> (b: bool)
    ensures
        b == is_transient_spec(is_timeout, is_connect, is_request, status),
{
    if is_timeout || is_connect || is_request {
        return true;
    }
    match status {
        Some(code) => 500 <= code && code <= 599,
        None => false,
    }
}

/// How one price request ended.
#[derive(Debug, Clone, Copy, PartialEq, Eq)]
pub enum PriceAttempt {
    /// A response came back with this HTTP status.
    Responded(u16),
    /// No response; `transient` tells whether the failure is worth a retry.
    SendFailed { transient: bool },
}

/// What to do after a price request.
#[derive(Debug, Clone, Copy, PartialEq, Eq)]
pub enum PriceStep {
    /// The status is a success: read the price from the body.
    ReadBody,
    /// Try the request once more.
    Retry,
    /// Give up with the HTTP status as the error.
    FailStatus(u16),
    /// Give up with the transport error.
    FailSend,
}

/// The step after attempt number `attempt` (counted from 0) ended with
/// `outcome`: a 2xx status is read; a 5xx status or a transient failure on
/// the first attempt is retried; anything else fails.
pub open spec fn price_step_spec(attempt: u32, outcome: PriceAttempt) -> PriceStep {
    match outcome {
        PriceAttempt::Responded(code) => if 200 <= code <= 299 {
            PriceStep::ReadBody
        } else if 500 <= code <= 599 && attempt == 0 {
            PriceStep::Retry
        } else {
            PriceStep::FailStatus(code)
        },
        PriceAttempt::SendFailed { transient } => if transient && attempt == 0 {
            PriceStep::Retry
        } else {
            PriceStep::FailSend
        },
    }
}

/// Decide what follows a price request.
pub fn price_step(attempt: u32, outcome: PriceAttempt) -> (s: PriceStep)
    ensures
        s == price_step_spec(attempt, outcome),
{
    match outcome {
        PriceAttempt::Responded(code) => {
            if 200 <= code && code <= 299 {
                PriceStep::ReadBody
            } else if 500 <= code && code <= 599 && attempt == 0 {
                PriceStep::Retry
            } else {
                PriceStep::FailStatus(code)
            }
        },
        PriceAttempt::SendFailed { transient } => {
            if transient && attempt == 0 {
                PriceStep::Retry
            } else {
                PriceStep::FailSend
            }
        },
    }
}

/// A price lookup is retried at most once: whatever the second attempt
/// (or any later one) brings, the lookup ends there.
pub proof fn lemma_at_most_one_retry(attempt: u32, outcome: PriceAttempt)
    requires
        attempt >= 1,
    ensures
        price_step_spec(attempt, outcome) != PriceStep::Retry,
{
}

/// What follows a price request: a 2xx answer is read; on the first attempt
/// every 5xx answer, and every transient transport failure, is retried, so the
/// first attempt is retried exactly when its failure is transient; any other
/// answer fails with its status, any other transport failure fails as such.
pub proof fn lemma_price_step_decisions(code: u16, transient: bool)
    ensures
        price_step_spec(0, PriceAttempt::Responded(code)) == PriceStep::Retry
            <==> is_transient_spec(false, false, false, Some(code)),
        500 <= code <= 599 ==> price_step_spec(0, PriceAttempt::Responded(code)) == PriceStep::Retry,
        200 <= code <= 299 ==> price_step_spec(0, PriceAttempt::Responded(code)) == PriceStep::ReadBody
            && price_step_spec(1, PriceAttempt::Responded(code)) == PriceStep::ReadBody,
        !(200 <= code <= 299) && !(500 <= code <= 599) ==> price_step_spec(
            0,
            PriceAttempt::Responded(code),
        ) == PriceStep::FailStatus(code),
        !(200 <= code <= 299) ==> price_step_spec(1, PriceAttempt::Responded(code))
            == PriceStep::FailStatus(code),
        price_step_spec(0, PriceAttempt::SendFailed { transient }) == PriceStep::Retry <==> transient,
        !transient ==> price_step_spec(0, PriceAttempt::SendFailed { transient }) == PriceStep::FailSend,
        price_step_spec(1, PriceAttempt::SendFailed { transient }) == PriceStep::FailSend,
        is_transient_spec(false, false, false, Some(code)) <==> 500 <= code <= 599,
{
}

} // verus!
