//! What a model call costs.
//!
//! Prices are whole cents per million tokens, so a cost is an exact whole
//! number of hundred-millionths of a US dollar.

use vstd::prelude::*;
use crate::text::{find_from, first_match_from, str_to_chars};

verus! {

/// A model's prices, in US cents per million tokens.
#[derive(Debug, Clone, Copy, PartialEq, Eq)]
pub struct ModelRates {
    pub input_per_mtok_cents: u32,
    pub cached_per_mtok_cents: u32,
    pub output_per_mtok_cents: u32,
}

/// `s` contains `p`.
pub open spec fn contains(s: Seq<char>, p: Seq<char>) -> bool {
    first_match_from(s, p, 0) is Some
}

/// The prices of the model named `model`: Opus when the name contains
/// `opus`, else Haiku when it contains `haiku`, else Sonnet.
pub open spec fn rates_spec(model: Seq<char>) -> ModelRates {
    if contains(model, "opus"@) {
        ModelRates { input_per_mtok_cents: 1500, cached_per_mtok_cents: 150, output_per_mtok_cents: 7500 }
    } else if contains(model, "haiku"@) {
        ModelRates { input_per_mtok_cents: 100, cached_per_mtok_cents: 10, output_per_mtok_cents: 500 }
    } else {
        ModelRates { input_per_mtok_cents: 300, cached_per_mtok_cents: 30, output_per_mtok_cents: 1500 }
    }
}

/// The prices of the model named `model`.
pub fn rates_for(model: &str) -> (r: ModelRates)
    ensures
        r == rates_spec(model@),
{
    let m = str_to_chars(model);
    let opus = str_to_chars("opus");
    let haiku = str_to_chars("haiku");
    if find_from(m.as_slice(), opus.as_slice(), 0).is_some() {
        ModelRates { input_per_mtok_cents: 1500, cached_per_mtok_cents: 150, output_per_mtok_cents: 7500 }
    } else if find_from(m.as_slice(), haiku.as_slice(), 0).is_some() {
        ModelRates { input_per_mtok_cents: 100, cached_per_mtok_cents: 10, output_per_mtok_cents: 500 }
    } else {
        ModelRates { input_per_mtok_cents: 300, cached_per_mtok_cents: 30, output_per_mtok_cents: 1500 }
    }
}

/// The cost of a call, in hundred-millionths of a US dollar (one token at
/// one cent per million tokens).
pub open spec fn cost_spec(rates: ModelRates, input: u64, cached: u64, output: u64) -> int {
    input * rates.input_per_mtok_cents + cached * rates.cached_per_mtok_cents + output
        * rates.output_per_mtok_cents
}

/// Costs add up: the cost of two calls together is the sum of their costs,
/// so a day's total is the same however its calls are grouped.
pub proof fn lemma_cost_additive(
    rates: ModelRates,
    input_a: u64,
    cached_a: u64,
    output_a: u64,
    input_b: u64,
    cached_b: u64,
    output_b: u64,
)
    requires
        input_a + input_b <= u64::MAX,
        cached_a + cached_b <= u64::MAX,
        output_a + output_b <= u64::MAX,
    ensures
        cost_spec(
            rates,
            (input_a + input_b) as u64,
            (cached_a + cached_b) as u64,
            (output_a + output_b) as u64,
        ) == cost_spec(rates, input_a, cached_a, output_a) + cost_spec(rates, input_b, cached_b, output_b),
{
    assert((input_a + input_b) * rates.input_per_mtok_cents == input_a * rates.input_per_mtok_cents
        + input_b * rates.input_per_mtok_cents) by (nonlinear_arith);
    assert((cached_a + cached_b) * rates.cached_per_mtok_cents == cached_a * rates.cached_per_mtok_cents
        + cached_b * rates.cached_per_mtok_cents) by (nonlinear_arith);
    assert((output_a + output_b) * rates.output_per_mtok_cents == output_a * rates.output_per_mtok_cents
        + output_b * rates.output_per_mtok_cents) by (nonlinear_arith);
}

proof fn lemma_product_bound(x: u64, y: u32)
    ensures
        x * y <= 0x1_0000_0000_0000_0000_0000_0000,
{
    assert(x * y <= 0x1_0000_0000_0000_0000 * 0x1_0000_0000) by (nonlinear_arith)
        requires
            x < 0x1_0000_0000_0000_0000,
            y < 0x1_0000_0000,
    ;
}

/// The cost of a call with the given token counts, in hundred-millionths of
/// a US dollar.
pub fn cost_usd(rates: ModelRates, input: u64, cached: u64, output: u64) -> (c: u128)
    ensures
        c == cost_spec(rates, input, cached, output),
{
    proof {
        lemma_product_bound(input, rates.input_per_mtok_cents);
        lemma_product_bound(cached, rates.cached_per_mtok_cents);
        lemma_product_bound(output, rates.output_per_mtok_cents);
    }
    let a = input as u128 * rates.input_per_mtok_cents as u128;
    let b = cached as u128 * rates.cached_per_mtok_cents as u128;
    let d = output as u128 * rates.output_per_mtok_cents as u128;
    a + b + d
}

} // verus!
