//! What a session has spent, read from the usage that is recorded beside each of its
//! answers.
//!
//! The transcript carries no price of any kind — only token counts — so the cost here is
//! those counts against the published per-model rates. A model whose rates are not known
//! yields no cost at all rather than a wrong one: the tokens are still reported, and the
//! caller shows those alone.
use crate::json::{field, json_ref_option, sub_field, Json, JsonView};
use crate::text::{joined, starts_with};
use vstd::prelude::*;

verus! {

/// Tokens one answer was billed for.
///
/// The cache fields are kept apart because they are priced apart: writing an entry that
/// lives an hour costs twice the base input rate, writing a five-minute one costs a
/// quarter more, and reading either costs a tenth.
#[derive(Clone, Copy, Debug, PartialEq, Eq, Structural)]
pub struct Usage {
    pub input_tokens: u64,
    pub cache_write_1h_tokens: u64,
    pub cache_write_5m_tokens: u64,
    pub cache_read_tokens: u64,
    pub output_tokens: u64,
    /// Part of `output_tokens`, not additional to it. Reported because it says how much
    /// of an answer was the model thinking rather than writing.
    pub thinking_tokens: u64,
}

impl Default for Usage {
    fn default() -> (usage: Self)
        ensures
            usage == Usage::none(),
    {
        Usage {
            input_tokens: 0,
            cache_write_1h_tokens: 0,
            cache_write_5m_tokens: 0,
            cache_read_tokens: 0,
            output_tokens: 0,
            thinking_tokens: 0,
        }
    }
}

/// A token count: the number where there is one, and zero elsewhere.
pub open spec fn count(value: Option<JsonView>) -> u64 {
    match value {
        Some(value) => match value.as_u64() {
            Some(count) => count,
            None => 0,
        },
        None => 0,
    }
}

pub(crate) fn count_field(value: Option<&Json>) -> (result: u64)
    ensures
        result == count(json_ref_option(value)),
{
    match value {
        Some(value) => match value.as_u64() {
            Some(count) => count,
            None => 0,
        },
        None => 0,
    }
}

/// The sum, or the largest `u64` where the sum is larger.
pub open spec fn capped_sum(a: int, b: int) -> u64 {
    if a + b > u64::MAX {
        u64::MAX
    } else {
        (a + b) as u64
    }
}

/// The usage that an answer's `usage` object states.
pub open spec fn usage_of(usage: JsonView) -> Usage {
    let creation = usage.get("cache_creation"@);
    let write_1h = count(field(creation, "ephemeral_1h_input_tokens"@));
    let write_5m = count(field(creation, "ephemeral_5m_input_tokens"@));
    let split = write_1h != 0 || write_5m != 0;
    Usage {
        input_tokens: count(usage.get("input_tokens"@)),
        cache_write_1h_tokens: write_1h,
        cache_write_5m_tokens: if split {
            write_5m
        } else {
            count(usage.get("cache_creation_input_tokens"@))
        },
        cache_read_tokens: count(usage.get("cache_read_input_tokens"@)),
        output_tokens: count(usage.get("output_tokens"@)),
        thinking_tokens: count(
            field(usage.get("output_tokens_details"@), "thinking_tokens"@),
        ),
    }
}

/// The usage that a record carries, if it carries one.
pub open spec fn record_usage(raw: JsonView) -> Option<Usage> {
    match field(raw.get("message"@), "usage"@) {
        Some(usage) => Some(usage_of(usage)),
        None => None,
    }
}

impl Usage {
    pub open spec fn none() -> Usage {
        Usage {
            input_tokens: 0,
            cache_write_1h_tokens: 0,
            cache_write_5m_tokens: 0,
            cache_read_tokens: 0,
            output_tokens: 0,
            thinking_tokens: 0,
        }
    }

    pub open spec fn context(self) -> u64 {
        capped_sum(
            self.input_tokens + self.cache_read_tokens,
            self.cache_write_1h_tokens + self.cache_write_5m_tokens,
        )
    }

    pub open spec fn plus(self, other: Usage) -> Usage {
        Usage {
            input_tokens: capped_sum(self.input_tokens as int, other.input_tokens as int),
            cache_write_1h_tokens: capped_sum(
                self.cache_write_1h_tokens as int,
                other.cache_write_1h_tokens as int,
            ),
            cache_write_5m_tokens: capped_sum(
                self.cache_write_5m_tokens as int,
                other.cache_write_5m_tokens as int,
            ),
            cache_read_tokens: capped_sum(
                self.cache_read_tokens as int,
                other.cache_read_tokens as int,
            ),
            output_tokens: capped_sum(self.output_tokens as int, other.output_tokens as int),
            thinking_tokens: capped_sum(self.thinking_tokens as int, other.thinking_tokens as int),
        }
    }

    /// What the tokens cost: each kind of them at its own rate.
    pub open spec fn cost_at(self, rates: ModelRates) -> int {
        self.input_tokens * rates.input + self.cache_write_1h_tokens * rates.cache_write_1h
            + self.cache_write_5m_tokens * rates.cache_write_5m + self.cache_read_tokens
            * rates.cache_read + self.output_tokens * rates.output
    }

    /// Reads the `usage` object inside an assistant record's message.
    ///
    /// `None` when the record has no usage at all, which is every record that is not an
    /// answer from the model.
    pub fn from_record(raw: &Json) -> (usage: Option<Usage>)
        ensures
            usage == record_usage(raw@),
    {
        match sub_field(raw.get("message"), "usage") {
            Some(usage) => {
                // `cache_creation` splits the write by how long the entry lives; the flat
                // `cache_creation_input_tokens` beside it is their total, and is the fallback
                // for a record written before the split existed.
                let creation = usage.get("cache_creation");
                let write_1h: u64 = count_field(sub_field(creation, "ephemeral_1h_input_tokens"));
                let write_5m: u64 = count_field(sub_field(creation, "ephemeral_5m_input_tokens"));
                let write_total: u64 = count_field(usage.get("cache_creation_input_tokens"));
                Some(
                    Usage {
                        input_tokens: count_field(usage.get("input_tokens")),
                        cache_write_1h_tokens: write_1h,
                        // Unsplit, it is attributed to the five-minute TTL: that is the
                        // default one, and pricing it as the hour would overstate the cost.
                        cache_write_5m_tokens: if write_1h == 0 && write_5m == 0 {
                            write_total
                        } else {
                            write_5m
                        },
                        cache_read_tokens: count_field(usage.get("cache_read_input_tokens")),
                        output_tokens: count_field(usage.get("output_tokens")),
                        thinking_tokens: count_field(
                            sub_field(usage.get("output_tokens_details"), "thinking_tokens"),
                        ),
                    },
                )
            },
            None => None,
        }
    }

    /// Everything the model was given for this answer: what was sent fresh, plus what was
    /// read from the cache, plus what was written into it. This is the size of the
    /// context that produced the answer.
    pub fn context_tokens(self) -> (tokens: u64)
        ensures
            tokens == self.context(),
    {
        self.input_tokens.saturating_add(self.cache_read_tokens).saturating_add(
            self.cache_write_1h_tokens,
        ).saturating_add(self.cache_write_5m_tokens)
    }

    pub fn add(self, other: Usage) -> (sum: Usage)
        ensures
            sum == self.plus(other),
    {
        Usage {
            input_tokens: self.input_tokens.saturating_add(other.input_tokens),
            cache_write_1h_tokens: self.cache_write_1h_tokens.saturating_add(
                other.cache_write_1h_tokens,
            ),
            cache_write_5m_tokens: self.cache_write_5m_tokens.saturating_add(
                other.cache_write_5m_tokens,
            ),
            cache_read_tokens: self.cache_read_tokens.saturating_add(other.cache_read_tokens),
            output_tokens: self.output_tokens.saturating_add(other.output_tokens),
            thinking_tokens: self.thinking_tokens.saturating_add(other.thinking_tokens),
        }
    }

    /// What these tokens cost at `rates`, in hundred-millionths of a US dollar. Exact:
    /// a token at one cent per million costs one such unit.
    pub fn cost(self, rates: ModelRates) -> (cost: u128)
        ensures
            cost == self.input_tokens * rates.input + self.cache_write_1h_tokens
                * rates.cache_write_1h + self.cache_write_5m_tokens * rates.cache_write_5m
                + self.cache_read_tokens * rates.cache_read + self.output_tokens * rates.output,
            cost == self.cost_at(rates),
    {
        priced(self.input_tokens, rates.input) + priced(
            self.cache_write_1h_tokens,
            rates.cache_write_1h,
        ) + priced(self.cache_write_5m_tokens, rates.cache_write_5m) + priced(
            self.cache_read_tokens,
            rates.cache_read,
        ) + priced(self.output_tokens, rates.output)
    }
}

fn priced(tokens: u64, rate: u32) -> (cost: u128)
    ensures
        cost == tokens * rate,
        cost <= 0x1_0000_0000_0000_0000_0000_0000,
{
    assert(tokens * rate <= 0x1_0000_0000_0000_0000_0000_0000) by (nonlinear_arith)
        requires
            tokens <= u64::MAX,
            rate <= u32::MAX,
    ;
    tokens as u128 * rate as u128
}

/// Adding usages up does not depend on their order or grouping.
pub proof fn lemma_usage_sums(a: Usage, b: Usage, c: Usage)
    ensures
        a.plus(b) == b.plus(a),
        a.plus(b).plus(c) == a.plus(b.plus(c)),
        a.plus(Usage::none()) == a,
{
}

/// US cents per million tokens.
#[derive(Clone, Copy, Debug, PartialEq, Eq, Structural)]
pub struct ModelRates {
    pub input: u32,
    pub output: u32,
    pub cache_write_1h: u32,
    pub cache_write_5m: u32,
    pub cache_read: u32,
}

impl ModelRates {
    /// The rates from whole dollars per million tokens in and out. The cache rates follow
    /// from the input rate, which is how they are published: an hour-long write costs
    /// twice the input rate, a five-minute write a quarter more, and a read a tenth.
    pub open spec fn in_dollars(input: u32, output: u32) -> ModelRates {
        ModelRates {
            input: (input * 100) as u32,
            output: (output * 100) as u32,
            cache_write_1h: (input * 200) as u32,
            cache_write_5m: (input * 125) as u32,
            cache_read: (input * 10) as u32,
        }
    }

    fn from_input_and_output(input: u32, output: u32) -> (rates: ModelRates)
        requires
            input <= 1000,
            output <= 1000,
        ensures
            rates == ModelRates::in_dollars(input, output),
    {
        ModelRates {
            input: input * 100,
            output: output * 100,
            cache_write_1h: input * 200,
            cache_write_5m: input * 125,
            cache_read: input * 10,
        }
    }
}

/// Whether a model is one of a vendor's family, or a dated snapshot of one. A vendor's
/// models are named by the vendor, a hyphen and the family.
pub open spec fn is_of_family(vendor: Seq<char>, family: Seq<char>, model: Seq<char>) -> bool {
    (vendor + "-"@ + family).is_prefix_of(model)
}

/// The rates of a vendor's model by its family. No two families in the list are prefixes
/// of one another.
pub open spec fn rates_of(vendor: Seq<char>, model: Seq<char>) -> Option<ModelRates> {
    if is_of_family(vendor, "fable-5"@, model) || is_of_family(vendor, "mythos-5"@, model) {
        Some(ModelRates::in_dollars(10, 50))
    } else if is_of_family(vendor, "opus-5"@, model) || is_of_family(vendor, "opus-4-8"@, model)
        || is_of_family(vendor, "opus-4-7"@, model) || is_of_family(vendor, "opus-4-6"@, model) {
        Some(ModelRates::in_dollars(5, 25))
    } else if is_of_family(vendor, "sonnet-5"@, model) {
        Some(ModelRates::in_dollars(2, 10))
    } else if is_of_family(vendor, "sonnet-4-6"@, model) {
        Some(ModelRates::in_dollars(3, 15))
    } else if is_of_family(vendor, "haiku-4-5"@, model) {
        Some(ModelRates::in_dollars(1, 5))
    } else {
        None
    }
}

fn in_family(vendor: &str, family: &str, model: &str) -> (result: bool)
    ensures
        result == is_of_family(vendor@, family@, model@),
{
    let name = joined(joined(vendor, "-").as_str(), family);
    starts_with(model, name.as_str())
}

/// The rates for the model named in an assistant record, or `None` for a model this does
/// not know: of another vendor, or of a family that is not in the list.
///
/// Matched on the family rather than the exact id so that a dated snapshot of a known
/// model is still priced. An unknown model is left unpriced on purpose — a session's cost
/// is worth nothing if it might be the wrong number.
pub fn rates_for_model(vendor: &str, model: &str) -> (rates: Option<ModelRates>)
    ensures
        rates == rates_of(vendor@, model@),
{
    if in_family(vendor, "fable-5", model) || in_family(vendor, "mythos-5", model) {
        Some(ModelRates::from_input_and_output(10, 50))
    } else if in_family(vendor, "opus-5", model) || in_family(vendor, "opus-4-8", model)
        || in_family(vendor, "opus-4-7", model) || in_family(vendor, "opus-4-6", model) {
        Some(ModelRates::from_input_and_output(5, 25))
    } else if in_family(vendor, "sonnet-5", model) {
        Some(ModelRates::from_input_and_output(2, 10))
    } else if in_family(vendor, "sonnet-4-6", model) {
        Some(ModelRates::from_input_and_output(3, 15))
    } else if in_family(vendor, "haiku-4-5", model) {
        Some(ModelRates::from_input_and_output(1, 5))
    } else {
        None
    }
}

} // verus!
