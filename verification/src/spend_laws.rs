//! What holds of the tokens that a session has used, what they cost and what is left of its
//! context.
use crate::double::Double;
use crate::json::JsonView;
use crate::transcript::{models_of, reported_cost_of, ModelUsage, SpendView, TranscriptRecordView};
use crate::usage::{rates_of, record_usage, ModelRates, Usage};
use vstd::prelude::*;

verus! {

/// The number that stands under a key, where there is one; zero elsewhere.
pub open spec fn stated(value: Option<JsonView>, key: Seq<char>) -> int {
    match value {
        Some(value) => match value.get(key) {
            Some(JsonView::Number(number)) => match number.unsigned {
                Some(count) => count as int,
                None => 0,
            },
            _ => 0,
        },
        None => 0,
    }
}

/// What stands under a key.
pub open spec fn under(value: Option<JsonView>, key: Seq<char>) -> Option<JsonView> {
    match value {
        Some(value) => value.get(key),
        None => None,
    }
}

/// The `usage` of a record's message.
pub open spec fn usage_object(raw: JsonView) -> Option<JsonView> {
    under(raw.get("message"@), "usage"@)
}

/// Whether a record is an answer that counts: it carries usage, and is neither a snapshot of
/// the cost nor a compaction.
pub open spec fn is_answer(record: TranscriptRecordView) -> bool {
    &&& usage_object(record.raw) is Some
    &&& record.record_type != "cost-state"@
    &&& record.subtype != Some("compact_boundary"@)
}

/// The sum of a figure over all answers.
pub open spec fn total(
    records: Seq<TranscriptRecordView>,
    figure: spec_fn(TranscriptRecordView) -> int,
) -> int
    decreases records.len(),
{
    if records.len() == 0 {
        0
    } else {
        total(records.drop_last(), figure) + if is_answer(records.last()) {
            figure(records.last())
        } else {
            0
        }
    }
}

/// A number, or the largest count where it is larger.
pub open spec fn at_most_max(number: int) -> int {
    if number > u64::MAX {
        u64::MAX as int
    } else {
        number
    }
}

pub open spec fn input_of(record: TranscriptRecordView) -> int {
    stated(usage_object(record.raw), "input_tokens"@)
}

pub open spec fn output_of(record: TranscriptRecordView) -> int {
    stated(usage_object(record.raw), "output_tokens"@)
}

pub open spec fn cache_read_of(record: TranscriptRecordView) -> int {
    stated(usage_object(record.raw), "cache_read_input_tokens"@)
}

pub open spec fn hour_writes_of(record: TranscriptRecordView) -> int {
    stated(under(usage_object(record.raw), "cache_creation"@), "ephemeral_1h_input_tokens"@)
}

pub open spec fn thinking_of(record: TranscriptRecordView) -> int {
    stated(under(usage_object(record.raw), "output_tokens_details"@), "thinking_tokens"@)
}

/// What was written to the cache, for however long it lives.
pub open spec fn writes_of(record: TranscriptRecordView) -> int {
    let split = under(usage_object(record.raw), "cache_creation"@);
    let both = stated(split, "ephemeral_1h_input_tokens"@) + stated(
        split,
        "ephemeral_5m_input_tokens"@,
    );
    if both > 0 {
        both
    } else {
        stated(usage_object(record.raw), "cache_creation_input_tokens"@)
    }
}

/// The usage of an answer is read off the fields of its message: each count under its own
/// name, and both kinds of cache writes together as much as was written, split or not.
pub proof fn lemma_usage_is_read(record: TranscriptRecordView)
    ensures
        record_usage(record.raw) is Some <==> usage_object(record.raw) is Some,
        record_usage(record.raw) is Some ==> {
            let usage = record_usage(record.raw)->0;
            &&& usage.input_tokens == input_of(record)
            &&& usage.output_tokens == output_of(record)
            &&& usage.cache_read_tokens == cache_read_of(record)
            &&& usage.cache_write_1h_tokens == hour_writes_of(record)
            &&& usage.cache_write_1h_tokens + usage.cache_write_5m_tokens == writes_of(record)
            &&& usage.thinking_tokens == thinking_of(record)
        },
{
}

/// The context of an answer is every token that the model was given: what was sent fresh,
/// what was read from the cache and what was written to it for an hour or for five minutes.
pub proof fn lemma_context_is_all_that_was_given(usage: Usage)
    ensures
        usage.context() == at_most_max(
            usage.input_tokens + usage.cache_read_tokens + usage.cache_write_1h_tokens
                + usage.cache_write_5m_tokens,
        ),
{
}

/// More tokens of any kind that the model is given are as many more in its context; where in
/// the cache they were written to makes no difference, and what it answers is not in it.
pub proof fn lemma_context_grows_with_each_kind(usage: Usage, more: Usage, n: int)
    requires
        n >= 0,
        more.input_tokens + more.cache_read_tokens + more.cache_write_1h_tokens
            + more.cache_write_5m_tokens <= u64::MAX,
        usage.input_tokens + usage.cache_read_tokens + usage.cache_write_1h_tokens
            + usage.cache_write_5m_tokens + n == more.input_tokens + more.cache_read_tokens
            + more.cache_write_1h_tokens + more.cache_write_5m_tokens,
    ensures
        more.context() == usage.context() + n,
{
}

/// The context after an answer is what that answer was given.
pub proof fn lemma_context_of_an_answer(records: Seq<TranscriptRecordView>, record: TranscriptRecordView)
    requires
        is_answer(record),
    ensures
        SpendView::of(records.push(record)).context_tokens == at_most_max(
            input_of(record) + cache_read_of(record) + writes_of(record),
        ),
        !SpendView::of(records.push(record)).context_is_post_compaction,
{
    lemma_usage_is_read(record);
    assert(records.push(record).drop_last() =~= records);
}

/// The context after a compaction that says what it kept is that; a record that is neither
/// an answer nor such a compaction leaves it.
pub proof fn lemma_context_of_a_compaction(
    records: Seq<TranscriptRecordView>,
    record: TranscriptRecordView,
)
    ensures
        ({
            let before = SpendView::of(records);
            let after = SpendView::of(records.push(record));
            let compacts = record.record_type != "cost-state"@ && record.subtype == Some(
                "compact_boundary"@,
            ) && record.compact_metadata is Some && record.compact_metadata->0.post_tokens is Some;
            &&& compacts ==> after.context_tokens == record.compact_metadata->0.post_tokens->0
                && after.context_is_post_compaction
            &&& !compacts && !is_answer(record) ==> after.context_tokens == before.context_tokens
                && after.context_is_post_compaction == before.context_is_post_compaction
        }),
{
    lemma_usage_is_read(record);
    assert(records.push(record).drop_last() =~= records);
}

proof fn lemma_total_is_not_negative(
    records: Seq<TranscriptRecordView>,
    figure: spec_fn(TranscriptRecordView) -> int,
)
    requires
        forall|record: TranscriptRecordView| #[trigger] figure(record) >= 0,
    ensures
        total(records, figure) >= 0,
    decreases records.len(),
{
    if records.len() > 0 {
        lemma_total_is_not_negative(records.drop_last(), figure);
        assert(figure(records.last()) >= 0);
    }
}

/// What a session has spent is the total over every answer in its transcript, kind by kind:
/// each answer adds its own counts and takes nothing away.
pub proof fn lemma_spend_is_the_total_of_the_answers(records: Seq<TranscriptRecordView>)
    ensures
        ({
            let usage = SpendView::of(records).usage;
            &&& usage.input_tokens == at_most_max(
                total(records, |record: TranscriptRecordView| input_of(record)),
            )
            &&& usage.output_tokens == at_most_max(
                total(records, |record: TranscriptRecordView| output_of(record)),
            )
            &&& usage.cache_read_tokens == at_most_max(
                total(records, |record: TranscriptRecordView| cache_read_of(record)),
            )
            &&& usage.cache_write_1h_tokens == at_most_max(
                total(records, |record: TranscriptRecordView| hour_writes_of(record)),
            )
            &&& usage.cache_write_5m_tokens == at_most_max(
                total(
                    records,
                    |record: TranscriptRecordView| writes_of(record) - hour_writes_of(record),
                ),
            )
            &&& usage.thinking_tokens == at_most_max(
                total(records, |record: TranscriptRecordView| thinking_of(record)),
            )
        }),
    decreases records.len(),
{
    let five_minutes = |record: TranscriptRecordView| writes_of(record) - hour_writes_of(record);
    lemma_total_is_not_negative(records, |record: TranscriptRecordView| input_of(record));
    lemma_total_is_not_negative(records, |record: TranscriptRecordView| output_of(record));
    lemma_total_is_not_negative(records, |record: TranscriptRecordView| cache_read_of(record));
    lemma_total_is_not_negative(records, |record: TranscriptRecordView| hour_writes_of(record));
    lemma_total_is_not_negative(records, |record: TranscriptRecordView| thinking_of(record));
    assert forall|record: TranscriptRecordView| #[trigger] five_minutes(record) >= 0 by {}
    lemma_total_is_not_negative(records, five_minutes);
    if records.len() > 0 {
        let front = records.drop_last();
        lemma_spend_is_the_total_of_the_answers(front);
        lemma_usage_is_read(records.last());
        lemma_total_is_not_negative(front, |record: TranscriptRecordView| input_of(record));
        lemma_total_is_not_negative(front, |record: TranscriptRecordView| output_of(record));
        lemma_total_is_not_negative(front, |record: TranscriptRecordView| cache_read_of(record));
        lemma_total_is_not_negative(front, |record: TranscriptRecordView| hour_writes_of(record));
        lemma_total_is_not_negative(front, |record: TranscriptRecordView| thinking_of(record));
        lemma_total_is_not_negative(front, five_minutes);
    }
}

/// As many answers are counted as there are.
pub proof fn lemma_every_answer_is_counted(records: Seq<TranscriptRecordView>)
    ensures
        SpendView::of(records).answers == at_most_max(
            total(records, |record: TranscriptRecordView| 1int),
        ),
    decreases records.len(),
{
    let one = |record: TranscriptRecordView| 1int;
    lemma_total_is_not_negative(records, one);
    if records.len() > 0 {
        lemma_every_answer_is_counted(records.drop_last());
        lemma_usage_is_read(records.last());
        lemma_total_is_not_negative(records.drop_last(), one);
    }
}

/// The model and the effort are those of the newest answer that names them; no other record
/// changes them.
pub proof fn lemma_newest_answer_names_the_model(
    records: Seq<TranscriptRecordView>,
    record: TranscriptRecordView,
    message: JsonView,
    name: Seq<char>,
)
    requires
        record.raw.get("message"@) == Some(message),
    ensures
        ({
            let before = SpendView::of(records);
            let after = SpendView::of(records.push(record));
            &&& is_answer(record) && message.get("model"@) == Some(JsonView::Text(name))
                ==> after.model == Some(name)
            &&& is_answer(record) && record.raw.get("effort"@) == Some(JsonView::Text(name))
                ==> after.effort == Some(name)
            &&& !is_answer(record) || !(message.get("model"@) matches Some(JsonView::Text(_)))
                ==> after.model == before.model
            &&& !is_answer(record) || !(record.raw.get("effort"@) matches Some(JsonView::Text(_)))
                ==> after.effort == before.effort
        }),
{
    lemma_usage_is_read(record);
    assert(records.push(record).drop_last() =~= records);
}

/// What was reported is what the newest snapshot of the cost reports, and no other record
/// changes it.
pub proof fn lemma_newest_snapshot_is_reported(
    records: Seq<TranscriptRecordView>,
    record: TranscriptRecordView,
)
    ensures
        record.record_type == "cost-state"@ ==> SpendView::of(records.push(record)).reported
            == reported_cost_of(record.raw),
        record.record_type != "cost-state"@ ==> SpendView::of(records.push(record)).reported
            == SpendView::of(records).reported,
        SpendView::of(Seq::empty()).reported is None,
{
    assert(records.push(record).drop_last() =~= records);
}

/// A snapshot of the cost reports something exactly where it states a total, and then each
/// of its figures is the one under its own name.
pub proof fn lemma_snapshot_is_read(raw: JsonView, usd: Double, models: Seq<(Seq<char>, JsonView)>)
    ensures
        reported_cost_of(raw) is Some <==> (raw.get("totalCostUSD"@) matches Some(
            JsonView::Number(number),
        ) && number.double is Some),
        reported_cost_of(raw) is Some ==> {
            let cost = reported_cost_of(raw)->0;
            &&& raw.get("totalCostUSD"@) == Some(
                JsonView::Number(raw.get("totalCostUSD"@)->0->Number_0),
            )
            &&& raw.get("totalCostUSD"@)->0->Number_0.double == Some(cost.total_usd)
            &&& cost.has_unknown_model_cost <==> raw.get("hasUnknownModelCost"@) == Some(
                JsonView::Bool(true),
            )
            &&& cost.api_duration_ms == stated(Some(raw), "totalAPIDuration"@)
            &&& cost.tool_duration_ms == stated(Some(raw), "totalToolDuration"@)
            &&& cost.lines_added == stated(Some(raw), "totalLinesAdded"@)
            &&& cost.lines_removed == stated(Some(raw), "totalLinesRemoved"@)
            &&& !(raw.get("modelUsage"@) matches Some(JsonView::Object(_)))
                ==> cost.model_usage.len() == 0
            &&& raw.get("modelUsage"@) == Some(JsonView::Object(models)) ==> cost.model_usage
                == models_of(models)
        },
{
}

/// A count of a model, under either of its two names.
pub open spec fn model_count(entry: JsonView, name: Seq<char>, older_name: Seq<char>) -> int {
    if entry.get(name) matches Some(JsonView::Number(number)) && number.unsigned is Some {
        stated(Some(entry), name)
    } else {
        stated(Some(entry), older_name)
    }
}

/// Whether a model's usage is what an entry of the snapshot says.
pub open spec fn says(entry: JsonView, usage: ModelUsage) -> bool {
    &&& usage.input_tokens == model_count(entry, "inputTokens"@, "input_tokens"@)
    &&& usage.output_tokens == model_count(entry, "outputTokens"@, "output_tokens"@)
    &&& usage.cache_read_tokens == model_count(
        entry,
        "cacheReadInputTokens"@,
        "cache_read_input_tokens"@,
    )
    &&& usage.cache_creation_tokens == model_count(
        entry,
        "cacheCreationInputTokens"@,
        "cache_creation_input_tokens"@,
    )
    &&& forall|usd: Double| #[trigger]
        is_cost(entry, usd) ==> usage.cost_usd == usd
}

/// Whether an entry states this cost.
pub open spec fn is_cost(entry: JsonView, usd: Double) -> bool {
    match entry.get("costUSD"@) {
        Some(JsonView::Number(number)) => number.double == Some(usd),
        Some(_) => false,
        None => entry.get("costUsd"@) matches Some(JsonView::Number(number)) && number.double
            == Some(usd),
    }
}

/// Every model whose entry is an object is reported under its name with what the entry says,
/// in the order of the entries, and no other.
pub proof fn lemma_models_are_reported(entries: Seq<(Seq<char>, JsonView)>, k: int)
    requires
        0 <= k < entries.len(),
    ensures
        entries[k].1 is Object ==> exists|at: int|
            0 <= at < models_of(entries).len() && at <= k && (#[trigger] models_of(
                entries,
            )[at]).0 == entries[k].0 && says(entries[k].1, models_of(entries)[at].1),
        (forall|l: int| 0 <= l < entries.len() ==> (#[trigger] entries[l]).1 is Object)
            ==> models_of(entries).len() == entries.len() && models_of(entries)[k].0
            == entries[k].0,
        (forall|l: int| 0 <= l < entries.len() ==> !((#[trigger] entries[l]).1 is Object))
            ==> models_of(entries).len() == 0,
    decreases entries.len(),
{
    let front = entries.drop_last();
    let last = entries.len() - 1;
    lemma_no_more_models(front);
    assert(forall|l: int| 0 <= l < front.len() ==> front[l] == entries[l]);
    if k < last {
        lemma_models_are_reported(front, k);
        if entries[k].1 is Object {
            let at = choose|at: int|
                0 <= at < models_of(front).len() && at <= k && (#[trigger] models_of(front)[at]).0
                    == front[k].0 && says(front[k].1, models_of(front)[at].1);
            assert(models_of(entries)[at] == models_of(front)[at]);
        }
    } else {
        if entries[k].1 is Object {
            let at = models_of(front).len() as int;
            assert(models_of(entries)[at].0 == entries[k].0);
            assert(says(entries[k].1, models_of(entries)[at].1));
        }
        if front.len() > 0 {
            lemma_models_are_reported(front, 0);
        }
    }
}

proof fn lemma_no_more_models(entries: Seq<(Seq<char>, JsonView)>)
    ensures
        models_of(entries).len() <= entries.len(),
    decreases entries.len(),
{
    if entries.len() > 0 {
        lemma_no_more_models(entries.drop_last());
    }
}

/// A usage of nothing.
pub open spec fn no_tokens() -> Usage {
    Usage {
        input_tokens: 0,
        output_tokens: 0,
        cache_read_tokens: 0,
        cache_write_1h_tokens: 0,
        cache_write_5m_tokens: 0,
        thinking_tokens: 0,
    }
}

/// Tokens of one kind cost their rate each; usages cost together what they cost apart; and
/// thinking is part of the output, not billed again.
pub proof fn lemma_cost_is_by_kind(
    usage: Usage,
    other: Usage,
    rates: ModelRates,
    n: u64,
    thinking: u64,
)
    requires
        usage.input_tokens + other.input_tokens <= u64::MAX,
        usage.output_tokens + other.output_tokens <= u64::MAX,
        usage.cache_read_tokens + other.cache_read_tokens <= u64::MAX,
        usage.cache_write_1h_tokens + other.cache_write_1h_tokens <= u64::MAX,
        usage.cache_write_5m_tokens + other.cache_write_5m_tokens <= u64::MAX,
    ensures
        ({
            let nothing = no_tokens();
            &&& (Usage { input_tokens: n, ..nothing }).cost_at(rates) == n * rates.input
            &&& (Usage { output_tokens: n, ..nothing }).cost_at(rates) == n * rates.output
            &&& (Usage { cache_read_tokens: n, ..nothing }).cost_at(rates) == n * rates.cache_read
            &&& (Usage { cache_write_1h_tokens: n, ..nothing }).cost_at(rates) == n
                * rates.cache_write_1h
            &&& (Usage { cache_write_5m_tokens: n, ..nothing }).cost_at(rates) == n
                * rates.cache_write_5m
        }),
        usage.plus(other).cost_at(rates) == usage.cost_at(rates) + other.cost_at(rates),
        (Usage { thinking_tokens: thinking, ..usage }).cost_at(rates) == usage.cost_at(rates),
{
    vstd::arithmetic::mul::lemma_mul_is_distributive_add_other_way(
        rates.input as int,
        usage.input_tokens as int,
        other.input_tokens as int,
    );
    vstd::arithmetic::mul::lemma_mul_is_distributive_add_other_way(
        rates.output as int,
        usage.output_tokens as int,
        other.output_tokens as int,
    );
    vstd::arithmetic::mul::lemma_mul_is_distributive_add_other_way(
        rates.cache_read as int,
        usage.cache_read_tokens as int,
        other.cache_read_tokens as int,
    );
    vstd::arithmetic::mul::lemma_mul_is_distributive_add_other_way(
        rates.cache_write_1h as int,
        usage.cache_write_1h_tokens as int,
        other.cache_write_1h_tokens as int,
    );
    vstd::arithmetic::mul::lemma_mul_is_distributive_add_other_way(
        rates.cache_write_5m as int,
        usage.cache_write_5m_tokens as int,
        other.cache_write_5m_tokens as int,
    );
}

/// The rates of a model hang together as they are published: an answer costs five times
/// what the input does, an hour's write twice, a five-minute write a quarter more, and a
/// read a tenth.
pub proof fn lemma_rates_hang_together(vendor: Seq<char>, model: Seq<char>)
    ensures
        rates_of(vendor, model) is Some ==> {
            let rates = rates_of(vendor, model)->0;
            &&& rates.output == 5 * rates.input
            &&& rates.cache_write_1h == 2 * rates.input
            &&& 4 * rates.cache_write_5m == 5 * rates.input
            &&& 10 * rates.cache_read == rates.input
        },
{
}

/// Each family has its price for a million tokens of input, in US cents: that of one of the
/// vendor's models whose name begins with the family's.
pub proof fn lemma_price_of_each_family(vendor: Seq<char>, family: Seq<char>, model: Seq<char>)
    requires
        (vendor + "-"@ + family).is_prefix_of(model),
    ensures
        family == "fable-5"@ || family == "mythos-5"@ ==> rates_of(vendor, model) is Some
            && rates_of(vendor, model)->0.input == 1000,
        family == "opus-5"@ || family == "opus-4-8"@ || family == "opus-4-7"@ || family
            == "opus-4-6"@ ==> rates_of(vendor, model) is Some && rates_of(vendor, model)->0.input
            == 500,
        family == "sonnet-5"@ ==> rates_of(vendor, model) is Some && rates_of(
            vendor,
            model,
        )->0.input == 200,
        family == "sonnet-4-6"@ ==> rates_of(vendor, model) is Some && rates_of(
            vendor,
            model,
        )->0.input == 300,
        family == "haiku-4-5"@ ==> rates_of(vendor, model) is Some && rates_of(
            vendor,
            model,
        )->0.input == 100,
{
    reveal_strlit("-");
    reveal_strlit("fable-5");
    reveal_strlit("mythos-5");
    reveal_strlit("opus-5");
    reveal_strlit("opus-4-8");
    reveal_strlit("opus-4-7");
    reveal_strlit("opus-4-6");
    reveal_strlit("sonnet-5");
    reveal_strlit("sonnet-4-6");
    reveal_strlit("haiku-4-5");
    assert forall|other: Seq<char>, k: int|
        #![trigger crate::usage::is_of_family(vendor, other, model), other[k]]
        crate::usage::is_of_family(vendor, other, model) && 0 <= k < other.len() && k
            < family.len() implies other[k] == family[k] by {
        let at = vendor.len() + 1 + k;
        assert((vendor + "-"@ + other)[at] == other[k]);
        assert((vendor + "-"@ + family)[at] == family[k]);
        assert(model[at] == other[k]) by {
            assert(model.subrange(0, (vendor + "-"@ + other).len() as int)[at] == other[k]);
        }
        assert(model[at] == family[k]) by {
            assert(model.subrange(0, (vendor + "-"@ + family).len() as int)[at] == family[k]);
        }
    }
    assert("fable-5"@[0] == 'f' && "mythos-5"@[0] == 'm' && "opus-5"@[0] == 'o');
    assert("opus-4-8"@[0] == 'o' && "opus-4-7"@[0] == 'o' && "opus-4-6"@[0] == 'o');
    assert("sonnet-5"@[0] == 's' && "sonnet-4-6"@[0] == 's' && "haiku-4-5"@[0] == 'h');
    assert("sonnet-5"@[7] == '5' && "sonnet-4-6"@[7] == '4');
}

/// Only a vendor's own models have a price: those whose names begin with the vendor's.
pub proof fn lemma_only_the_vendors_models_are_priced(vendor: Seq<char>, model: Seq<char>)
    ensures
        rates_of(vendor, model) is Some ==> vendor.is_prefix_of(model),
{
    assert forall|family: Seq<char>| #[trigger]
        crate::usage::is_of_family(vendor, family, model) implies vendor.is_prefix_of(model) by {
        let name = vendor + "-"@ + family;
        assert(model.subrange(0, vendor.len() as int) =~= vendor) by {
            assert forall|k: int| 0 <= k < vendor.len() implies model[k] == vendor[k] by {
                assert(name[k] == vendor[k]);
                assert(model.subrange(0, name.len() as int)[k] == name[k]);
            }
        }
    }
}

/// A snapshot of a model is priced as the model: what stands behind the family's name makes
/// no difference.
pub proof fn lemma_snapshot_is_priced_as_its_family(
    vendor: Seq<char>,
    model: Seq<char>,
    suffix: Seq<char>,
)
    requires
        rates_of(vendor, model) is Some,
    ensures
        rates_of(vendor, model + suffix) is Some,
{
    assert forall|family: Seq<char>| #[trigger]
        crate::usage::is_of_family(vendor, family, model) implies crate::usage::is_of_family(
        vendor,
        family,
        model + suffix,
    ) by {
        let name = vendor + "-"@ + family;
        assert((model + suffix).subrange(0, name.len() as int) =~= model.subrange(
            0,
            name.len() as int,
        ));
    }
}

} // verus!
