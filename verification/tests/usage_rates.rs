use claude_sessions::json::Json;
use claude_sessions::usage::{rates_for_model, Usage};

/// A price in US cents as dollars.
fn dollars(cents: u32) -> f64 {
    f64::from(cents) / 100.
}

fn usage_of(json: &str) -> Usage {
    let raw = Json::parse(json).expect("test json parses");
    Usage::from_record(&raw).expect("the record carries usage")
}

#[test]
fn the_split_cache_write_is_read_by_its_ttl() {
    let usage = usage_of(
        r#"{"message":{"usage":{"input_tokens":2,"output_tokens":488,
"cache_read_input_tokens":29592,"cache_creation_input_tokens":27456,
"cache_creation":{"ephemeral_1h_input_tokens":27456,"ephemeral_5m_input_tokens":0},
"output_tokens_details":{"thinking_tokens":335}}}}"#,
    );

    assert_eq!(
        usage,
        Usage {
            input_tokens: 2,
            cache_write_1h_tokens: 27456,
            cache_write_5m_tokens: 0,
            cache_read_tokens: 29592,
            output_tokens: 488,
            thinking_tokens: 335,
        }
    );
}

/// A write with no split is priced as the cheaper of the two, because the
/// five-minute TTL is the default one and guessing the hour would overstate it.
#[test]
fn an_unsplit_cache_write_is_priced_as_the_default_ttl() {
    let usage = usage_of(
        r#"{"message":{"usage":{"input_tokens":10,"output_tokens":20,
"cache_creation_input_tokens":1000}}}"#,
    );

    assert_eq!(usage.cache_write_5m_tokens, 1000);
    assert_eq!(usage.cache_write_1h_tokens, 0);
}

#[test]
fn a_record_with_no_usage_has_none() {
    let raw = Json::parse(r#"{"type":"user","message":{"content":"hi"}}"#)
        .expect("test json parses");
    assert_eq!(Usage::from_record(&raw), None);
}

#[test]
fn the_context_is_everything_the_model_was_given() {
    let usage = Usage {
        input_tokens: 2,
        cache_write_1h_tokens: 27_456,
        cache_write_5m_tokens: 0,
        cache_read_tokens: 29_592,
        output_tokens: 488,
        thinking_tokens: 335,
    };

    assert_eq!(
        usage.context_tokens(),
        57_050,
        "the answer's own output is not part of what it was given"
    );
}

#[test]
fn cost_is_each_kind_of_token_at_its_own_rate() {
    let rates = rates_for_model("maker", "maker-opus-5").expect("opus 5 is priced");
    assert_eq!(dollars(rates.input), 5.);
    assert_eq!(dollars(rates.output), 25.);
    assert_eq!(dollars(rates.cache_write_1h), 10.);
    assert_eq!(dollars(rates.cache_write_5m), 6.25);
    assert_eq!(dollars(rates.cache_read), 0.5);

    let one_million_of_each = Usage {
        input_tokens: 1_000_000,
        cache_write_1h_tokens: 1_000_000,
        cache_write_5m_tokens: 1_000_000,
        cache_read_tokens: 1_000_000,
        output_tokens: 1_000_000,
        thinking_tokens: 0,
    };

    assert_eq!(
        one_million_of_each.cost(rates) as f64 / 100_000_000.,
        5. + 10. + 6.25 + 0.5 + 25.,
        "thinking tokens are part of the output and must not be billed twice"
    );
}

#[test]
fn a_dated_snapshot_is_priced_as_its_family() {
    assert_eq!(
        rates_for_model("maker", "maker-opus-5-20260401"),
        rates_for_model("maker", "maker-opus-5")
    );
}

/// The families whose names would collide if the table were matched shortest-first.
#[test]
fn each_family_is_priced_as_itself() {
    assert_eq!(
        rates_for_model("maker", "maker-opus-4-8").map(|r| dollars(r.input)),
        Some(5.)
    );
    assert_eq!(
        rates_for_model("maker", "maker-sonnet-5").map(|r| dollars(r.input)),
        Some(2.)
    );
    assert_eq!(
        rates_for_model("maker", "maker-sonnet-4-6").map(|r| dollars(r.input)),
        Some(3.)
    );
    assert_eq!(
        rates_for_model("maker", "maker-haiku-4-5").map(|r| dollars(r.input)),
        Some(1.)
    );
    assert_eq!(
        rates_for_model("maker", "maker-fable-5-1").map(|r| dollars(r.input)),
        Some(10.)
    );
}

/// An unknown model must yield no price rather than a wrong one.
#[test]
fn an_unknown_model_is_not_priced() {
    assert_eq!(rates_for_model("maker", "some-other-model"), None);
    assert_eq!(rates_for_model("maker", "gpt-4"), None);
}
