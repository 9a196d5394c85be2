//! Price versions and valuations: which model names are detected, when a new
//! price version may be saved, which version prices an observation, and the
//! amount it records.
use crate::activity::{is_white_space, white_space};
use crate::adapter::Tokens;
use crate::pricing::{configured_rates, error_message, valuation, Error, PriceInput, Rates};
use crate::text::{chars_of, decimal, i128_text, owned};
use vstd::prelude::*;

verus! {

/// Observations examined per pricing pass.
pub const PRICING_BATCH_SIZE: usize = 64;

/// A saved price version of a model.
#[derive(Debug, Clone)]
pub struct PriceVersion {
    pub id: i64,
    pub model: String,
    pub effective_seconds: i64,
    pub effective_nanos: u32,
    pub backfill_before: bool,
    pub configuration: PriceInput,
}

/// A detected model name with its latest price version.
#[derive(Debug, Clone)]
pub struct DetectedModel {
    pub model: String,
    pub latest_price: Option<PriceVersion>,
}

/// The estimated cost of one observation under one price version; the amount is a
/// canonical integer of trillionths of a USD.
#[derive(Debug, Clone, PartialEq, Eq)]
pub struct Valuation {
    pub observation_id: i64,
    pub version_id: i64,
    pub model: String,
    pub amount: String,
    pub attribution_conflict: bool,
}

/// A model name is detected when it holds a character other than white space.
pub open spec fn detectable_of(model: Seq<char>) -> bool {
    exists|i: int| 0 <= i < model.len() && !white_space(#[trigger] model[i])
}

/// Whether a turn's model name is recorded among detected models.
pub fn detectable(model: Option<&str>) -> (result: bool)
    ensures
        result == match model {
            Some(m) => detectable_of(m@),
            None => false,
        },
{
    match model {
        None => false,
        Some(m) => {
            let chars = chars_of(m);
            let mut i: usize = 0;
            while i < chars.len()
                invariant
                    i <= chars@.len(),
                    chars@ == m@,
                    model == Some(m),
                    forall|k: int| 0 <= k < i ==> white_space(#[trigger] m@[k]),
                decreases chars@.len() - i,
            {
                if !is_white_space(chars[i]) {
                    assert(!white_space(m@[i as int]));
                    return true;
                }
                i = i + 1;
            }
            false
        },
    }
}

/// Strictly earlier canonical instant.
pub open spec fn earlier(a: (i64, u32), b: (i64, u32)) -> bool {
    a.0 < b.0 || (a.0 == b.0 && a.1 < b.1)
}

/// Whether a price version may be saved at `now`: its rates must validate, its
/// model must have been detected, the clock must be past the model's latest
/// version (with a valid nanosecond), and only a model's first version may apply
/// to earlier usage.
pub open spec fn save_check_of(
    configuration: PriceInput,
    detected: bool,
    last: Option<(i64, u32)>,
    now: (i64, u32),
    backfill_before: bool,
) -> Result<Rates, Error> {
    match configured_rates(configuration) {
        Err(e) => Err(e),
        Ok(rates) => if !detected {
            Err(Error::UnknownModel)
        } else if now.1 >= 1_000_000_000 || (last matches Some(p) && !earlier(p, now)) {
            Err(Error::Clock)
        } else if last is Some && backfill_before {
            Err(Error::BackfillOnlyFirst)
        } else {
            Ok(rates)
        },
    }
}

/// Checks a new price version before it is saved.
pub fn save_check(
    configuration: &PriceInput,
    detected: bool,
    last: Option<(i64, u32)>,
    now: (i64, u32),
    backfill_before: bool,
) -> (result: Result<Rates, Error>)
    ensures
        result == save_check_of(*configuration, detected, last, now, backfill_before),
{
    let rates = match configuration.validate() {
        Ok(r) => r,
        Err(e) => return Err(e),
    };
    if !detected {
        return Err(Error::UnknownModel);
    }
    let stale = match last {
        Some(p) => !(p.0 < now.0 || (p.0 == now.0 && p.1 < now.1)),
        None => false,
    };
    if now.1 >= 1_000_000_000 || stale {
        return Err(Error::Clock);
    }
    if last.is_some() && backfill_before {
        return Err(Error::BackfillOnlyFirst);
    }
    Ok(rates)
}

/// The version that prices an observation: the latest version effective at its
/// time, otherwise the model's first version when that one applies backwards.
pub fn select_version(at_time: Option<PriceVersion>, first: Option<PriceVersion>) -> (result: Option<
    PriceVersion,
>)
    ensures
        result == match at_time {
            Some(v) => Some(v),
            None => match first {
                Some(f) => if f.backfill_before {
                    Some(f)
                } else {
                    None
                },
                None => None,
            },
        },
{
    match at_time {
        Some(v) => Some(v),
        None => match first {
            Some(f) => if f.backfill_before {
                Some(f)
            } else {
                None
            },
            None => None,
        },
    }
}

/// The amount an observation is valued at: a stored configuration that no longer
/// validates is an error, while unsupported token semantics or an overflow leave
/// the observation without a valuation.
pub fn valuation_amount(configuration: &PriceInput, usage: &Tokens) -> (result: Result<
    Option<String>,
    Error,
>)
    ensures
        match configured_rates(*configuration) {
            Err(e) => result == Err::<Option<String>, Error>(e),
            Ok(rates) => match valuation(rates, usage) {
                Ok(amount) => result matches Ok(Some(t)) && t@ == decimal(amount as int),
                Err(_) => result matches Ok(None),
            },
        },
{
    let rates = match configuration.validate() {
        Ok(r) => r,
        Err(e) => return Err(e),
    };
    match rates.value(usage) {
        Ok(amount) => Ok(Some(i128_text(amount))),
        Err(_) => Ok(None),
    }
}

/// A page of the pricing catalog; a full page continues after its last model.
#[derive(Debug, Clone)]
pub struct CatalogPage {
    pub models: Vec<DetectedModel>,
    pub next_cursor: Option<String>,
}

/// The catalog page of a keyset read of at most 64 models.
pub fn catalog_page(models: Vec<DetectedModel>) -> (result: CatalogPage)
    ensures
        result.models == models,
        models@.len() == PRICING_BATCH_SIZE ==> result.next_cursor == Some(
            models@.last().model,
        ),
        models@.len() != PRICING_BATCH_SIZE ==> result.next_cursor is None,
{
    let next_cursor = if models.len() == PRICING_BATCH_SIZE {
        Some(models[models.len() - 1].model.clone())
    } else {
        None
    };
    CatalogPage { models, next_cursor }
}

/// A pricing request's failure as the settings screen shows it: a stable code,
/// the input field at fault, and a sentence.
#[derive(Debug, Clone)]
pub struct PricingError {
    pub code: &'static str,
    pub field: Option<&'static str>,
    pub message: String,
}

/// The code and field of a pricing rule's refusal.
pub open spec fn refusal_of(error: Error) -> (Seq<char>, Option<Seq<char>>) {
    match error {
        Error::InvalidRate { field } => ("invalid_rate"@, Some(field@)),
        Error::ReasoningRate => ("reasoning_rate"@, Some("reasoning"@)),
        Error::UnknownModel => ("unknown_model"@, None),
        Error::BackfillOnlyFirst => ("backfill_only_first"@, Some("backfillBefore"@)),
        Error::Clock => ("clock"@, None),
        _ => ("invalid_configuration"@, None),
    }
}

/// The failure shown for a pricing rule's refusal, with the rule's own sentence.
pub fn refusal(error: Error) -> (result: PricingError)
    ensures
        (result.code@, match result.field { Some(f) => Some(f@), None => None }) == refusal_of(
            error,
        ),
        result.message@ == error_message(error)@,
{
    let (code, field): (&'static str, Option<&'static str>) = match error {
        Error::InvalidRate { field } => ("invalid_rate", Some(field)),
        Error::ReasoningRate => ("reasoning_rate", Some("reasoning")),
        Error::UnknownModel => ("unknown_model", None),
        Error::BackfillOnlyFirst => ("backfill_only_first", Some("backfillBefore")),
        Error::Clock => ("clock", None),
        _ => ("invalid_configuration", None),
    };
    PricingError { code, field, message: owned(error.message()) }
}

/// The failure shown when storage failed.
pub fn storage_failure() -> (result: PricingError)
    ensures
        result.code@ == "storage"@,
        result.field is None,
        result.message@ == "The pricing operation failed. Reload models before retrying a save."@,
{
    PricingError {
        code: "storage",
        field: None,
        message: owned("The pricing operation failed. Reload models before retrying a save."),
    }
}

} // verus!
