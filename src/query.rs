use vstd::prelude::*;

use crate::calendar::{
    date_text, days_back, days_before, format_date_dd_mm_yyyy, parse_date_dd_mm_yyyy, parsed_date,
    CalendarDate,
};
use crate::codec::{fixed_price_of, price_to_fixed, UsdAmount};
use crate::error::OracleError;

verus! {

/// A question: proves that a price can be had, without disclosing it.
pub const KIND_QUESTION: u64 = 1;

/// An answer: discloses the price and compares it with the threshold.
pub const KIND_ANSWER: u64 = 2;

/// The condition holds when the observed price is at most the threshold.
pub const COMPARATOR_LESS_OR_EQUAL: u64 = 1;

/// The condition holds when the observed price is at least the threshold.
pub const COMPARATOR_GREATER_OR_EQUAL: u64 = 2;

pub const OUTCOME_UNSET: u64 = 0;

pub const OUTCOME_TRUE: u64 = 1;

pub const OUTCOME_FALSE: u64 = 2;

/// How many days before today a question looks up its price.
pub const QUESTION_LOOKBACK_DAYS: u32 = 2;

/// A price query. `price` is the threshold with nine implied decimals; `result`
/// is the output slot and must be zero on input.
pub struct CryptoPriceRequest {
    pub kind: u64,
    pub date: String,
    pub coin: String,
    pub comparator: u64,
    pub price: u64,
    pub result: u64,
}

/// The statement that gets signed: the query's fields, with `price` the observed
/// price (zero for a question) and `result` the outcome.
pub struct CryptoPriceResponse {
    pub kind: u64,
    pub date: String,
    pub coin: String,
    pub comparator: u64,
    pub price: u64,
    pub result: u64,
}

/// A price lookup to be made at the price feed.
pub struct PriceLookup {
    pub coin: String,
    pub date: String,
}

/// What the price feed answered to a lookup.
#[derive(Debug, Clone, Copy, PartialEq, Eq, Structural)]
pub enum FeedReply {
    /// The feed could not be reached.
    Unavailable,
    /// The reply was not a readable document.
    Malformed,
    /// The document held no USD price for the date.
    NoPrice,
    /// The USD price the document held.
    Price(UsdAmount),
}

/// The first validation failure of a request, if any: the result slot, then the
/// date, then the comparator, then the kind.
pub open spec fn request_error(req: CryptoPriceRequest) -> Option<OracleError> {
    if req.result != 0 {
        Some(OracleError::InvalidResultSlot)
    } else if parsed_date(req.date@) is None {
        Some(OracleError::InvalidDate)
    } else if req.comparator != COMPARATOR_LESS_OR_EQUAL && req.comparator != COMPARATOR_GREATER_OR_EQUAL {
        Some(OracleError::InvalidComparator)
    } else if req.kind != KIND_QUESTION && req.kind != KIND_ANSWER {
        Some(OracleError::InvalidKind)
    } else {
        None
    }
}

/// The fixed-point price a feed reply gives, or the failure it stands for.
pub open spec fn reply_price(reply: FeedReply) -> Result<u64, OracleError> {
    match reply {
        FeedReply::Unavailable => Err(OracleError::SourceUnavailable),
        FeedReply::Malformed => Err(OracleError::SourceMalformed),
        FeedReply::NoPrice => Err(OracleError::PriceNotFound),
        FeedReply::Price(a) => fixed_price_of(a),
    }
}

pub open spec fn condition_met(comparator: u64, observed: u64, threshold: u64) -> bool {
    if comparator == COMPARATOR_LESS_OR_EQUAL {
        observed <= threshold
    } else {
        observed >= threshold
    }
}

/// The price an attestation discloses: none for a question.
pub open spec fn attested_price(req: CryptoPriceRequest, observed: u64) -> u64 {
    if req.kind == KIND_QUESTION {
        0
    } else {
        observed
    }
}

/// The outcome an attestation carries: unset for a question, else whether the
/// observed price meets the threshold.
pub open spec fn attested_outcome(req: CryptoPriceRequest, observed: u64) -> u64 {
    if req.kind == KIND_QUESTION {
        OUTCOME_UNSET
    } else if condition_met(req.comparator, observed, req.price) {
        OUTCOME_TRUE
    } else {
        OUTCOME_FALSE
    }
}

/// Checks a request in the order the result slot, the date, the comparator, the
/// kind, and returns the first failure.
pub fn validate_request(req: &CryptoPriceRequest) -> (r: Result<(), OracleError>)
    ensures
        r is Ok <==> request_error(*req) is None,
        r matches Err(e) ==> request_error(*req) == Some(e),
{
    if req.result != 0 {
        return Err(OracleError::InvalidResultSlot);
    }
    if parse_date_dd_mm_yyyy(req.date.as_str()).is_err() {
        return Err(OracleError::InvalidDate);
    }
    if req.comparator != COMPARATOR_LESS_OR_EQUAL && req.comparator != COMPARATOR_GREATER_OR_EQUAL {
        return Err(OracleError::InvalidComparator);
    }
    if req.kind != KIND_QUESTION && req.kind != KIND_ANSWER {
        return Err(OracleError::InvalidKind);
    }
    Ok(())
}

/// The date two days before `today`, written `DD-MM-YYYY`; `CalendarUnderflow`
/// exactly where that day falls before year 0.
pub fn get_two_days_before_today(today: &CalendarDate) -> (r: Result<String, OracleError>)
    requires
        today.wf(),
    ensures
        r matches Ok(s) ==> ({
            let back = days_back(
                today.year as int,
                today.month as int,
                today.day as int,
                QUESTION_LOOKBACK_DAYS as nat,
            );
            s@ == date_text(back.0, back.1, back.2)
        }),
        r matches Err(e) ==> e == OracleError::CalendarUnderflow,
        r is Ok <==> days_back(
            today.year as int,
            today.month as int,
            today.day as int,
            QUESTION_LOOKBACK_DAYS as nat,
        ).0 >= 0,
{
    let back = days_before(today, QUESTION_LOOKBACK_DAYS)?;
    Ok(format_date_dd_mm_yyyy(&back))
}

/// The price lookup a valid request needs: an answer looks up its own date, a
/// question the day two days before `today`. An invalid request fails here,
/// before any lookup is made.
pub fn plan_price_query(req: &CryptoPriceRequest, today: &CalendarDate) -> (r: Result<PriceLookup, OracleError>)
    requires
        today.wf(),
    ensures
        request_error(*req) matches Some(e) ==> r == Err::<PriceLookup, OracleError>(e),
        request_error(*req) is None && req.kind == KIND_ANSWER ==> (r matches Ok(l) && l.coin@
            == req.coin@ && l.date@ == req.date@),
        request_error(*req) is None && req.kind == KIND_QUESTION ==> {
            let back = days_back(
                today.year as int,
                today.month as int,
                today.day as int,
                QUESTION_LOOKBACK_DAYS as nat,
            );
            &&& r matches Ok(l) ==> l.coin@ == req.coin@ && l.date@ == date_text(back.0, back.1, back.2)
            &&& r matches Err(e) ==> e == OracleError::CalendarUnderflow
            &&& r is Ok <==> back.0 >= 0
        },
{
    validate_request(req)?;
    let date = if req.kind == KIND_QUESTION {
        let back = days_before(today, QUESTION_LOOKBACK_DAYS)?;
        format_date_dd_mm_yyyy(&back)
    } else {
        req.date.clone()
    };
    Ok(PriceLookup { coin: req.coin.clone(), date })
}

/// The fixed-point price a feed reply gives, or the failure it stands for.
pub fn price_from_reply(reply: FeedReply) -> (r: Result<u64, OracleError>)
    ensures
        r == reply_price(reply),
{
    match reply {
        FeedReply::Unavailable => Err(OracleError::SourceUnavailable),
        FeedReply::Malformed => Err(OracleError::SourceMalformed),
        FeedReply::NoPrice => Err(OracleError::PriceNotFound),
        FeedReply::Price(a) => price_to_fixed(a),
    }
}

/// Answers a request from the feed's reply to its lookup (see `plan_price_query`).
/// A question discloses no price and no outcome; an answer discloses the observed
/// price and whether it meets the threshold under the comparator. Both kinds echo
/// the request's date, coin, kind and comparator.
pub fn process_data(req: &CryptoPriceRequest, reply: FeedReply) -> (r: Result<CryptoPriceResponse, OracleError>)
    ensures
        request_error(*req) matches Some(e) ==> r == Err::<CryptoPriceResponse, OracleError>(e),
        request_error(*req) is None ==> match reply_price(reply) {
            Err(e) => r == Err::<CryptoPriceResponse, OracleError>(e),
            Ok(observed) => r matches Ok(resp) && resp.kind == req.kind && resp.date@ == req.date@
                && resp.coin@ == req.coin@ && resp.comparator == req.comparator && resp.price
                == attested_price(*req, observed) && resp.result == attested_outcome(*req, observed),
        },
{
    validate_request(req)?;
    let observed = price_from_reply(reply)?;
    let (price, result) = if req.kind == KIND_QUESTION {
        (0, OUTCOME_UNSET)
    } else {
        let met = if req.comparator == COMPARATOR_LESS_OR_EQUAL {
            observed <= req.price
        } else {
            observed >= req.price
        };
        (observed, if met { OUTCOME_TRUE } else { OUTCOME_FALSE })
    };
    Ok(
        CryptoPriceResponse {
            kind: req.kind,
            date: req.date.clone(),
            coin: req.coin.clone(),
            comparator: req.comparator,
            price,
            result,
        },
    )
}

/// A question never discloses a price or an outcome, whatever price was observed.
pub proof fn lemma_question_discloses_nothing(req: CryptoPriceRequest, observed: u64)
    requires
        req.kind == KIND_QUESTION,
    ensures
        attested_price(req, observed) == 0,
        attested_outcome(req, observed) == OUTCOME_UNSET,
{
}

/// An answer discloses the observed price, and its outcome is true exactly when
/// the observed price meets the threshold: at least it under greater-or-equal, at
/// most it under less-or-equal; false otherwise.
pub proof fn lemma_answer_outcome(req: CryptoPriceRequest, observed: u64)
    requires
        req.kind == KIND_ANSWER,
        req.comparator == COMPARATOR_LESS_OR_EQUAL || req.comparator == COMPARATOR_GREATER_OR_EQUAL,
    ensures
        attested_price(req, observed) == observed,
        req.comparator == COMPARATOR_GREATER_OR_EQUAL ==> (observed >= req.price <==> attested_outcome(
            req,
            observed,
        ) == OUTCOME_TRUE),
        req.comparator == COMPARATOR_GREATER_OR_EQUAL ==> (observed < req.price <==> attested_outcome(
            req,
            observed,
        ) == OUTCOME_FALSE),
        req.comparator == COMPARATOR_LESS_OR_EQUAL ==> (observed <= req.price <==> attested_outcome(
            req,
            observed,
        ) == OUTCOME_TRUE),
        req.comparator == COMPARATOR_LESS_OR_EQUAL ==> (observed > req.price <==> attested_outcome(
            req,
            observed,
        ) == OUTCOME_FALSE),
{
}

/// A request whose result slot is set fails with `InvalidResultSlot`, whatever
/// its other fields: `plan_price_query` returns that error, so no lookup is made,
/// and `process_data` returns it whatever the feed replied.
pub proof fn lemma_result_slot_checked_first(req: CryptoPriceRequest)
    requires
        req.result != 0,
    ensures
        request_error(req) == Some(OracleError::InvalidResultSlot),
{
}

} // verus!
