//! A price-attestation oracle: validates price queries, evaluates them against an
//! observed USD price, and lays the result out as the exact bytes that get signed.
pub mod calendar;
pub mod codec;
pub mod envelope;
pub mod error;
pub mod query;

pub use calendar::{days_before, format_date_dd_mm_yyyy, parse_date_dd_mm_yyyy, CalendarDate};
pub use codec::{fixed_to_usd_parts, price_to_fixed, UsdAmount};
pub use envelope::{signing_payload, PROCESS_DATA_SCOPE};
pub use error::OracleError;
pub use query::{
    get_two_days_before_today, plan_price_query, price_from_reply, process_data, validate_request,
    CryptoPriceRequest, CryptoPriceResponse, FeedReply, PriceLookup,
};
