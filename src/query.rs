use vstd::arithmetic::power2::pow2;
use vstd::prelude::*;
use vstd::utf8::encode_utf8;

use cosmwasm_std::{StdError, Uint256};

use crate::digits::{all_digits, decimal_u64, digits_value, parse_decimal};
use crate::error::TimestampError;
use crate::timestamp::{convert_iso_string_to_timestamp, timestamp_of};

verus! {

#[verifier::external_type_specification]
#[verifier::external_body]
pub struct ExUint256(Uint256);

#[verifier::external_type_specification]
#[verifier::external_body]
pub struct ExStdError(StdError);

pub const PLUS: u8 = 43;

/// The digits of an unsigned number, without one leading `+` sign.
pub open spec fn unsigned_digits(b: Seq<u8>) -> Seq<u8> {
    if b.len() > 0 && b[0] == PLUS {
        b.drop_first()
    } else {
        b
    }
}

/// An unsigned integer in the text form that Rust's integer parsing takes:
/// an optional `+`, then at least one decimal digit, with a value that fits.
pub open spec fn unsigned_u64(b: Seq<u8>) -> Option<u64> {
    decimal_u64(unsigned_digits(b))
}

/// Text that reads as a 256-bit unsigned integer.
pub open spec fn is_uint256_text(b: Seq<u8>) -> bool {
    let d = unsigned_digits(b);
    d.len() > 0 && all_digits(d) && digits_value(d) < pow2(256)
}

/// Relies on cosmwasm_std's `Uint256::from_str`: it refuses an empty string
/// and otherwise reads an optional `+` and decimal digits, refusing any other
/// byte and any value of 2^256 or more.
#[verifier::external_body]
fn parse_uint256(s: &str) -> (r: Result<Uint256, StdError>)
    ensures
        r is Ok <==> is_uint256_text(encode_utf8(s@)),
{
    <Uint256 as std::str::FromStr>::from_str(s)
}

/// Reads an unsigned integer as `u64::from_str` does.
pub fn parse_unsigned(s: &str) -> (r: Option<u64>)
    ensures
        r == unsigned_u64(encode_utf8(s@)),
{
    let b = s.as_bytes();
    if b.len() > 0 && b[0] == PLUS {
        let digits = vstd::slice::slice_subrange(b, 1, b.len());
        assert(digits@ =~= b@.drop_first());
        parse_decimal(digits)
    } else {
        parse_decimal(b)
    }
}

/// A price as the oracle reports it: every number written as text.
#[derive(Clone, Debug, PartialEq)]
pub struct QuotePriceRaw {
    pub price: String,
    pub block_timestamp: String,
    pub block_height: String,
}

#[derive(Clone, Debug, PartialEq)]
pub struct GetPriceResponseRaw {
    pub price: QuotePriceRaw,
    pub nonce: String,
    pub decimals: String,
    pub id: String,
}

#[derive(Clone, Debug, PartialEq)]
pub struct GetPricesResponseRaw {
    pub prices: Vec<GetPriceResponseRaw>,
}

/// A price with its numbers read; `block_timestamp` counts nanoseconds since
/// 1970-01-01T00:00:00Z.
#[derive(Debug, PartialEq)]
pub struct QuotePrice {
    pub price: Uint256,
    pub block_timestamp: u64,
    pub block_height: u64,
}

#[derive(Debug, PartialEq)]
pub struct GetPriceResponse {
    pub price: QuotePrice,
    pub nonce: u64,
    pub decimals: u64,
    pub id: u64,
}

#[derive(Debug, PartialEq)]
pub struct GetPricesResponse {
    pub prices: Vec<GetPriceResponse>,
}

#[derive(Clone, Debug, PartialEq)]
pub struct GetAllCurrencyPairsResponse {
    pub currency_pairs: Vec<CurrencyPairResponse>,
}

#[derive(Clone, Debug, PartialEq)]
#[allow(non_snake_case)]
pub struct CurrencyPairResponse {
    pub Base: String,
    pub Quote: String,
}

/// A numeric field of an oracle price record.
#[derive(Clone, Copy, Debug, PartialEq, Eq, Structural)]
pub enum PriceField {
    Price,
    BlockHeight,
    Nonce,
    Decimals,
    Id,
}

/// Why an oracle price record could not be read.
#[derive(Clone, Copy, Debug, PartialEq, Eq, Structural)]
pub enum ConversionError {
    InvalidNumber { field: PriceField },
    InvalidTimestamp { error: TimestampError },
}

/// The first field of a raw record that does not read, in the order price,
/// block timestamp, block height, nonce, decimals, id.
pub open spec fn raw_price_error(raw: GetPriceResponseRaw) -> Option<ConversionError> {
    if !is_uint256_text(encode_utf8(raw.price.price@)) {
        Some(ConversionError::InvalidNumber { field: PriceField::Price })
    } else if timestamp_of(encode_utf8(raw.price.block_timestamp@)) is Err {
        Some(
            ConversionError::InvalidTimestamp {
                error: timestamp_of(encode_utf8(raw.price.block_timestamp@))->Err_0,
            },
        )
    } else if unsigned_u64(encode_utf8(raw.price.block_height@)) is None {
        Some(ConversionError::InvalidNumber { field: PriceField::BlockHeight })
    } else if unsigned_u64(encode_utf8(raw.nonce@)) is None {
        Some(ConversionError::InvalidNumber { field: PriceField::Nonce })
    } else if unsigned_u64(encode_utf8(raw.decimals@)) is None {
        Some(ConversionError::InvalidNumber { field: PriceField::Decimals })
    } else if unsigned_u64(encode_utf8(raw.id@)) is None {
        Some(ConversionError::InvalidNumber { field: PriceField::Id })
    } else {
        None
    }
}

/// `resp` holds the numbers that `raw` writes (the price is carried as read).
pub open spec fn reads_as(raw: GetPriceResponseRaw, resp: GetPriceResponse) -> bool {
    &&& timestamp_of(encode_utf8(raw.price.block_timestamp@)) == Ok::<u64, TimestampError>(
        resp.price.block_timestamp,
    )
    &&& unsigned_u64(encode_utf8(raw.price.block_height@)) == Some(resp.price.block_height)
    &&& unsigned_u64(encode_utf8(raw.nonce@)) == Some(resp.nonce)
    &&& unsigned_u64(encode_utf8(raw.decimals@)) == Some(resp.decimals)
    &&& unsigned_u64(encode_utf8(raw.id@)) == Some(resp.id)
}

/// Reads the numbers of an oracle price record, converting its timestamp
/// string to nanoseconds since the epoch.
pub fn convert_raw_price_response(raw_response: &GetPriceResponseRaw) -> (r: Result<
    GetPriceResponse,
    ConversionError,
>)
    ensures
        r is Err <==> raw_price_error(*raw_response) is Some,
        r is Err ==> r->Err_0 == raw_price_error(*raw_response)->Some_0,
        r is Ok ==> reads_as(*raw_response, r->Ok_0),
{
    let price = match parse_uint256(raw_response.price.price.as_str()) {
        Ok(p) => p,
        Err(_) => return Err(ConversionError::InvalidNumber { field: PriceField::Price }),
    };
    let block_timestamp = match convert_iso_string_to_timestamp(&raw_response.price.block_timestamp) {
        Ok(t) => t,
        Err(error) => return Err(ConversionError::InvalidTimestamp { error }),
    };
    let block_height = match parse_unsigned(raw_response.price.block_height.as_str()) {
        Some(v) => v,
        None => return Err(ConversionError::InvalidNumber { field: PriceField::BlockHeight }),
    };
    let nonce = match parse_unsigned(raw_response.nonce.as_str()) {
        Some(v) => v,
        None => return Err(ConversionError::InvalidNumber { field: PriceField::Nonce }),
    };
    let decimals = match parse_unsigned(raw_response.decimals.as_str()) {
        Some(v) => v,
        None => return Err(ConversionError::InvalidNumber { field: PriceField::Decimals }),
    };
    let id = match parse_unsigned(raw_response.id.as_str()) {
        Some(v) => v,
        None => return Err(ConversionError::InvalidNumber { field: PriceField::Id }),
    };
    Ok(
        GetPriceResponse {
            price: QuotePrice { price, block_timestamp, block_height },
            nonce,
            decimals,
            id,
        },
    )
}

/// Reads every record of a raw prices response, in order; the error is that
/// of the first record that does not read.
pub fn convert_raw_prices_response(raw: &GetPricesResponseRaw) -> (r: Result<
    GetPricesResponse,
    ConversionError,
>)
    ensures
        r is Ok <==> forall|i: int|
            0 <= i < raw.prices@.len() ==> raw_price_error(#[trigger] raw.prices@[i]) is None,
        r is Ok ==> r->Ok_0.prices@.len() == raw.prices@.len() && forall|i: int|
            0 <= i < raw.prices@.len() ==> reads_as(
                #[trigger] raw.prices@[i],
                r->Ok_0.prices@[i],
            ),
        r is Err ==> exists|k: int|
            0 <= k < raw.prices@.len() && (forall|i: int|
                0 <= i < k ==> raw_price_error(#[trigger] raw.prices@[i]) is None)
                && raw_price_error(raw.prices@[k]) == Some(r->Err_0),
{
    let mut prices: Vec<GetPriceResponse> = Vec::new();
    let mut i: usize = 0;
    while i < raw.prices.len()
        invariant
            i <= raw.prices@.len(),
            prices@.len() == i,
            forall|j: int| 0 <= j < i ==> raw_price_error(#[trigger] raw.prices@[j]) is None,
            forall|j: int| 0 <= j < i ==> reads_as(#[trigger] raw.prices@[j], prices@[j]),
        decreases raw.prices@.len() - i,
    {
        match convert_raw_price_response(&raw.prices[i]) {
            Ok(p) => prices.push(p),
            Err(e) => return Err(e),
        }
        i += 1;
    }
    Ok(GetPricesResponse { prices })
}

} // verus!
