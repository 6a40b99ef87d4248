use vstd::prelude::*;
use vstd::utf8::encode_utf8;

verus! {

#[verifier::external_type_specification]
#[verifier::external_body]
pub struct ExProtobufError(protobuf::Error);

/// Largest field number that the protobuf wire format allows.
pub const FIELD_NUMBER_MAX: u32 = 0x1fffffff;

/// Field number of `currency_pair` in a price request, of `Base` in a
/// currency pair, and of `currency_pair_ids` in a prices request.
pub const FIELD_ONE: u32 = 1;

/// Field number of `Quote` in a currency pair.
pub const FIELD_TWO: u32 = 2;

/// The wire bytes of one length-delimited protobuf field: its tag, the
/// length as a varint, then the payload.
pub uninterp spec fn length_delimited_field(field: u32, payload: Seq<u8>) -> Seq<u8>;

/// Relies on protobuf's `CodedOutputStream::write_bytes` (with `flush`) on a
/// vector: it writes the tag of `field` with the length-delimited wire type,
/// the payload length as a varint and the payload. Writing the tag asserts that
/// the field number is in range; the length is taken as a `u32`.
#[verifier::external_body]
fn write_length_delimited(field: u32, payload: &[u8]) -> (r: Result<Vec<u8>, protobuf::Error>)
    requires
        1 <= field <= FIELD_NUMBER_MAX,
        payload@.len() <= u32::MAX,
    ensures
        r is Ok ==> r->Ok_0@ == length_delimited_field(field, payload@),
{
    let mut out = Vec::new();
    {
        let mut os = protobuf::CodedOutputStream::vec(&mut out);
        os.write_bytes(field, payload)?;
        os.flush()?;
    }
    Ok(out)
}

/// Why a request could not be encoded.
#[derive(Clone, Copy, Debug, PartialEq, Eq, Structural)]
pub enum EncodeError {
    /// A field is longer than a protobuf length prefix can state.
    TooLong,
    /// The protobuf writer reported an error.
    Writer,
}

/// A proto3 string field: nothing when the string is empty.
pub open spec fn string_field(field: u32, s: Seq<char>) -> Seq<u8> {
    if s.len() == 0 {
        Seq::empty()
    } else {
        length_delimited_field(field, encode_utf8(s))
    }
}

/// A currency pair message: `Base` as field 1, `Quote` as field 2.
pub open spec fn currency_pair_bytes(base: Seq<char>, quote: Seq<char>) -> Seq<u8> {
    string_field(FIELD_ONE, base) + string_field(FIELD_TWO, quote)
}

/// A price request: the currency pair, always present, as field 1.
pub open spec fn price_request_bytes(base: Seq<char>, quote: Seq<char>) -> Seq<u8> {
    length_delimited_field(FIELD_ONE, currency_pair_bytes(base, quote))
}

/// A prices request: each pair id, empty or not, as a repeated field 1.
pub open spec fn prices_request_bytes(ids: Seq<String>) -> Seq<u8>
    decreases ids.len(),
{
    if ids.len() == 0 {
        Seq::empty()
    } else {
        prices_request_bytes(ids.drop_last()) + length_delimited_field(
            FIELD_ONE,
            encode_utf8(ids.last()@),
        )
    }
}

fn field_bytes(field: u32, payload: &[u8]) -> (r: Result<Vec<u8>, EncodeError>)
    requires
        1 <= field <= FIELD_NUMBER_MAX,
    ensures
        r is Ok ==> r->Ok_0@ == length_delimited_field(field, payload@),
        payload@.len() > u32::MAX ==> r == Err::<Vec<u8>, EncodeError>(EncodeError::TooLong),
{
    if payload.len() > u32::MAX as usize {
        return Err(EncodeError::TooLong);
    }
    match write_length_delimited(field, payload) {
        Ok(v) => Ok(v),
        Err(_) => Err(EncodeError::Writer),
    }
}

fn string_field_bytes(field: u32, s: &str) -> (r: Result<Vec<u8>, EncodeError>)
    requires
        1 <= field <= FIELD_NUMBER_MAX,
    ensures
        r is Ok ==> r->Ok_0@ == string_field(field, s@),
{
    if s.is_empty() {
        return Ok(Vec::new());
    }
    field_bytes(field, s.as_bytes())
}

/// Encodes the request for the price of `base` in `quote`.
pub fn encode_get_price_request(base: &String, quote: &String) -> (r: Result<Vec<u8>, EncodeError>)
    ensures
        r is Ok ==> r->Ok_0@ == price_request_bytes(base@, quote@),
{
    let mut pair = string_field_bytes(FIELD_ONE, base.as_str())?;
    let mut q = string_field_bytes(FIELD_TWO, quote.as_str())?;
    pair.append(&mut q);
    field_bytes(FIELD_ONE, pair.as_slice())
}

/// Encodes the request for the prices of the pairs `pair_ids`, in order.
pub fn encode_get_prices_request(pair_ids: &Vec<String>) -> (r: Result<Vec<u8>, EncodeError>)
    ensures
        r is Ok ==> r->Ok_0@ == prices_request_bytes(pair_ids@),
{
    let mut out: Vec<u8> = Vec::new();
    let mut i: usize = 0;
    while i < pair_ids.len()
        invariant
            i <= pair_ids@.len(),
            out@ == prices_request_bytes(pair_ids@.subrange(0, i as int)),
        decreases pair_ids@.len() - i,
    {
        let mut piece = field_bytes(FIELD_ONE, pair_ids[i].as_str().as_bytes())?;
        assert(pair_ids@.subrange(0, i + 1).drop_last() =~= pair_ids@.subrange(0, i as int));
        out.append(&mut piece);
        i += 1;
    }
    assert(pair_ids@.subrange(0, i as int) =~= pair_ids@);
    Ok(out)
}

/// Encodes the request for all currency pairs: a message without fields.
pub fn encode_get_all_currency_pairs_request() -> (r: Vec<u8>)
    ensures
        r@ == Seq::<u8>::empty(),
{
    Vec::new()
}

} // verus!
