use prost::Message as ProstMessage;
use vstd::prelude::*;
use vstd::utf8::encode_utf8;

verus! {

/// The protobuf varint of `n`: seven bits a byte, least significant first,
/// the high bit set on every byte but the last.
pub open spec fn varint(n: nat) -> Seq<u8>
    decreases n,
{
    if n < 128 {
        seq![n as u8]
    } else {
        seq![(n % 128 + 128) as u8] + varint(n / 128)
    }
}

/// An integer as a protobuf wrapper message (`Int32Value`, `Int64Value`)
/// encodes it: nothing for zero, else the key of field 1 with the varint wire
/// type, then the integer as a varint, a negative one as its 64-bit two's
/// complement.
pub open spec fn proto_int_message(v: int) -> Seq<u8> {
    if v == 0 {
        seq![]
    } else {
        seq![8u8] + varint(
            (if v < 0 {
                v + 0x1_0000_0000_0000_0000
            } else {
                v
            }) as nat,
        )
    }
}

/// A string as a protobuf wrapper message (`StringValue`) encodes it:
/// nothing for the empty string, else the key of field 1 with the
/// length-delimited wire type, the length of its UTF-8 bytes as a varint,
/// then those bytes.
pub open spec fn proto_string_message(s: Seq<char>) -> Seq<u8> {
    if s.len() == 0 {
        seq![]
    } else {
        seq![10u8] + varint(encode_utf8(s).len()) + encode_utf8(s)
    }
}

/// A message's bytes with their length in front, as a varint.
pub open spec fn length_delimited(body: Seq<u8>) -> Seq<u8> {
    varint(body.len()) + body
}

/// prost's `Message::encode_to_vec` for `i32` (`google.protobuf.Int32Value`).
/// Claimed: the bytes are `proto_int_message` of the value.
#[verifier::external_body]
pub(crate) fn encode_i32(x: i32) -> (r: Vec<u8>)
    ensures
        r@ == proto_int_message(x as int),
{
    x.encode_to_vec()
}

/// prost's `Message::encode_length_delimited_to_vec` for `i32`. Claimed: the
/// bytes are `proto_int_message` of the value with its length in front.
#[verifier::external_body]
pub(crate) fn encode_i32_delimited(x: i32) -> (r: Vec<u8>)
    ensures
        r@ == length_delimited(proto_int_message(x as int)),
{
    x.encode_length_delimited_to_vec()
}

/// prost's `Message::encode_to_vec` for `i64` (`google.protobuf.Int64Value`).
/// Claimed: the bytes are `proto_int_message` of the value.
#[verifier::external_body]
pub(crate) fn encode_i64(x: i64) -> (r: Vec<u8>)
    ensures
        r@ == proto_int_message(x as int),
{
    x.encode_to_vec()
}

/// prost's `Message::encode_length_delimited_to_vec` for `i64`. Claimed: the
/// bytes are `proto_int_message` of the value with its length in front.
#[verifier::external_body]
pub(crate) fn encode_i64_delimited(x: i64) -> (r: Vec<u8>)
    ensures
        r@ == length_delimited(proto_int_message(x as int)),
{
    x.encode_length_delimited_to_vec()
}

/// prost's `Message::encode_to_vec` for `String`
/// (`google.protobuf.StringValue`). Claimed: the bytes are
/// `proto_string_message` of the string.
#[verifier::external_body]
pub(crate) fn encode_string(s: &String) -> (r: Vec<u8>)
    ensures
        r@ == proto_string_message(s@),
{
    s.encode_to_vec()
}

/// prost's `Message::encode_length_delimited_to_vec` for `String`. Claimed:
/// the bytes are `proto_string_message` of the string with its length in
/// front.
#[verifier::external_body]
pub(crate) fn encode_string_delimited(s: &String) -> (r: Vec<u8>)
    ensures
        r@ == length_delimited(proto_string_message(s@)),
{
    s.encode_length_delimited_to_vec()
}

} // verus!
