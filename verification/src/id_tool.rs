//! Ids of instances: how they are made and written.

use std::str::FromStr;
use vstd::prelude::*;
use vstd::string::*;
use crate::error::{ErrorText, NatureError};
use crate::text::{digit, digit_char};

verus! {

/// The sixteen bytes of the version 3 UUID that the name `name` has in the
/// DNS namespace.
pub uninterp spec fn uuid_v3_dns(name: Seq<u8>) -> Seq<u8>;

/// The bytes of `uuid::Uuid::new_v3` for the DNS namespace and `name`. They
/// depend on `name` alone, and there are sixteen of them.
#[verifier::external_body]
fn name_uuid(name: &Vec<u8>) -> (r: Vec<u8>)
    ensures
        r@ == uuid_v3_dns(name@),
        r@.len() == 16,
{
    uuid::Uuid::new_v3(&uuid::Uuid::NAMESPACE_DNS, name.as_slice()).as_bytes().to_vec()
}

/// The number whose bytes are `b`, least significant first.
pub open spec fn le_value(b: Seq<u8>) -> nat
    decreases b.len(),
{
    if b.len() == 0 {
        0
    } else {
        b[0] as nat + 256 * le_value(b.drop_first())
    }
}

/// The number whose bytes are `b`, most significant first.
pub open spec fn be_value(b: Seq<u8>) -> nat {
    le_value(b.reverse())
}

/// Whether `v` is the number that the machine reads from the bytes `b`: in
/// one of the two byte orders, whichever the machine has.
pub open spec fn is_native_value(b: Seq<u8>, v: u128) -> bool {
    b.len() == 16 && (v == le_value(b) || v == be_value(b))
}

/// `u128::from_ne_bytes` on the first sixteen bytes of `vec`.
#[verifier::external_body]
fn from_native_bytes(vec: &Vec<u8>) -> (r: u128)
    requires
        vec@.len() >= 16,
    ensures
        is_native_value(vec@.take(16), r),
{
    let mut arr = [0u8; 16];
    arr.clone_from_slice(&vec[..16]);
    u128::from_ne_bytes(arr)
}

/// `u128::to_ne_bytes`.
#[verifier::external_body]
fn to_native_bytes(value: u128) -> (r: Vec<u8>)
    ensures
        is_native_value(r@, value),
{
    u128::to_ne_bytes(value).to_vec()
}

/// The id of the value whose serialized form is `bytes`: its version 3
/// UUID in the DNS namespace, read as a number in the machine's byte
/// order.
pub fn generate_id(bytes: &Vec<u8>) -> (r: u128)
    ensures
        is_native_value(uuid_v3_dns(bytes@), r),
{
    let uuid = name_uuid(bytes);
    assert(uuid@.take(16) =~= uuid@);
    from_native_bytes(&uuid)
}

/// The bytes of `value` in the machine's byte order.
pub fn u128_to_vec_u8(value: u128) -> (r: Vec<u8>)
    ensures
        is_native_value(r@, value),
{
    to_native_bytes(value)
}

/// The number that the first sixteen bytes of `vec` hold in the machine's
/// byte order.
pub fn vec_to_u128(vec: &Vec<u8>) -> (r: u128)
    requires
        vec@.len() >= 16,
    ensures
        is_native_value(vec@.take(16), r),
{
    from_native_bytes(vec)
}

/// Two hexadecimal digits in lower case for every byte of `bytes`.
pub open spec fn hex_text(bytes: Seq<u8>) -> Seq<char>
    decreases bytes.len(),
{
    if bytes.len() == 0 {
        Seq::empty()
    } else {
        hex_text(bytes.drop_last()).push(digit_char(bytes.last() as int / 16)).push(
            digit_char(bytes.last() as int % 16),
        )
    }
}

/// The bytes of `vec` in hexadecimal, two digits each.
pub fn vec_to_hex_string(vec: &[u8]) -> (r: String)
    ensures
        r@ == hex_text(vec@),
{
    let mut r = String::new();
    let mut i: usize = 0;
    assert(vec@.take(0) =~= Seq::empty());
    while i < vec.len()
        invariant
            i <= vec.len(),
            r@ == hex_text(vec@.take(i as int)),
        decreases vec.len() - i,
    {
        let b = vec[i];
        assert(vec@.take(i + 1).drop_last() =~= vec@.take(i as int));
        r.push(digit(b / 16));
        r.push(digit(b % 16));
        i += 1;
    }
    assert(vec@.take(i as int) =~= vec@);
    r
}

/// What `u64::from_str_radix` with the radix 16 gives for `s`: the number,
/// or the text of its error.
pub uninterp spec fn hex_parsed(s: Seq<char>) -> Result<u64, Seq<char>>;

/// `u64::from_str_radix(value, 16)`, with the error as its text. The
/// result depends on the characters of `value` alone.
#[verifier::external_body]
fn parse_hex(value: &str) -> (r: Result<u64, String>)
    ensures
        match r {
            Ok(v) => hex_parsed(value@) == Ok::<u64, Seq<char>>(v),
            Err(m) => hex_parsed(value@) == Err::<u64, Seq<char>>(m@),
        },
{
    match u64::from_str_radix(value, 16) {
        Ok(v) => Ok(v),
        Err(e) => Err(e.to_string()),
    }
}

/// The message for a text that is no id.
pub open spec fn bad_id_message(value: Seq<char>, why: Seq<char>) -> Seq<char> {
    "can't convert to id from "@ + value + ", err: "@ + why
}

/// What reading an id gives for the outcome `parsed` of reading the
/// number in `value`.
pub fn id_from_parsed(value: &str, parsed: Result<u64, String>) -> (r: Result<u64, NatureError>)
    ensures
        match parsed {
            Ok(v) => r == Ok::<u64, NatureError>(v),
            Err(m) => r matches Err(e) && e@ == ErrorText::VerifyError(
                bad_id_message(value@, m@),
            ),
        },
{
    match parsed {
        Ok(rtn) => Ok(rtn),
        Err(e) => {
            let mut msg = "can't convert to id from ".to_owned();
            msg.append(value);
            msg.append(", err: ");
            msg.append(e.as_str());
            Err(NatureError::VerifyError(msg))
        },
    }
}

/// The id that the hexadecimal text `value` stands for.
pub fn id_from_hex_str(value: &str) -> (r: Result<u64, NatureError>)
    ensures
        match hex_parsed(value@) {
            Ok(v) => r == Ok::<u64, NatureError>(v),
            Err(m) => r matches Err(e) && e@ == ErrorText::VerifyError(bad_id_message(value@, m)),
        },
{
    id_from_parsed(value, parse_hex(value))
}

/// What `u128::from_str` gives for `s`: the number, or the text of its
/// error.
pub uninterp spec fn u128_parsed(s: Seq<char>) -> Result<u128, Seq<char>>;

/// `u128::from_str(value)`, with the error as its text. The result depends
/// on the characters of `value` alone.
#[verifier::external_body]
pub(crate) fn parse_u128(value: &str) -> (r: Result<u128, String>)
    ensures
        match r {
            Ok(v) => u128_parsed(value@) == Ok::<u128, Seq<char>>(v),
            Err(m) => u128_parsed(value@) == Err::<u128, Seq<char>>(m@),
        },
{
    match u128::from_str(value) {
        Ok(v) => Ok(v),
        Err(e) => Err(e.to_string()),
    }
}

} // verus!
