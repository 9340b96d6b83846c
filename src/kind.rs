//! The numeric code of a buffer kind and its mapping onto `sspi::SecurityBufferType`.
use num_traits::{FromPrimitive, ToPrimitive};
use sspi::SecurityBufferType;
use vstd::prelude::*;

verus! {

/// `sspi`'s buffer kind, a field-less enum whose variants Verus reads as declared.
#[verifier::external_type_specification]
pub struct ExSecurityBufferType(sspi::SecurityBufferType);

/// The numeric code that the foreign interface uses for each buffer kind.
pub open spec fn kind_code(t: SecurityBufferType) -> u32 {
    match t {
        SecurityBufferType::Empty => 0,
        SecurityBufferType::Data => 1,
        SecurityBufferType::Token => 2,
        SecurityBufferType::TransportToPackageParameters => 3,
        SecurityBufferType::Missing => 4,
        SecurityBufferType::Extra => 5,
        SecurityBufferType::StreamTrailer => 6,
        SecurityBufferType::StreamHeader => 7,
        SecurityBufferType::NegotiationInfo => 8,
        SecurityBufferType::Padding => 9,
        SecurityBufferType::Stream => 10,
        SecurityBufferType::ObjectIdsList => 11,
        SecurityBufferType::ObjectIdsListSignature => 12,
        SecurityBufferType::Target => 13,
        SecurityBufferType::ChannelBindings => 14,
        SecurityBufferType::ChangePasswordResponse => 15,
        SecurityBufferType::TargetHost => 16,
        SecurityBufferType::Alert => 17,
        SecurityBufferType::ApplicationProtocol => 18,
        SecurityBufferType::AttributeMark => 0xF000_0000,
        SecurityBufferType::ReadOnly => 0x8000_0000,
        SecurityBufferType::ReadOnlyWithChecksum => 0x1000_0000,
    }
}

/// The kind whose code is `code`, if there is one.
pub open spec fn kind_of_code(code: u32) -> Option<SecurityBufferType> {
    match code {
        0 => Some(SecurityBufferType::Empty),
        1 => Some(SecurityBufferType::Data),
        2 => Some(SecurityBufferType::Token),
        3 => Some(SecurityBufferType::TransportToPackageParameters),
        4 => Some(SecurityBufferType::Missing),
        5 => Some(SecurityBufferType::Extra),
        6 => Some(SecurityBufferType::StreamTrailer),
        7 => Some(SecurityBufferType::StreamHeader),
        8 => Some(SecurityBufferType::NegotiationInfo),
        9 => Some(SecurityBufferType::Padding),
        10 => Some(SecurityBufferType::Stream),
        11 => Some(SecurityBufferType::ObjectIdsList),
        12 => Some(SecurityBufferType::ObjectIdsListSignature),
        13 => Some(SecurityBufferType::Target),
        14 => Some(SecurityBufferType::ChannelBindings),
        15 => Some(SecurityBufferType::ChangePasswordResponse),
        16 => Some(SecurityBufferType::TargetHost),
        17 => Some(SecurityBufferType::Alert),
        18 => Some(SecurityBufferType::ApplicationProtocol),
        0xF000_0000 => Some(SecurityBufferType::AttributeMark),
        0x8000_0000 => Some(SecurityBufferType::ReadOnly),
        0x1000_0000 => Some(SecurityBufferType::ReadOnlyWithChecksum),
        _ => None,
    }
}

/// Whether `code` names a buffer kind.
pub open spec fn is_known_code(code: u32) -> bool {
    kind_of_code(code) is Some
}

/// Reading back the code of a kind gives that kind.
pub proof fn lemma_kind_of_code_inverse(t: SecurityBufferType)
    ensures
        kind_of_code(kind_code(t)) == Some(t),
{
}

/// A known code names a kind with exactly that code.
pub proof fn lemma_code_of_kind_of_code(code: u32)
    requires
        is_known_code(code),
    ensures
        kind_code(kind_of_code(code)->Some_0) == code,
{
}

/// Relies on `num_traits::FromPrimitive::from_u32` as derived for
/// `SecurityBufferType`: the variant whose discriminant equals `code`, or `None`.
#[verifier::external_body]
fn security_buffer_type_from_code(code: u32) -> (r: Option<SecurityBufferType>)
    ensures
        r == kind_of_code(code),
{
    SecurityBufferType::from_u32(code)
}

/// Relies on `num_traits::ToPrimitive::to_u32` as derived for
/// `SecurityBufferType`: the variant's discriminant, which always fits in a `u32`.
#[verifier::external_body]
fn security_buffer_type_to_code(t: SecurityBufferType) -> (r: Option<u32>)
    ensures
        r == Some(kind_code(t)),
{
    t.to_u32()
}

/// The kind that `code` names, or `None` when it names none.
pub fn kind_from_code(code: u32) -> (r: Option<SecurityBufferType>)
    ensures
        r == kind_of_code(code),
        r matches Some(t) ==> kind_code(t) == code,
{
    let r = security_buffer_type_from_code(code);
    if r.is_some() {
        proof { lemma_code_of_kind_of_code(code); }
    }
    r
}

/// The code of a kind; every kind has one.
pub fn code_from_kind(t: SecurityBufferType) -> (r: u32)
    ensures
        r == kind_code(t),
        kind_of_code(r) == Some(t),
{
    proof { lemma_kind_of_code_inverse(t); }
    match security_buffer_type_to_code(t) {
        Some(c) => c,
        None => 0,
    }
}

} // verus!
