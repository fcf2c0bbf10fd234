use vstd::prelude::*;

verus! {

/// The text that stands for the 128-bit identity `value` on the wire: its
/// canonical form of 32 lower-case hexadecimal digits in five groups with
/// hyphens between them.
pub uninterp spec fn uuid_hyphenated(value: u128) -> Seq<char>;

/// Whether `value` carries the marks of a randomly drawn identity: version
/// four in bits 76 to 79, and the two bits 62 and 63 set to one and zero.
pub open spec fn is_random_uuid(value: u128) -> bool {
    (value & 0x0000_0000_0000_f000_c000_0000_0000_0000u128)
        == 0x0000_0000_0000_4000_8000_0000_0000_0000u128
}

/// Draws a fresh identity with `uuid::Uuid::new_v4` and hands out its
/// 128-bit value. Trusted: the value is random but for the version and
/// variant bits, which that function always sets as `is_random_uuid` says.
#[verifier::external_body]
pub(crate) fn random_uuid() -> (value: u128)
    ensures
        is_random_uuid(value),
{
    uuid::Uuid::new_v4().as_u128()
}

/// Formats `value` as `uuid::Uuid` displays it. Trusted: the text is the
/// canonical hyphenated form of the value and depends on nothing else.
#[verifier::external_body]
pub(crate) fn hyphenated(value: u128) -> (text: String)
    ensures
        text@ == uuid_hyphenated(value),
{
    uuid::Uuid::from_u128(value).to_string()
}

} // verus!
