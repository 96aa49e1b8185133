//! The calls this library makes into other crates. The contract of each call
//! is taken on trust: it records what the called function is relied on to do.

use vstd::prelude::*;

verus! {

/// Whether a byte string of this length can be encoded: its Base64 text, four
/// characters for every three bytes begun, must not be longer than the
/// longest allocation the machine allows.
pub open spec fn encodable(len: nat) -> bool {
    4 * ((len + 2) / 3) <= isize::MAX
}

/// The standard, padded Base64 text of `data`, as `base64::encode` produces it.
pub uninterp spec fn base64_text(data: Seq<u8>) -> Seq<char>;

/// The hyphenated lower-case text of the UUID with the 128-bit value `id`, as
/// `uuid::Uuid` displays it.
pub uninterp spec fn uuid_text(id: u128) -> Seq<char>;

/// Calls `base64::encode`. The result depends on the bytes alone. The encoder
/// panics when the size of its output overflows or exceeds what can be
/// allocated, which the bound on the input's length rules out.
#[verifier::external_body]
pub(crate) fn base64_encode(data: &[u8]) -> (text: String)
    requires
        encodable(data@.len()),
    ensures
        text@ == base64_text(data@),
{
    base64::encode(data)
}

/// Calls `uuid::Uuid::from_u128` and formats the result with the type's
/// `Display`, which writes the hyphenated lower-case form. The result depends
/// on the value alone.
#[verifier::external_body]
pub(crate) fn uuid_to_text(id: u128) -> (text: String)
    ensures
        text@ == uuid_text(id),
{
    uuid::Uuid::from_u128(id).to_string()
}

/// Calls `chrono::Utc::now` and takes its `timestamp_millis`: milliseconds
/// since the Unix epoch by the system clock. Nothing is claimed of the value.
/// `Utc::now` fails only where the system clock reads earlier than that epoch.
#[verifier::external_body]
pub(crate) fn unix_millis_now() -> i64 {
    chrono::Utc::now().timestamp_millis()
}

/// Tells whether a byte string of `len` bytes can be encoded.
pub fn is_encodable(len: usize) -> (fits: bool)
    ensures
        fits == encodable(len as nat),
{
    let groups: usize = if len % 3 == 0 {
        len / 3
    } else {
        len / 3 + 1
    };
    groups <= isize::MAX as usize / 4
}

/// Makes `tokio_util::sync::CancellationToken` known as an opaque type.
#[verifier::external_type_specification]
#[verifier::external_body]
pub struct ExCancellationToken(tokio_util::sync::CancellationToken);

/// Calls `CancellationToken::new`, which makes a token that is not cancelled
/// and is linked to no other token.
#[verifier::external_body]
pub(crate) fn new_scope() -> tokio_util::sync::CancellationToken {
    tokio_util::sync::CancellationToken::new()
}

/// Calls `CancellationToken::cancel`, which cancels the token, its clones and
/// the tokens derived from it. The token's state lies behind a shared
/// reference, so no contract can speak of it.
#[verifier::external_body]
pub(crate) fn cancel_scope(scope: &tokio_util::sync::CancellationToken) {
    scope.cancel()
}

/// Calls `CancellationToken::clone`. The clone holds the same shared
/// cancellation state as the token it was made from, so that each is
/// cancelled whenever the other is; the crate's own equality calls the two
/// equal. The contract says no more than that: the clone is the same token.
#[verifier::external_body]
pub(crate) fn share_scope(scope: &tokio_util::sync::CancellationToken) -> (handle:
    tokio_util::sync::CancellationToken)
    ensures
        handle == *scope,
{
    scope.clone()
}

} // verus!
