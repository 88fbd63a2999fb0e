//! The source of random bytes.

use rand::Rng;
use vstd::prelude::*;

verus! {

/// Draws one byte with `rand::Rng::gen_range` over `0..=255` from the
/// generator of this thread, `rand::thread_rng`, which seeds itself from
/// the operating system when the thread first uses it. Every byte may come
/// back, each as likely as any other, and two calls need not agree: the
/// contract promises nothing of the result. Nothing here is proved.
#[verifier::external_body]
pub(crate) fn random_byte() -> (byte: u8) {
    rand::thread_rng().gen_range(0u8..=255u8)
}

} // verus!
