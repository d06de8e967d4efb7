//! Random names for temporary files.

use rand::distributions::Alphanumeric;
use rand::rngs::ThreadRng;
use rand::Rng;
use vstd::prelude::*;

verus! {

/// `rand::rngs::ThreadRng`, the handle of the thread's random number
/// generator. Nothing is known of what a value holds.
#[verifier::external_type_specification]
#[verifier::external_body]
pub struct ExThreadRng(ThreadRng);

/// `rand::thread_rng` hands out the thread's generator. Nothing is claimed
/// of it.
pub assume_specification[ rand::thread_rng ]() -> (rng: ThreadRng);

/// An ASCII letter or digit.
pub open spec fn is_alphanumeric(c: char) -> bool {
    let code = c as u32;
    (0x30 <= code <= 0x39) || (0x41 <= code <= 0x5a) || (0x61 <= code <= 0x7a)
}

/// `rand::Rng::sample` with the distribution `Alphanumeric`: one byte drawn
/// from the ASCII letters and digits. Which one is left open.
#[verifier::external_body]
fn sample_alphanumeric(rng: &mut ThreadRng) -> (byte: u8)
    ensures
        is_alphanumeric(byte as char),
{
    rng.sample(Alphanumeric)
}

/// Draws a text of `length` random ASCII letters and digits.
pub fn random_string(length: usize) -> (text: String)
    ensures
        text@.len() == length,
        forall|i: int| 0 <= i < text@.len() ==> is_alphanumeric(#[trigger] text@[i]),
{
    let mut rng: ThreadRng = rand::thread_rng();
    let mut text: String = String::new();
    let mut k: usize = 0;
    while k < length
        invariant
            k <= length,
            text@.len() == k,
            forall|i: int| 0 <= i < text@.len() ==> is_alphanumeric(#[trigger] text@[i]),
        decreases length - k,
    {
        let byte: u8 = sample_alphanumeric(&mut rng);
        text.push(byte as char);
        k = k + 1;
    }
    text
}

} // verus!
