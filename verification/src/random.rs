//! The source of randomness, and the characters that are drawn from it.
use vstd::prelude::*;
use rand::distributions::{IndependentSample, Range};
use crate::tc::{control_count, excluded_printable_below, is_control, is_normal, normal_count};

verus! {

/// The thread-local random number generator of the `rand` crate.  Nothing
/// is known of what it holds.
#[verifier::external_type_specification]
#[verifier::external_body]
pub struct ExThreadRng(rand::ThreadRng);

/// `rand::thread_rng` hands out the calling thread's generator, and panics
/// where the operating system has no entropy to seed it with.  Nothing is
/// claimed of the generator.
pub assume_specification[ rand::thread_rng ]() -> (rng: rand::ThreadRng)
;

/// A draw from `rand`'s uniform `Range` over `low .. high`, made with
/// `Range::new` and `IndependentSample::ind_sample`.  `Range::new` panics
/// unless `low < high`.  For the integer types the crate computes the sample
/// as `low` plus a remainder modulo `high - low`, so all that is claimed is
/// that the draw is at least `low` and below `high`.
#[verifier::external_body]
pub(crate) fn sample(rng: &mut rand::ThreadRng, low: u32, high: u32) -> (draw: u32)
    requires
        low < high,
    ensures
        low <= draw < high,
{
    Range::new(low, high).ind_sample(rng)
}

/// `String::push` of the standard library appends one character to the end
/// of a string.
#[verifier::external_body]
pub(crate) fn push_char(text: &mut String, c: char)
    ensures
        final(text)@ == old(text)@.push(c),
{
    text.push(c)
}

/// The normal character that a draw below 91 selects: the one with `draw`
/// normal characters before it in code order.
pub fn normal_char(draw: u32) -> (c: char)
    requires
        draw < normal_count(),
    ensures
        is_normal(c),
        c as int == 32 + draw + excluded_printable_below(c as int),
{
    let mut code: u8 = 32 + (draw as u8);
    if code >= 34 {
        code = code + 1;
    }
    if code >= 63 {
        code = code + 1;
    }
    if code >= 92 {
        code = code + 1;
    }
    code as char
}

/// The control character that a draw below 24 selects: the one with `draw`
/// permitted control characters before it in code order.
pub fn control_char(draw: u32) -> (c: char)
    requires
        draw < control_count(),
    ensures
        is_control(c),
        c as int == draw + if (c as int) > 13 {
            7int
        } else {
            0int
        },
{
    let mut code: u8 = draw as u8;
    if code >= 7 {
        code = code + 7;
    }
    code as char
}

/// A normal character drawn uniformly.
pub(crate) fn draw_normal(rng: &mut rand::ThreadRng) -> (c: char)
    ensures
        is_normal(c),
{
    normal_char(sample(rng, 0, 91))
}

/// A permitted control character drawn uniformly.
pub(crate) fn draw_control(rng: &mut rand::ThreadRng) -> (c: char)
    ensures
        is_control(c),
{
    control_char(sample(rng, 0, 24))
}

} // verus!
