use vstd::prelude::*;
use rand::Rng;

verus! {

/// The largest value the generator may produce for a write (inclusive).
pub const WRITE_VALUE_MAX: u32 = 100;

/// Relies on rand::Rng::gen_range over an inclusive range `lo..=hi`: it
/// returns a uniformly drawn value inside `[lo, hi]` and panics only when the
/// range is empty, which `lo <= hi` rules out.
#[verifier::external_body]
fn gen_range_inclusive(lo: u32, hi: u32) -> (r: u32)
    requires
        lo <= hi,
    ensures
        lo <= r <= hi,
{
    rand::thread_rng().gen_range(lo..=hi)
}

/// Draw the value to write to one write-symbol: an unsigned integer in
/// `[0, WRITE_VALUE_MAX]`. The generator is stateless and ignores which
/// symbol the value is destined for.
pub fn generate_write_value() -> (r: u32)
    ensures
        r <= WRITE_VALUE_MAX,
{
    gen_range_inclusive(0, WRITE_VALUE_MAX)
}

} // verus!
