use vstd::prelude::*;

verus! {

/// The whole minutes, the seconds and the milliseconds that a number of
/// milliseconds amounts to.
pub fn split_millis(mills: u128) -> (parts: (u128, u128, u128))
    ensures
        parts.0 == mills / 60000,
        parts.1 == (mills % 60000) / 1000,
        parts.2 == mills % 1000,
        parts.0 * 60000 + parts.1 * 1000 + parts.2 == mills,
        parts.1 < 60,
        parts.2 < 1000,
{
    let mins = mills / 60000;
    let secs = (mills % 60000) / 1000;
    let rest = mills % 1000;
    assert(mins * 60000 + secs * 1000 + rest == mills) by {
        assert((mills % 60000) % 1000 == mills % 1000);
    }
    (mins, secs, rest)
}

} // verus!
