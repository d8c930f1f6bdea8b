use vstd::prelude::*;

verus! {

/// Where an instant stands relative to the sale window.
#[derive(PartialEq, Eq, Structural, Clone, Copy, Debug)]
pub enum Phase {
    BeforeSale,
    InSale,
    AfterSale,
}

/// The phase of `now` for a window that opens at `start` and lasts `duration`.
pub open spec fn phase_of(start: u64, duration: u64, now: u64) -> Phase {
    if now < start {
        Phase::BeforeSale
    } else if now <= start + duration {
        Phase::InSale
    } else {
        Phase::AfterSale
    }
}

/// Classifies `now` against the window `[start, start + duration]`.
pub fn phase(start: u64, duration: u64, now: u64) -> (r: Phase)
    ensures
        r == phase_of(start, duration, now),
{
    if now < start {
        Phase::BeforeSale
    } else if now - start <= duration {
        Phase::InSale
    } else {
        Phase::AfterSale
    }
}

} // verus!
