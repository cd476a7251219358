//! Per-LSA aging state. The stored header keeps the age it arrived with; the
//! live age is derived from the wall clock, clamped at `LsaMaxAge`. The
//! instant a timer's refresh action is due is part of the timer, so that the
//! scheduler driving the database can fire expiries without reading headers.
//!
//! Wall-clock instants are whole seconds on an arbitrary monotone clock.

use vstd::prelude::*;

use crate::constant::{LsRefreshTime, LsaMaxAge};
use crate::lsa::LsaHeader;

verus! {

/// Aging state of one stored LSA.
#[derive(Clone, Copy, PartialEq, Eq, Structural, Debug)]
pub struct LsaTimer {
    /// Instant (seconds) the LSA entered the database.
    pub created_at: u64,
    /// Instant (seconds) the refresh action is due: `created_at` plus the
    /// seconds the stored age left until `LsaMaxAge`.
    pub fire_at: u64,
}

/// The live age of a header stored at `created_at` and read at `now`:
/// the stored age plus the elapsed seconds, clamped at `LsaMaxAge`.
pub open spec fn spec_age_at(stored_age: u16, created_at: u64, now: u64) -> u16 {
    if stored_age + (now - created_at) >= LsaMaxAge {
        LsaMaxAge
    } else {
        (stored_age + (now - created_at)) as u16
    }
}

impl LsaTimer {
    /// Whether this timer is consistent with the header it ages: it fires
    /// when the stored age reaches `LsaMaxAge`, or — for a re-originated
    /// self-originated LSA — already at `LsRefreshTime`.
    pub open spec fn wf(self, stored_age: u16) -> bool {
        &&& stored_age <= LsaMaxAge
        &&& (self.fire_at == self.created_at + (LsaMaxAge - stored_age) || self.fire_at
            == self.created_at + LsRefreshTime)
    }

    /// Starts aging a header stored with age `stored_age` at instant `now`.
    /// Its refresh action is due when the age will reach `LsaMaxAge`.
    pub fn new(stored_age: u16, now: u64) -> (r: LsaTimer)
        requires
            stored_age <= LsaMaxAge,
            now + LsaMaxAge <= u64::MAX,
        ensures
            r.created_at == now,
            r.fire_at == now + (LsaMaxAge - stored_age),
            r.wf(stored_age),
    {
        LsaTimer { created_at: now, fire_at: now + ((LsaMaxAge - stored_age) as u64) }
    }

    /// The instant the LSA entered the database.
    pub fn get_created(&self) -> (r: u64)
        ensures
            r == self.created_at,
    {
        self.created_at
    }

    /// Whether the refresh action is due at instant `now`.
    pub fn is_due(&self, now: u64) -> (r: bool)
        ensures
            r == (now >= self.fire_at),
    {
        now >= self.fire_at
    }

    /// A copy of `header` with its age updated to the live age at `now`.
    pub fn update_lsa_age_header(&self, header: LsaHeader, now: u64) -> (r: LsaHeader)
        requires
            now >= self.created_at,
        ensures
            r == (LsaHeader {
                ls_age: spec_age_at(header.ls_age, self.created_at, now),
                ..header
            }),
    {
        let elapsed: u64 = now - self.created_at;
        let age: u16 = if elapsed >= LsaMaxAge as u64 {
            LsaMaxAge
        } else if (header.ls_age as u64) + elapsed >= (LsaMaxAge as u64) {
            LsaMaxAge
        } else {
            header.ls_age + (elapsed as u16)
        };
        LsaHeader { ls_age: age, ..header }
    }
}

/// The derived age is monotonically non-decreasing in wall-clock time, and
/// equals `LsaMaxAge` exactly from the instant `created_at` plus the seconds
/// the stored age left until `LsaMaxAge` — the instant a well-formed timer's
/// refresh action is due.
pub proof fn lemma_age_monotone(stored_age: u16, created_at: u64, early: u64, late: u64)
    requires
        stored_age <= LsaMaxAge,
        created_at <= early <= late,
    ensures
        spec_age_at(stored_age, created_at, early) <= spec_age_at(stored_age, created_at, late),
        spec_age_at(stored_age, created_at, late) == LsaMaxAge <==> late >= created_at + (LsaMaxAge
            - stored_age),
{
}

} // verus!
