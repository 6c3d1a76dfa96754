//! When the process table is refreshed, and what a refresh leaves behind.

use vstd::prelude::*;

use crate::net::LocalSocket;
use crate::proc_table::{
    aliased, doubled, mapped_records, owner_views, owners_of, ListenerRecord, ProcCounters,
    ProcTable, RefreshSlot, MAX_DURATION,
};

verus! {

/// The shortest time between two refreshes on request, in nanoseconds.
pub const REQUEST_INTERVAL: u128 = 1_000_000_000;

/// Why the refreshing worker wakes up.
#[derive(Clone, Copy, Debug, PartialEq, Eq, Structural)]
pub enum RefreshWake {
    /// Someone asked for a refresh.
    Requested,
    /// The interval is over.
    Periodic,
}

/// The shortest time between two refreshes on request: never longer than between two
/// regular ones.
pub fn request_refresh_min_interval(refresh: u128) -> (interval: u128)
    ensures
        interval == if refresh < REQUEST_INTERVAL {
            refresh
        } else {
            REQUEST_INTERVAL
        },
{
    if refresh < REQUEST_INTERVAL {
        refresh
    } else {
        REQUEST_INTERVAL
    }
}

/// Keeps refreshes on request apart.
#[derive(Debug)]
pub struct RefreshThrottle {
    pub min_interval: u128,
    /// When the last refresh on request was made.
    pub last_requested_refresh: Option<u128>,
}

impl RefreshThrottle {
    /// Whether a refresh on request comes too soon after the last one.
    pub open spec fn too_soon(self, now: u128) -> bool {
        self.last_requested_refresh matches Some(last) && (if now > last {
            now - last
        } else {
            0
        }) < self.min_interval
    }

    /// No refresh yet.
    pub fn new(min_interval: u128) -> (throttle: Self)
        ensures
            throttle.min_interval == min_interval,
            throttle.last_requested_refresh is None,
    {
        RefreshThrottle { min_interval, last_requested_refresh: None }
    }

    /// Whether to refresh now: always when the interval is over, on request unless that
    /// comes too soon after the last one.
    pub fn admits(&mut self, wake: RefreshWake, now: u128) -> (refresh: bool)
        ensures
            refresh == (wake == RefreshWake::Periodic || !old(self).too_soon(now)),
            final(self).min_interval == old(self).min_interval,
            final(self).last_requested_refresh == if refresh && wake == RefreshWake::Requested {
                Some(now)
            } else {
                old(self).last_requested_refresh
            },
    {
        if wake == RefreshWake::Requested {
            if let Some(last) = self.last_requested_refresh {
                if now.saturating_sub(last) < self.min_interval {
                    return false;
                }
            }
            self.last_requested_refresh = Some(now);
        }
        true
    }
}

/// Two refreshes on request are at least the shortest interval apart.
pub proof fn lemma_requested_refreshes_keep_apart(throttle: RefreshThrottle, earlier: u128, now: u128)
    requires
        throttle.last_requested_refresh == Some(earlier),
        earlier <= now,
        !throttle.too_soon(now),
    ensures
        now - earlier >= throttle.min_interval,
{
}

impl ProcTable {
    /// Someone refreshes the table from now on, on request too.
    pub fn accept_requests(&mut self)
        ensures
            *final(self) == (ProcTable { refresh: RefreshSlot::Empty, ..*old(self) }),
    {
        self.refresh = RefreshSlot::Empty;
    }

    /// Takes the waiting request out, if there is one.
    pub fn take_request(&mut self) -> (waiting: bool)
        ensures
            waiting == (old(self).refresh == RefreshSlot::Full),
            *final(self) == (ProcTable {
                refresh: if waiting {
                    RefreshSlot::Empty
                } else {
                    old(self).refresh
                },
                ..*old(self)
            }),
    {
        let waiting = self.refresh == RefreshSlot::Full;
        if waiting {
            self.refresh = RefreshSlot::Empty;
        }
        waiting
    }

    /// Ends a refresh that took `duration` nanoseconds: the owners are replaced by those of
    /// a scan, a failed scan leaves them as they were, and the refresh is counted.
    pub fn finish_refresh(
        &mut self,
        result: Result<Vec<ListenerRecord>, String>,
        now: u128,
        refresh: u128,
        duration: u128,
    ) -> (outcome: Result<(), String>)
        requires
            refresh <= MAX_DURATION,
        ensures
            final(self).refresh == old(self).refresh,
            final(self).lookup_miss_samples == old(self).lookup_miss_samples,
            match result {
                Err(error) => {
                    &&& outcome == Err::<(), String>(error)
                    &&& final(self).same_owners(*old(self))
                    &&& final(self).counters == old(self).counters.with_refresh(
                        false,
                        whole_nanos(duration),
                    )
                },
                Ok(records) => {
                    &&& outcome is Ok
                    &&& final(self).wf()
                    &&& owner_views(final(self).entries@) == owners_of(records@)
                    &&& forall|socket: LocalSocket| #[trigger]
                        final(self).v4_mapped_aliases@.contains(socket) <==> aliased(
                            records@,
                            socket,
                        )
                    &&& final(self).refreshed_at == Some(now)
                    &&& final(self).generation == old(self).generation.wrapping_add(1)
                    &&& final(self).max_age == doubled(refresh)
                    &&& final(self).record_count == records@.len()
                    &&& final(self).v4_mapped_record_count == mapped_records(records@)
                    &&& final(self).counters == (ProcCounters {
                        refresh_records: final(self).record_count,
                        refresh_v4_mapped_records: final(self).v4_mapped_record_count,
                        ..old(self).counters
                    }).with_refresh(true, whole_nanos(duration))
                },
            },
    {
        let success = result.is_ok();
        let outcome = self.refresh_at(result, now, refresh);
        self.record_refresh_result(success, duration);
        outcome
    }
}

/// A number of nanoseconds, as far as 64 bits reach.
pub open spec fn whole_nanos(duration: u128) -> u64 {
    if duration > u64::MAX {
        u64::MAX
    } else {
        duration as u64
    }
}

} // verus!
