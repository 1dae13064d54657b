//! Counters behind the monitoring snapshot.

use vstd::prelude::*;

verus! {

pub struct MonitoringState {
    requests_served: usize,
    requests_served_last: usize,
    requests_in_last_interval: usize,
    waiting_requests: usize,
    file_cache_enabled: bool,
    file_cache_current_items: usize,
    file_cache_max_items: usize,
}

impl MonitoringState {
    pub closed spec fn served(&self) -> nat {
        self.requests_served as nat
    }

    pub closed spec fn served_last(&self) -> nat {
        self.requests_served_last as nat
    }

    pub fn new(file_cache_enabled: bool, file_cache_max_items: usize) -> (r: Self)
        ensures
            r.served() == 0,
            r.served_last() == 0,
            r.file_cache_enabled() == file_cache_enabled,
            r.file_cache_max_items() == file_cache_max_items,
            r.last_interval() == 0,
            r.waiting() == 0,
            r.cache_items() == 0,
    {
        MonitoringState {
            requests_served: 0,
            requests_served_last: 0,
            requests_in_last_interval: 0,
            waiting_requests: 0,
            file_cache_enabled,
            file_cache_current_items: 0,
            file_cache_max_items,
        }
    }

    /// One more request served (the counter wraps, as an atomic add does).
    pub fn increment_requests_served(&mut self)
        ensures
            final(self).served() == if old(self).served() == usize::MAX {
                0
            } else {
                old(self).served() + 1
            },
            final(self).served_last() == old(self).served_last(),
    {
        self.requests_served = self.requests_served.wrapping_add(1);
    }

    pub fn get_requests_served(&self) -> (r: usize)
        ensures
            r == self.served(),
    {
        self.requests_served
    }

    /// Closes one sampling interval: records the queue length and cache
    /// fill, and returns the requests served since the previous interval
    /// (0 if the counter went backwards).
    pub fn record_interval(&mut self, waiting_requests: usize, file_cache_items: usize) -> (r: usize)
        ensures
            r == if old(self).served() >= old(self).served_last() {
                old(self).served() - old(self).served_last()
            } else {
                0
            },
            final(self).served() == old(self).served(),
            final(self).served_last() == old(self).served(),
            final(self).last_interval() == r,
            final(self).waiting() == waiting_requests,
            final(self).cache_items() == file_cache_items,
    {
        let diff = self.requests_served.saturating_sub(self.requests_served_last);
        self.requests_in_last_interval = diff;
        self.requests_served_last = self.requests_served;
        self.waiting_requests = waiting_requests;
        self.file_cache_current_items = file_cache_items;
        diff
    }

    pub closed spec fn last_interval(&self) -> usize {
        self.requests_in_last_interval
    }

    pub closed spec fn waiting(&self) -> usize {
        self.waiting_requests
    }

    pub closed spec fn cache_items(&self) -> usize {
        self.file_cache_current_items
    }

    /// The requests counted in the last closed interval.
    pub fn get_requests_in_last_interval(&self) -> (r: usize)
        ensures
            r == self.last_interval(),
    {
        self.requests_in_last_interval
    }

    pub fn get_waiting_requests(&self) -> (r: usize)
        ensures
            r == self.waiting(),
    {
        self.waiting_requests
    }

    pub closed spec fn file_cache_enabled(&self) -> bool {
        self.file_cache_enabled
    }

    pub closed spec fn file_cache_max_items(&self) -> usize {
        self.file_cache_max_items
    }

    pub fn is_file_cache_enabled(&self) -> (r: bool)
        ensures
            r == self.file_cache_enabled(),
    {
        self.file_cache_enabled
    }

    pub fn get_file_cache_current_items(&self) -> (r: usize)
        ensures
            r == self.cache_items(),
    {
        self.file_cache_current_items
    }

    pub fn get_file_cache_max_items(&self) -> (r: usize)
        ensures
            r == self.file_cache_max_items(),
    {
        self.file_cache_max_items
    }
}

} // verus!
