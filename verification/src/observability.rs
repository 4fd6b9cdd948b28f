//! Request counters for the service layer: totals kept exactly, with
//! wrapping arithmetic like the atomic counters they stand behind.

use vstd::prelude::*;

verus! {

/// Running request counters. Times are in milliseconds.
#[derive(Debug, Clone, Copy, PartialEq, Eq, Structural)]
pub struct MetricsCollector {
    pub total_requests: u64,
    pub successful_requests: u64,
    pub failed_requests: u64,
    pub total_response_time_ms: u64,
}

impl MetricsCollector {
    pub fn new() -> (r: Self)
        ensures
            r == (MetricsCollector {
                total_requests: 0u64,
                successful_requests: 0u64,
                failed_requests: 0u64,
                total_response_time_ms: 0u64,
            }),
    {
        MetricsCollector {
            total_requests: 0,
            successful_requests: 0,
            failed_requests: 0,
            total_response_time_ms: 0,
        }
    }

    /// Counts one request and its response time; counters wrap like the
    /// atomics they mirror.
    pub fn record_request(&mut self, success: bool, response_time_ms: u64)
        ensures
            final(self).total_requests == vstd::wrapping::u64_specs::wrapping_add(
                old(self).total_requests,
                1,
            ),
            success ==> final(self).successful_requests == vstd::wrapping::u64_specs::wrapping_add(
                old(self).successful_requests,
                1,
            ) && final(self).failed_requests == old(self).failed_requests,
            !success ==> final(self).failed_requests == vstd::wrapping::u64_specs::wrapping_add(
                old(self).failed_requests,
                1,
            ) && final(self).successful_requests == old(self).successful_requests,
            final(self).total_response_time_ms == vstd::wrapping::u64_specs::wrapping_add(
                old(self).total_response_time_ms,
                response_time_ms,
            ),
    {
        self.total_requests = self.total_requests.wrapping_add(1);
        if success {
            self.successful_requests = self.successful_requests.wrapping_add(1);
        } else {
            self.failed_requests = self.failed_requests.wrapping_add(1);
        }
        self.total_response_time_ms = self.total_response_time_ms.wrapping_add(response_time_ms);
    }

    /// All four counters, for reporting.
    pub fn totals(&self) -> (r: (u64, u64, u64, u64))
        ensures
            r.0 == self.total_requests,
            r.1 == self.successful_requests,
            r.2 == self.failed_requests,
            r.3 == self.total_response_time_ms,
    {
        (
            self.total_requests,
            self.successful_requests,
            self.failed_requests,
            self.total_response_time_ms,
        )
    }

    pub fn reset(&mut self)
        ensures
            *final(self) == (MetricsCollector {
                total_requests: 0u64,
                successful_requests: 0u64,
                failed_requests: 0u64,
                total_response_time_ms: 0u64,
            }),
    {
        self.total_requests = 0;
        self.successful_requests = 0;
        self.failed_requests = 0;
        self.total_response_time_ms = 0;
    }
}

impl Default for MetricsCollector {
    fn default() -> (r: Self)
        ensures
            r == (MetricsCollector {
                total_requests: 0u64,
                successful_requests: 0u64,
                failed_requests: 0u64,
                total_response_time_ms: 0u64,
            }),
    {
        MetricsCollector::new()
    }
}

} // verus!
