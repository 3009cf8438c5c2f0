//! When the fuzzer samples its statistics and when it reports them.
//!
//! Sleeping, gathering the numbers and sending the report are left to the
//! caller; the decisions are here.
use vstd::prelude::*;

verus! {

/// How often statistics are sampled and reported.
#[derive(Debug, Clone, Copy, PartialEq, Eq, Structural)]
pub struct SamplerConf {
    /// Seconds between two samples.
    pub sample_interval: u64,
    /// Minutes between two reports.
    pub report_interval: u64,
}

impl Default for SamplerConf {
    /// A sample every 15 seconds, a report every hour.
    fn default() -> (r: Self)
        ensures
            r.sample_interval == 15,
            r.report_interval == 60,
    {
        SamplerConf { sample_interval: 15, report_interval: 60 }
    }
}

impl SamplerConf {
    /// The settings are usable: samples at least 10 seconds apart, reports
    /// more than 10 minutes apart, and a sample interval no longer than the
    /// report interval.
    pub open spec fn spec_valid(&self) -> bool {
        &&& self.sample_interval >= 10
        &&& self.report_interval > 10
        &&& self.sample_interval <= self.report_interval * 60
    }

    /// Whether the settings are usable (see `spec_valid`).
    pub fn check(&self) -> (r: bool)
        ensures
            r == self.spec_valid(),
    {
        self.sample_interval >= 10 && self.report_interval > 10 && self.sample_interval / 60 <= self.report_interval
            && (self.sample_interval / 60 < self.report_interval || self.sample_interval % 60 == 0)
    }
}

/// Seconds between two samples and between two reports: as configured, or
/// 15 seconds and an hour.
pub open spec fn intervals_of(conf: Option<SamplerConf>) -> (int, int) {
    match conf {
        Some(c) => (c.sample_interval as int, c.report_interval * 60),
        None => (15, 3600),
    }
}

/// Seconds between two samples and between two reports.
pub fn sample_intervals(conf: Option<SamplerConf>) -> (r: (u64, u64))
    requires
        conf matches Some(c) ==> c.report_interval * 60 <= u64::MAX,
    ensures
        (r.0 as int, r.1 as int) == intervals_of(conf),
{
    match conf {
        Some(c) => (c.sample_interval, c.report_interval * 60),
        None => (15, 3600),
    }
}

/// Time since the last report, counted in samples.
pub struct ReportClock {
    sample: u64,
    report: u64,
    since_report: u64,
}

impl ReportClock {
    /// Seconds between two samples.
    pub closed spec fn sample(&self) -> nat {
        self.sample as nat
    }

    /// Seconds between two reports.
    pub closed spec fn report(&self) -> nat {
        self.report as nat
    }

    /// Seconds since the last report.
    pub closed spec fn since_report(&self) -> nat {
        self.since_report as nat
    }

    /// The time since the last report stays below the report interval.
    pub closed spec fn wf(&self) -> bool {
        self.since_report < self.report || self.since_report == 0
    }

    /// A clock for samples every `sample` seconds and reports every
    /// `report` seconds; no time has passed yet.
    pub fn new(sample: u64, report: u64) -> (r: Self)
        ensures
            r.wf(),
            r.sample() == sample,
            r.report() == report,
            r.since_report() == 0,
    {
        ReportClock { sample, report, since_report: 0 }
    }

    /// Counts one sample; says whether to report now, which is when a
    /// report interval has passed since the last report.
    pub fn tick(&mut self) -> (r: bool)
        requires
            old(self).wf(),
            old(self).report() + old(self).sample() <= u64::MAX,
        ensures
            final(self).wf(),
            final(self).sample() == old(self).sample(),
            final(self).report() == old(self).report(),
            r == (old(self).report() <= old(self).since_report() + old(self).sample()),
            r ==> final(self).since_report() == 0,
            !r ==> final(self).since_report() == old(self).since_report() + old(self).sample(),
    {
        let now = self.since_report + self.sample;
        if self.report <= now {
            self.since_report = 0;
            true
        } else {
            self.since_report = now;
            false
        }
    }
}

} // verus!
