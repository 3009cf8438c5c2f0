use healer::sampler::{sample_intervals, ReportClock, SamplerConf};

#[test]
fn sampler_defaults_and_checks() {
    let d = SamplerConf::default();
    assert_eq!((d.sample_interval, d.report_interval), (15, 60));
    assert!(d.check());
    assert!(!SamplerConf { sample_interval: 9, report_interval: 60 }.check());
    assert!(!SamplerConf { sample_interval: 15, report_interval: 10 }.check());
    assert!(SamplerConf { sample_interval: 15, report_interval: 11 }.check());
    // a sample interval of exactly the report interval is fine, a longer one is not
    assert!(SamplerConf { sample_interval: 660, report_interval: 11 }.check());
    assert!(!SamplerConf { sample_interval: 661, report_interval: 11 }.check());
    assert!(SamplerConf { sample_interval: 15, report_interval: 100000 }.check());
}

#[test]
fn sample_and_report_intervals() {
    assert_eq!(sample_intervals(None), (15, 3600));
    assert_eq!(sample_intervals(Some(SamplerConf { sample_interval: 20, report_interval: 30 })), (20, 1800));
}

#[test]
fn reports_come_once_per_interval() {
    let mut c = ReportClock::new(15, 60);
    assert!(!c.tick());
    assert!(!c.tick());
    assert!(!c.tick());
    assert!(c.tick());
    assert!(!c.tick());
    let mut every = ReportClock::new(20, 10);
    assert!(every.tick());
    assert!(every.tick());
}
