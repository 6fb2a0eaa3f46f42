use rnot::monitor::{format_diff_for_telegram, format_notification, CheckError, Monitor,
    MonitorEvent};
use rnot::site::WatchedSite;

fn site(url: &str) -> WatchedSite {
    // One element per paragraph, so each paragraph becomes its own line.
    WatchedSite::new(url.to_string(), "test site".to_string(), Some("p".to_string()))
}

const PAGE_ONE: &str = "<body><p>alpha line</p><p>beta line</p></body>";
const PAGE_TWO: &str = "<body><p>alpha line</p><p>gamma line</p></body>";

#[test]
fn first_check_establishes_baseline_and_reports_no_change() {
    let mut m = Monitor::new();
    let mut s = site("https://example.test/a");
    assert!(s.last_hash.is_none());
    let r = m.check_site(&mut s, &Ok(PAGE_ONE.to_string()), 100);
    assert_eq!(r.unwrap(), None);
    assert!(s.last_hash.is_some());
    assert_eq!(s.last_checked, Some(100));
    assert_eq!(s.last_change, None);
    assert_eq!(m.snapshot(&s.id), "alpha line\nbeta line");
}

#[test]
fn first_check_is_baseline_whatever_the_content() {
    let mut m = Monitor::new();
    let mut s = site("https://example.test/empty");
    let r = m.check_site(&mut s, &Ok("<body></body>".to_string()), 5);
    assert_eq!(r.unwrap(), None);
    assert!(s.last_hash.is_some());
}

#[test]
fn identical_content_twice_is_a_stable_no_op() {
    let mut m = Monitor::new();
    let mut s = site("https://example.test/a");
    m.check_site(&mut s, &Ok(PAGE_ONE.to_string()), 100).unwrap();
    let hash_before = s.last_hash.clone();
    let r = m.check_site(&mut s, &Ok(PAGE_ONE.to_string()), 200);
    assert_eq!(r.unwrap(), None);
    assert_eq!(s.last_hash, hash_before);
    assert_eq!(s.last_checked, Some(200));
    assert_eq!(s.last_change, None);
    assert_eq!(m.snapshot(&s.id), "alpha line\nbeta line");
}

#[test]
fn changed_content_yields_a_report_and_updates_state() {
    let mut m = Monitor::new();
    let mut s = site("https://example.test/a");
    m.check_site(&mut s, &Ok(PAGE_ONE.to_string()), 100).unwrap();
    let r = m.check_site(&mut s, &Ok(PAGE_TWO.to_string()), 300);
    let report = r.unwrap().unwrap();
    assert!(report.contains("Removed:\n- beta line\n"));
    assert!(report.contains("Added:\n+ gamma line\n"));
    assert_eq!(s.last_checked, Some(300));
    assert_eq!(s.last_change, Some(300));
    assert_eq!(m.snapshot(&s.id), "alpha line\ngamma line");
}

#[test]
fn noise_does_not_count_as_change() {
    let mut m = Monitor::new();
    let mut s = site("https://example.test/noisy");
    m.check_site(&mut s, &Ok(PAGE_ONE.to_string()), 10).unwrap();
    let noisy = "<body><p>alpha line</p><p>beta line</p><p>Last updated: 2 minutes ago</p></body>";
    let r = m.check_site(&mut s, &Ok(noisy.to_string()), 20);
    assert_eq!(r.unwrap(), None);
}

#[test]
fn fetch_failure_reports_the_transport_message() {
    let mut m = Monitor::new();
    let mut s = site("https://example.test/down");
    let r = m.check_site(&mut s, &Err("connection refused".to_string()), 50);
    let e = r.unwrap_err();
    assert_eq!(e.message(), "connection refused");
    assert!(s.last_checked.is_none());
    assert_eq!(m.snapshot(&s.id), "");
}

#[test]
fn invalid_selector_reports_a_parse_error() {
    let mut m = Monitor::new();
    let mut s = site("https://example.test/sel");
    s.css_selector = Some("###".to_string());
    let r = m.check_site(&mut s, &Ok(PAGE_ONE.to_string()), 50);
    let e = r.unwrap_err();
    assert!(matches!(e, CheckError::InvalidSelector));
    assert_eq!(e.message(), "Invalid selector");
    assert!(s.last_checked.is_none());
}

#[test]
fn tick_isolates_failures_between_sites() {
    let mut m = Monitor::new();
    let mut sites = vec![site("https://example.test/a"), site("https://example.test/b")];
    let baseline = vec![Ok(PAGE_ONE.to_string()), Ok(PAGE_ONE.to_string())];
    m.run_tick(&mut sites, &baseline, 100);

    let bodies = vec![Ok(PAGE_TWO.to_string()), Err("timed out".to_string())];
    let events = m.run_tick(&mut sites, &bodies, 200);
    assert_eq!(events.len(), 2);
    match &events[0] {
        MonitorEvent::SiteChanged { site_id, diff } => {
            assert_eq!(site_id, &sites[0].id);
            assert!(diff.contains("+ gamma line"));
        },
        other => panic!("expected a change event, got {other:?}"),
    }
    match &events[1] {
        MonitorEvent::Error { site_id, error } => {
            assert_eq!(site_id, &sites[1].id);
            assert_eq!(error, "timed out");
        },
        other => panic!("expected an error event, got {other:?}"),
    }
    assert_eq!(sites[0].last_change, Some(200));
    assert_eq!(sites[1].last_checked, Some(100));
    assert_eq!(sites[1].last_change, None);
    assert_eq!(m.snapshot(&sites[1].id), "alpha line\nbeta line");
}

#[test]
fn tick_reports_unchanged_sites() {
    let mut m = Monitor::new();
    let mut sites = vec![site("https://example.test/a")];
    let bodies = vec![Ok(PAGE_ONE.to_string())];
    let events = m.run_tick(&mut sites, &bodies, 10);
    assert_eq!(events.len(), 1);
    match &events[0] {
        MonitorEvent::SiteChecked { site_id, changed } => {
            assert_eq!(site_id, &sites[0].id);
            assert!(!changed);
        },
        other => panic!("expected a checked event, got {other:?}"),
    }
}

#[test]
fn tick_now_stamps_a_real_clock_reading() {
    let mut m = Monitor::new();
    let mut sites = vec![site("https://example.test/a")];
    let bodies = vec![Ok(PAGE_ONE.to_string())];
    let events = m.run_tick_now(&mut sites, &bodies);
    assert_eq!(events.len(), 1);
    // The daemon went live well after 2020.
    assert!(sites[0].last_checked.unwrap() > 1_500_000_000);
}

#[test]
fn short_reports_pass_through_untruncated() {
    let d = "Removed:\n- old line\nAdded:\n+ new line\n";
    assert_eq!(format_diff_for_telegram(d), "Removed:\n- old line\nAdded:\n+ new line");
}

#[test]
fn long_reports_are_cut_at_twenty_lines() {
    let lines: Vec<String> = (1..=25).map(|i| format!("line {i:02}")).collect();
    let out = format_diff_for_telegram(&lines.join("\n"));
    assert!(out.ends_with("\n\n<i>... (truncated)</i>"));
    assert!(out.contains("line 20"));
    assert!(!out.contains("line 21"));
}

#[test]
fn notification_carries_site_url_time_and_diff() {
    let msg = format_notification("My Site", "https://example.test", 0, "Added:\n+ x\n");
    assert!(msg.starts_with("\u{1f504} <b>Change detected!</b>"));
    assert!(msg.contains("<b>Site:</b> My Site"));
    assert!(msg.contains("<b>URL:</b> https://example.test"));
    assert!(msg.contains("<b>Time:</b> 1970-01-01 00:00:00 UTC"));
    assert!(msg.contains("<b>Changes:</b>\nAdded:\n+ x"));
}
