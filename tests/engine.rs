use powernotd::config::get_default_config;
use powernotd::engine::{Engine, Scheduler};
use powernotd::notification::{BatteryFullNotification, Notification, Urgency};
use powernotd::{check_notify_full_battery, find_lowest_threshold, reset_other_notifications, SamplerError};

fn default_engine() -> Engine {
    let c = get_default_config();
    Engine::new(c.notifications, c.full_notification)
}

/// Feed samples from the startup state; returns (threshold, full) per tick.
fn run(engine: &mut Engine, samples: &[u32]) -> Vec<(Option<u32>, bool)> {
    let mut previous = 100;
    let mut out = Vec::new();
    for &s in samples {
        let a = engine.advance(s, previous);
        out.push((a.threshold, a.full));
        previous = s;
    }
    out
}

fn rule(level: u32, notified: bool) -> Notification {
    Notification {
        level,
        urgency: Urgency::Normal,
        notified,
        time_secs: None,
        command: None,
        title: None,
        message: None,
    }
}

fn full_rule(enabled: bool, notified: bool) -> BatteryFullNotification {
    BatteryFullNotification {
        urgency: Urgency::Low,
        notified,
        time_secs: None,
        enabled,
        command: None,
        title: None,
        message: None,
    }
}

#[test]
fn band_is_lowest_level_at_or_above_sample() {
    let rules = get_default_config().notifications;
    assert_eq!(find_lowest_threshold(27, &rules), Some(30));
    assert_eq!(find_lowest_threshold(12, &rules), Some(15));
    assert_eq!(find_lowest_threshold(30, &rules), Some(30));
    assert_eq!(find_lowest_threshold(1, &rules), Some(1));
    assert_eq!(find_lowest_threshold(0, &rules), Some(1));
    assert_eq!(find_lowest_threshold(31, &rules), None);
    assert_eq!(find_lowest_threshold(100, &rules), None);
    assert_eq!(find_lowest_threshold(5, &Vec::new()), None);
}

#[test]
fn reset_rearms_all_but_the_given_level() {
    let mut rules = vec![rule(30, true), rule(20, true), rule(15, false)];
    reset_other_notifications(&20, &mut rules);
    assert!(!rules[0].notified);
    assert!(rules[1].notified);
    assert!(!rules[2].notified);
    assert_eq!(rules[0].level, 30);
}

#[test]
fn full_fires_on_rising_edge_to_full() {
    let mut f = full_rule(true, false);
    assert!(!check_notify_full_battery(&90, &80, &mut f));
    assert!(!f.notified);
    assert!(check_notify_full_battery(&100, &90, &mut f));
    assert!(f.notified);
    assert!(!check_notify_full_battery(&101, &100, &mut f));
    assert!(f.notified);
}

#[test]
fn full_rearmed_by_non_rising_tick() {
    let mut f = full_rule(true, true);
    assert!(!check_notify_full_battery(&100, &100, &mut f));
    assert!(!f.notified);
    assert!(!check_notify_full_battery(&99, &100, &mut f));
    assert!(check_notify_full_battery(&100, &99, &mut f));
}

#[test]
fn full_disabled_is_a_no_op() {
    let mut f = full_rule(false, false);
    assert!(!check_notify_full_battery(&100, &90, &mut f));
    assert!(!f.notified);
    let mut g = full_rule(false, true);
    assert!(!check_notify_full_battery(&50, &90, &mut g));
    assert!(g.notified);
}

#[test]
fn discharge_fires_band_on_entry_and_next_band_later() {
    let mut e = default_engine();
    let got = run(&mut e, &[100, 50, 28, 28, 18]);
    let thresholds: Vec<Option<u32>> = got.iter().map(|a| a.0).collect();
    assert_eq!(thresholds, vec![None, None, Some(30), None, Some(20)]);
    assert!(got.iter().all(|a| !a.1));
}

#[test]
fn band_fires_again_after_leaving_it() {
    let mut e = default_engine();
    let got = run(&mut e, &[100, 25, 40, 25]);
    let thresholds: Vec<Option<u32>> = got.iter().map(|a| a.0).collect();
    assert_eq!(thresholds, vec![None, Some(30), None, Some(30)]);
}

#[test]
fn full_fires_once_when_charge_reaches_full() {
    let mut e = default_engine();
    let got = run(&mut e, &[80, 85, 90, 100]);
    let full: Vec<bool> = got.iter().map(|a| a.1).collect();
    assert_eq!(full, vec![false, false, false, true]);
    assert!(got.iter().all(|a| a.0.is_none()));
}

#[test]
fn steady_full_charge_sends_nothing() {
    let mut e = default_engine();
    let got = run(&mut e, &[100, 100, 100]);
    assert_eq!(got, vec![(None, false), (None, false), (None, false)]);
}

#[test]
fn startup_below_a_threshold_fires_its_band_once() {
    let mut e = default_engine();
    let got = run(&mut e, &[30, 30, 29]);
    let thresholds: Vec<Option<u32>> = got.iter().map(|a| a.0).collect();
    assert_eq!(thresholds, vec![Some(30), None, None]);
}

#[test]
fn disarmed_band_stays_quiet_with_full_rule_disabled() {
    let c = get_default_config();
    let mut full = c.full_notification;
    full.enabled = false;
    let mut e = Engine::new(c.notifications, full);
    let got = run(&mut e, &[4, 3]);
    assert_eq!(got, vec![(Some(5), false), (None, false)]);
}

#[test]
fn startup_at_full_fires_nothing() {
    let mut e = default_engine();
    let got = run(&mut e, &[100]);
    assert_eq!(got, vec![(None, false)]);
}

#[test]
fn monotone_discharge_fires_each_level_once() {
    let mut e = default_engine();
    let samples: Vec<u32> = (0..=100).rev().flat_map(|s| vec![s, s]).collect();
    let got = run(&mut e, &samples);
    let fired: Vec<u32> = got.iter().filter_map(|a| a.0).collect();
    assert_eq!(fired, vec![30, 20, 15, 10, 5, 2, 1]);
}

#[test]
fn charging_never_fires_a_threshold() {
    let mut e = default_engine();
    let mut previous = 0;
    for s in 1..=100 {
        let a = e.advance(s, previous);
        assert_eq!(a.threshold, None);
        previous = s;
    }
}

#[test]
fn new_engine_clears_runtime_flags() {
    let e = Engine::new(vec![rule(10, true)], full_rule(true, true));
    assert!(!e.rules[0].notified);
    assert!(!e.full.notified);
    assert!(e.full.enabled);
}

#[test]
fn scheduler_tick_renders_messages() {
    let mut s = Scheduler::new(default_engine());
    assert_eq!(s.last_level, 100);
    let msgs = s.tick(Ok(27));
    assert_eq!(msgs.len(), 1);
    assert_eq!(msgs[0].title, "Battery Status");
    assert_eq!(msgs[0].body, "27%%");
    assert_eq!(msgs[0].urgency, Urgency::Low);
    assert_eq!(msgs[0].timeout_ms, None);
    assert_eq!(s.last_level, 27);
    let msgs = s.tick(Ok(4));
    assert_eq!(msgs.len(), 1);
    assert_eq!(msgs[0].title, "Critical Battery Status");
    assert_eq!(msgs[0].body, "4%%");
    assert_eq!(msgs[0].timeout_ms, Some(10_000_000));
    let msgs = s.tick(Ok(100));
    assert_eq!(msgs.len(), 1);
    assert_eq!(msgs[0].body, "Fully Charged 100%");
}

#[test]
fn scheduler_skips_failed_reading() {
    let mut s = Scheduler::new(default_engine());
    let msgs = s.tick(Err(SamplerError::Unavailable));
    assert!(msgs.is_empty());
    assert_eq!(s.last_level, 100);
    let msgs = s.tick(Err(SamplerError::Malformed));
    assert!(msgs.is_empty());
    let msgs = s.tick(Ok(20));
    assert_eq!(msgs.len(), 1);
}

#[test]
fn new_engine_keeps_last_rule_per_level() {
    let mut first = rule(10, false);
    first.title = Some("first".to_string());
    let mut last = rule(10, true);
    last.title = Some("last".to_string());
    let e = Engine::new(vec![first, rule(20, false), last], full_rule(true, false));
    assert_eq!(e.rules.len(), 2);
    let ten: Vec<&Notification> = e.rules.iter().filter(|r| r.level == 10).collect();
    assert_eq!(ten.len(), 1);
    assert_eq!(ten[0].title.as_deref(), Some("last"));
    assert!(!ten[0].notified);
    let msg = e.threshold_message_for(10, 9).unwrap();
    assert_eq!(msg.title, "last");
}

#[test]
fn band_fires_again_after_several_ticks_away() {
    let mut e = default_engine();
    let got = run(&mut e, &[25, 40, 60, 100, 35, 29]);
    let thresholds: Vec<Option<u32>> = got.iter().map(|a| a.0).collect();
    assert_eq!(thresholds, vec![Some(30), None, None, None, None, Some(30)]);
}

#[test]
fn full_fires_on_every_rise_to_full() {
    let mut e = default_engine();
    let got = run(&mut e, &[90, 100, 100, 95, 100, 100, 99, 100]);
    let full: Vec<bool> = got.iter().map(|a| a.1).collect();
    assert_eq!(full, vec![false, true, false, false, true, false, false, true]);
}
