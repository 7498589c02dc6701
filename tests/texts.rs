use powernotd::battery::{capacity_path, parse_capacity, parse_charging_status, status_path, trim_text};
use powernotd::command::{command_from_words, parse_command, CommandLine};
use powernotd::config::{get_default_config, threshold_list, Error, CRITICAL_WAIT_TIME_SECS};
use powernotd::notification::{
    display_timeout_ms, fill_template, full_message, percent_string, threshold_message,
    BatteryFullNotification, Notification, Urgency,
};
use powernotd::{ChargingStatus, SamplerError};

#[test]
fn charging_status_tags() {
    assert_eq!(ChargingStatus::Charging.as_str(), "charging");
    assert_eq!(ChargingStatus::Discharging.as_str(), "discharging");
    assert_eq!(ChargingStatus::Full.as_string(), "full");
    assert_eq!(ChargingStatus::Unknown.as_string(), "unknown");
}

#[test]
fn charging_status_from_source_text() {
    assert_eq!(parse_charging_status("Charging\n"), ChargingStatus::Charging);
    assert_eq!(parse_charging_status("Discharging\n"), ChargingStatus::Discharging);
    assert_eq!(parse_charging_status("Full\n"), ChargingStatus::Full);
    assert_eq!(parse_charging_status("Not charging\n"), ChargingStatus::Full);
    assert_eq!(parse_charging_status("charging"), ChargingStatus::Unknown);
    assert_eq!(parse_charging_status(""), ChargingStatus::Unknown);
    assert_eq!(parse_charging_status("Charging\u{c}"), ChargingStatus::Charging);
    assert_eq!(parse_charging_status("\u{2003}Not charging\u{85}"), ChargingStatus::Full);
}

#[test]
fn capacity_from_source_text() {
    assert_eq!(parse_capacity("57\n"), Ok(57));
    assert_eq!(parse_capacity(" 100 \n"), Ok(100));
    assert_eq!(parse_capacity("0"), Ok(0));
    assert_eq!(parse_capacity("101\n"), Err(SamplerError::Malformed));
    assert_eq!(parse_capacity("4294967296"), Err(SamplerError::Malformed));
    assert_eq!(parse_capacity("\n"), Err(SamplerError::Malformed));
    assert_eq!(parse_capacity("5x"), Err(SamplerError::Malformed));
    assert_eq!(parse_capacity("-5"), Err(SamplerError::Malformed));
}

#[test]
fn capacity_accepts_unicode_whitespace_and_plus_sign() {
    assert_eq!(parse_capacity("50\u{c}"), Ok(50));
    assert_eq!(parse_capacity("\u{b}\u{a0}42\u{3000}"), Ok(42));
    assert_eq!(parse_capacity("+50\n"), Ok(50));
    assert_eq!(parse_capacity("+\n"), Err(SamplerError::Malformed));
    assert_eq!(parse_capacity("++5"), Err(SamplerError::Malformed));
    assert_eq!(parse_capacity("+101"), Err(SamplerError::Malformed));
    assert_eq!(parse_capacity("007"), Ok(7));
}

#[test]
fn trim_removes_surrounding_whitespace() {
    assert_eq!(trim_text("  a b \n"), "a b");
    assert_eq!(trim_text("\t\r\n"), "");
    assert_eq!(trim_text("\u{b}\u{c}x\u{2028}\u{200a}"), "x");
    assert_eq!(trim_text("x\u{200b}"), "x\u{200b}");
}

#[test]
fn battery_source_paths() {
    assert_eq!(capacity_path("BAT0"), "/sys/class/power_supply/BAT0/capacity");
    assert_eq!(status_path("BAT1"), "/sys/class/power_supply/BAT1/status");
}

#[test]
fn template_replaces_every_placeholder() {
    assert_eq!(fill_template("{}", 27), "27%");
    assert_eq!(fill_template("Battery {} left, {}!", 5), "Battery 5% left, 5%!");
    assert_eq!(fill_template("no placeholder", 5), "no placeholder");
    assert_eq!(fill_template("{{}}", 7), "{7%}");
    assert_eq!(fill_template("{", 7), "{");
    assert_eq!(fill_template("", 7), "");
    assert_eq!(fill_template("ünï{}", 1), "ünï1%");
}

#[test]
fn percent_rendering() {
    assert_eq!(percent_string(0), "0%");
    assert_eq!(percent_string(9), "9%");
    assert_eq!(percent_string(10), "10%");
    assert_eq!(percent_string(100), "100%");
    assert_eq!(percent_string(4294967295), "4294967295%");
}

#[test]
fn timeout_in_milliseconds() {
    assert_eq!(display_timeout_ms(None), None);
    assert_eq!(display_timeout_ms(Some(3)), Some(3000));
    assert_eq!(display_timeout_ms(Some(u32::MAX)), Some(4_294_967_295_000));
}

#[test]
fn threshold_message_defaults_and_templates() {
    let n = Notification {
        level: 20,
        urgency: Urgency::Critical,
        notified: false,
        time_secs: Some(2),
        command: Some("true".to_string()),
        title: None,
        message: None,
    };
    let m = threshold_message(18, &n);
    assert_eq!(m.title, "Battery Status");
    assert_eq!(m.body, "18%");
    assert_eq!(m.urgency, Urgency::Critical);
    assert_eq!(m.timeout_ms, Some(2000));
    assert_eq!(m.command, Some("true".to_string()));
    let t = Notification { title: Some("Low: {}".to_string()), message: Some("at {} now".to_string()), ..n };
    let m = threshold_message(18, &t);
    assert_eq!(m.title, "Low: 18%");
    assert_eq!(m.body, "at 18% now");
}

#[test]
fn full_message_defaults() {
    let f = BatteryFullNotification {
        urgency: Urgency::Low,
        notified: false,
        time_secs: None,
        enabled: true,
        command: None,
        title: None,
        message: None,
    };
    let m = full_message(100, &f);
    assert_eq!(m.title, "Battery Status");
    assert_eq!(m.body, "Fully Charged 100%");
    assert_eq!(m.timeout_ms, None);
    assert_eq!(m.command, None);
}

#[test]
fn default_config_contents() {
    let c = get_default_config();
    let levels: Vec<u32> = c.notifications.iter().map(|n| n.level).collect();
    assert_eq!(levels, vec![30, 20, 15, 10, 5, 2, 1]);
    assert_eq!(c.notifications[0].urgency, Urgency::Low);
    assert_eq!(c.notifications[1].urgency, Urgency::Normal);
    assert_eq!(c.notifications[2].urgency, Urgency::Critical);
    assert_eq!(c.notifications[2].time_secs, Some(CRITICAL_WAIT_TIME_SECS));
    assert_eq!(c.notifications[0].time_secs, None);
    assert_eq!(c.notifications[3].title.as_deref(), Some("Battery Status"));
    assert_eq!(c.notifications[4].title.as_deref(), Some("Critical Battery Status"));
    assert_eq!(c.notifications[6].message.as_deref(), Some("{}%"));
    assert!(c.notifications.iter().all(|n| !n.notified && n.command.is_none()));
    assert!(c.full_notification.enabled);
    assert_eq!(c.full_notification.message.as_deref(), Some("Fully Charged 100%"));
}

#[test]
fn thresholds_listed_ascending() {
    assert_eq!(threshold_list(&get_default_config()), "1%, 2%, 5%, 10%, 15%, 20%, 30%");
    let mut c = get_default_config();
    c.notifications.truncate(1);
    assert_eq!(threshold_list(&c), "30%");
    c.notifications.clear();
    assert_eq!(threshold_list(&c), "");
}

#[test]
fn command_line_split_with_shell_rules() {
    match parse_command("notify-send 'low battery' now") {
        CommandLine::Run { program, args } => {
            assert_eq!(program, "notify-send");
            assert_eq!(args, vec!["low battery".to_string(), "now".to_string()]);
        }
        other => panic!("unexpected {:?}", other),
    }
    assert!(matches!(parse_command("   "), CommandLine::Empty));
    assert!(matches!(parse_command("echo 'unclosed"), CommandLine::Unparsable));
}

#[test]
fn command_from_split_words() {
    assert!(matches!(command_from_words(Vec::new()), CommandLine::Empty));
    match command_from_words(vec!["a".to_string(), "b".to_string()]) {
        CommandLine::Run { program, args } => {
            assert_eq!(program, "a");
            assert_eq!(args, vec!["b".to_string()]);
        }
        other => panic!("unexpected {:?}", other),
    }
}

#[test]
fn config_errors_are_distinct() {
    assert_ne!(Error::LoadConfigError, Error::SaveDefaultConfigError);
}
