use crate::engine::levels_of;
use crate::notification::{percent_string, percent_text, BatteryFullNotification, Notification, Urgency};
use std::path::PathBuf;
use vstd::prelude::*;

verus! {

/// Display time, in seconds, of the critical default notifications.
pub const CRITICAL_WAIT_TIME_SECS: u32 = 10000;

/// File name of the configuration inside the configuration directory.
pub const CONFIG_NAME: &'static str = "config.json";

/// The threshold rules and the full-charge rule.
#[derive(Debug, Clone)]
pub struct Config {
    pub notifications: Vec<Notification>,
    pub full_notification: BatteryFullNotification,
}

/// Why a configuration could not be loaded or saved.
#[derive(Debug, Clone, Copy, PartialEq, Eq, Structural)]
pub enum Error {
    LoadConfigError,
    SaveDefaultConfigError,
}

#[verifier::external_type_specification]
#[verifier::external_body]
pub struct ExPathBuf(PathBuf);

/// Relies on `directories::ProjectDirs::from` and `ProjectDirs::config_dir`:
/// the per-user configuration directory of an application, when the home
/// directory can be found. Depends on the environment, so nothing is stated.
#[verifier::external_body]
fn project_config_dir(qualifier: &str, organization: &str, application: &str) -> Option<PathBuf> {
    match directories::ProjectDirs::from(qualifier, organization, application) {
        Some(dirs) => Some(dirs.config_dir().to_path_buf()),
        None => None,
    }
}

/// Relies on `std::path::Path::join`: `name` appended to `dir`.
#[verifier::external_body]
fn join_path(dir: &PathBuf, name: &str) -> PathBuf {
    dir.join(name)
}

/// The path of the configuration file in the user's configuration
/// directory, or `None` when that directory cannot be determined.
pub fn get_default_config_path() -> Option<PathBuf> {
    match project_config_dir("me", "laeri", "powernotd") {
        Some(dir) => Some(join_path(&dir, CONFIG_NAME)),
        None => None,
    }
}

/// `t` is configured, with the text `s`.
pub open spec fn text_is(t: Option<String>, s: Seq<char>) -> bool {
    t matches Some(v) && v@ == s
}

/// The default threshold levels, highest first.
pub open spec fn default_levels() -> Seq<u32> {
    seq![30u32, 20, 15, 10, 5, 2, 1]
}

fn default_rule(level: u32, urgency: Urgency, time_secs: Option<u32>, title: &str) -> (r: Notification)
    ensures
        r.level == level,
        r.urgency == urgency,
        !r.notified,
        r.time_secs == time_secs,
        r.command is None,
        text_is(r.title, title@),
        text_is(r.message, "{}%"@),
{
    Notification {
        level,
        urgency,
        notified: false,
        time_secs,
        command: None,
        title: Some(title.to_owned()),
        message: Some("{}%".to_owned()),
    }
}

/// The built-in configuration: warnings at 30 (low), 20 (normal) and 15,
/// 10, 5, 2, 1 percent (critical, shown for a long time, the last three
/// titled as critical), and an enabled full-charge notification.
pub fn get_default_config() -> (c: Config)
    ensures
        levels_of(c.notifications@) == default_levels(),
        forall|i: int| 0 <= i < 7 ==> {
            let r = #[trigger] c.notifications@[i];
            &&& !r.notified
            &&& r.command is None
            &&& text_is(r.message, "{}%"@)
            &&& text_is(r.title, if i < 4 { "Battery Status"@ } else { "Critical Battery Status"@ })
            &&& r.urgency == if i == 0 { Urgency::Low } else if i == 1 { Urgency::Normal } else { Urgency::Critical }
            &&& r.time_secs == if i < 2 { None } else { Some(CRITICAL_WAIT_TIME_SECS) }
        },
        c.full_notification.urgency == Urgency::Low,
        !c.full_notification.notified,
        c.full_notification.time_secs is None,
        c.full_notification.enabled,
        c.full_notification.command is None,
        text_is(c.full_notification.title, "Battery Status"@),
        text_is(c.full_notification.message, "Fully Charged 100%"@),
{
    let default_title = "Battery Status";
    let critical_title = "Critical Battery Status";
    let mut notifications: Vec<Notification> = Vec::new();
    notifications.push(default_rule(30, Urgency::Low, None, default_title));
    notifications.push(default_rule(20, Urgency::Normal, None, default_title));
    notifications.push(default_rule(15, Urgency::Critical, Some(CRITICAL_WAIT_TIME_SECS), default_title));
    notifications.push(default_rule(10, Urgency::Critical, Some(CRITICAL_WAIT_TIME_SECS), default_title));
    notifications.push(default_rule(5, Urgency::Critical, Some(CRITICAL_WAIT_TIME_SECS), critical_title));
    notifications.push(default_rule(2, Urgency::Critical, Some(CRITICAL_WAIT_TIME_SECS), critical_title));
    notifications.push(default_rule(1, Urgency::Critical, Some(CRITICAL_WAIT_TIME_SECS), critical_title));
    let full_notification = BatteryFullNotification {
        urgency: Urgency::Low,
        notified: false,
        time_secs: None,
        enabled: true,
        command: None,
        title: Some("Battery Status".to_owned()),
        message: Some("Fully Charged 100%".to_owned()),
    };
    proof {
        assert(levels_of(notifications@) =~= default_levels());
    }
    Config { notifications, full_notification }
}

/// Relies on `slice::sort`: sorts in ascending order, keeping the elements.
#[verifier::external_body]
fn sort_levels(v: &mut Vec<u32>)
    ensures
        final(v)@.to_multiset() == old(v)@.to_multiset(),
        forall|i: int, j: int| 0 <= i < j < final(v)@.len() ==> final(v)@[i] <= final(v)@[j],
{
    v.sort()
}

/// Percentages written `N%` and separated by `, `.
pub open spec fn list_text(s: Seq<u32>) -> Seq<char>
    decreases s.len(),
{
    if s.len() == 0 {
        Seq::empty()
    } else if s.len() == 1 {
        percent_text(s[0])
    } else {
        list_text(s.drop_last()) + ", "@ + percent_text(s.last())
    }
}

/// The configured threshold levels in ascending order, as
/// `a1%, a2%, ..., an%`.
pub fn threshold_list(config: &Config) -> (r: String)
    ensures
        exists|s: Seq<u32>|
            {
                &&& s.to_multiset() == levels_of(config.notifications@).to_multiset()
                &&& forall|i: int, j: int| 0 <= i < j < s.len() ==> s[i] <= s[j]
                &&& r@ == list_text(s)
            },
{
    let mut levels: Vec<u32> = Vec::new();
    let mut i: usize = 0;
    while i < config.notifications.len()
        invariant
            i <= config.notifications.len(),
            levels@ == levels_of(config.notifications@).take(i as int),
        decreases config.notifications.len() - i,
    {
        levels.push(config.notifications[i].level);
        proof {
            assert(levels@ =~= levels_of(config.notifications@).take(i + 1));
        }
        i += 1;
    }
    proof {
        assert(levels@ =~= levels_of(config.notifications@));
    }
    sort_levels(&mut levels);
    let mut out = String::new();
    let mut k: usize = 0;
    while k < levels.len()
        invariant
            k <= levels.len(),
            out@ == list_text(levels@.take(k as int)),
        decreases levels.len() - k,
    {
        proof {
            assert(levels@.take(k + 1).drop_last() =~= levels@.take(k as int));
        }
        if k > 0 {
            out.append(", ");
        }
        let p = percent_string(levels[k]);
        out.append(p.as_str());
        proof {
            if k == 0 {
                assert(out@ =~= percent_text(levels@[0]));
            }
        }
        k += 1;
    }
    proof {
        assert(levels@.take(levels@.len() as int) =~= levels@);
    }
    out
}

} // verus!
