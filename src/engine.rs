use crate::battery::SamplerError;
use crate::notification::{
    full_message, full_renders, threshold_message, threshold_renders, with_notified,
    BatteryFullNotification, Message, Notification,
};
use vstd::prelude::*;

verus! {

/// The threshold levels of a rule set, in order.
pub open spec fn levels_of(rules: Seq<Notification>) -> Seq<u32> {
    rules.map_values(|r: Notification| r.level)
}

/// The lowest of `levels` that is at least `sample`, if any.
pub open spec fn lowest_at_least(levels: Seq<u32>, sample: u32) -> Option<u32>
    decreases levels.len(),
{
    if levels.len() == 0 {
        None
    } else {
        let rest = lowest_at_least(levels.drop_last(), sample);
        let l = levels.last();
        if l >= sample {
            match rest {
                Some(m) => if m <= l { Some(m) } else { Some(l) },
                None => Some(l),
            }
        } else {
            rest
        }
    }
}

/// `l` is the minimum of `{ x in levels : x >= sample }`.
pub open spec fn is_band(levels: Seq<u32>, sample: u32, l: u32) -> bool {
    &&& levels.contains(l)
    &&& l >= sample
    &&& forall|i: int| 0 <= i < levels.len() && levels[i] >= sample ==> l <= levels[i]
}

/// The active band of `sample`: the lowest configured level at or above it.
pub open spec fn band(rules: Seq<Notification>, sample: u32) -> Option<u32> {
    lowest_at_least(levels_of(rules), sample)
}

/// Band selection: the selected band is `min { l in L : l >= sample }`, and
/// there is none exactly when the sample exceeds every level.
pub proof fn lemma_band_selection(levels: Seq<u32>, sample: u32)
    ensures
        match lowest_at_least(levels, sample) {
            Some(l) => is_band(levels, sample, l),
            None => forall|i: int| 0 <= i < levels.len() ==> levels[i] < sample,
        },
    decreases levels.len(),
{
    if levels.len() > 0 {
        let init = levels.drop_last();
        lemma_band_selection(init, sample);
        assert forall|i: int| 0 <= i < init.len() implies levels[i] == init[i] by {}
        assert(levels =~= init.push(levels.last()));
        match lowest_at_least(init, sample) {
            Some(m) => {
                assert(init.contains(m));
                let k = choose|k: int| 0 <= k < init.len() && init[k] == m;
                assert(levels[k] == m);
            },
            None => {},
        }
        assert(levels[levels.len() - 1] == levels.last());
    }
}

/// A lower sample never selects a higher band.
pub proof fn lemma_band_monotone(levels: Seq<u32>, lo: u32, hi: u32)
    requires
        lo <= hi,
        lowest_at_least(levels, hi) is Some,
    ensures
        lowest_at_least(levels, lo) is Some,
        lowest_at_least(levels, lo)->Some_0 <= lowest_at_least(levels, hi)->Some_0,
{
    lemma_band_selection(levels, hi);
    lemma_band_selection(levels, lo);
    let h = lowest_at_least(levels, hi)->Some_0;
    let k = choose|k: int| 0 <= k < levels.len() && levels[k] == h;
    assert(levels[k] >= lo);
}

/// Find the lowest threshold at or above the current battery level: the
/// band the level falls into.
pub fn find_lowest_threshold(current: u32, notified: &Vec<Notification>) -> (r: Option<u32>)
    ensures
        r == band(notified@, current),
        r matches Some(l) ==> is_band(levels_of(notified@), current, l),
        r is None ==> forall|i: int| 0 <= i < notified.len() ==> notified[i].level < current,
{
    let mut best: Option<u32> = None;
    let mut i: usize = 0;
    while i < notified.len()
        invariant
            i <= notified.len(),
            best == lowest_at_least(levels_of(notified@).take(i as int), current),
        decreases notified.len() - i,
    {
        let l = notified[i].level;
        proof {
            let ls = levels_of(notified@);
            assert(ls.take(i + 1).drop_last() =~= ls.take(i as int));
            assert(ls.take(i + 1).last() == l);
        }
        if l >= current {
            best = match best {
                Some(m) => if m <= l { Some(m) } else { Some(l) },
                None => Some(l),
            };
        }
        i += 1;
    }
    proof {
        assert(levels_of(notified@).take(notified.len() as int) =~= levels_of(notified@));
        lemma_band_selection(levels_of(notified@), current);
        assert(best == lowest_at_least(levels_of(notified@), current));
        assert(levels_of(notified@).len() == notified@.len());
        match best {
            Some(l) => assert(is_band(levels_of(notified@), current, l)),
            None => {
                assert forall|i: int| 0 <= i < notified.len() implies notified[i].level < current by {
                    assert(levels_of(notified@)[i] == notified[i].level);
                }
            },
        }
    }
    best
}

/// Some rule at level `l` is armed (has not fired during this visit).
pub open spec fn armed_at(rules: Seq<Notification>, l: u32) -> bool {
    exists|i: int| 0 <= i < rules.len() && rules[i].level == l && !rules[i].notified
}

/// The threshold that fires on a tick: the active band, when one of its
/// rules is armed and the charge fell strictly since the previous tick.
pub open spec fn threshold_fire(rules: Seq<Notification>, sample: u32, previous: u32) -> Option<u32> {
    match band(rules, sample) {
        Some(l) => if sample < previous && armed_at(rules, l) { Some(l) } else { None },
        None => None,
    }
}

/// The runtime flag of a rule after a tick: only a rule of the active band
/// stays (or becomes) disarmed; every other rule is re-armed.
pub open spec fn next_notified(r: Notification, rules: Seq<Notification>, sample: u32, previous: u32) -> bool {
    band(rules, sample) == Some(r.level) && (r.notified || sample < previous)
}

/// The rule set after a tick.
pub open spec fn step_rules(rules: Seq<Notification>, sample: u32, previous: u32) -> Seq<Notification> {
    rules.map_values(|r: Notification| with_notified(r, next_notified(r, rules, sample, previous)))
}

/// Whether the full-charge notification fires on a tick.
pub open spec fn full_fires(f: BatteryFullNotification, sample: u32, previous: u32) -> bool {
    f.enabled && !f.notified && sample >= 100 && sample > previous
}

/// The full-charge flag after a tick: cleared by any tick that does not
/// rise, set by a rising tick that reaches 100.
pub open spec fn full_next_notified(f: BatteryFullNotification, sample: u32, previous: u32) -> bool {
    if !f.enabled {
        f.notified
    } else if previous >= sample {
        false
    } else {
        f.notified || sample >= 100
    }
}

/// Re-arm every rule whose level is not `threshold_val`.
pub fn reset_other_notifications(threshold_val: &u32, notified: &mut Vec<Notification>)
    ensures
        final(notified)@.len() == old(notified)@.len(),
        forall|i: int| 0 <= i < old(notified)@.len() ==> final(notified)@[i] == with_notified(
            old(notified)@[i],
            old(notified)@[i].level == *threshold_val && old(notified)@[i].notified,
        ),
{
    let ghost start = notified@;
    let mut i: usize = 0;
    while i < notified.len()
        invariant
            i <= notified.len(),
            notified@.len() == start.len(),
            forall|j: int| 0 <= j < i ==> notified@[j] == with_notified(
                start[j],
                start[j].level == *threshold_val && start[j].notified,
            ),
            forall|j: int| i <= j < start.len() ==> notified@[j] == start[j],
        decreases start.len() - i,
    {
        if notified[i].level != *threshold_val {
            notified[i].notified = false;
        }
        i += 1;
    }
}

/// Re-arm every rule.
fn rearm_all(rules: &mut Vec<Notification>)
    ensures
        final(rules)@.len() == old(rules)@.len(),
        forall|i: int| 0 <= i < old(rules)@.len() ==> final(rules)@[i] == with_notified(old(rules)@[i], false),
{
    let ghost start = rules@;
    let mut i: usize = 0;
    while i < rules.len()
        invariant
            i <= rules.len(),
            rules@.len() == start.len(),
            forall|j: int| 0 <= j < i ==> rules@[j] == with_notified(start[j], false),
            forall|j: int| i <= j < start.len() ==> rules@[j] == start[j],
        decreases start.len() - i,
    {
        rules[i].notified = false;
        i += 1;
    }
}

/// Disarm every rule at `level`.
fn disarm_level(level: u32, rules: &mut Vec<Notification>)
    ensures
        final(rules)@.len() == old(rules)@.len(),
        forall|i: int| 0 <= i < old(rules)@.len() ==> final(rules)@[i] == with_notified(
            old(rules)@[i],
            old(rules)@[i].level == level || old(rules)@[i].notified,
        ),
{
    let ghost start = rules@;
    let mut i: usize = 0;
    while i < rules.len()
        invariant
            i <= rules.len(),
            rules@.len() == start.len(),
            forall|j: int| 0 <= j < i ==> rules@[j] == with_notified(
                start[j],
                start[j].level == level || start[j].notified,
            ),
            forall|j: int| i <= j < start.len() ==> rules@[j] == start[j],
        decreases start.len() - i,
    {
        if rules[i].level == level {
            rules[i].notified = true;
        }
        i += 1;
    }
}

/// Whether some rule at `level` is armed.
fn has_armed_rule(level: u32, rules: &Vec<Notification>) -> (r: bool)
    ensures
        r == armed_at(rules@, level),
{
    let mut i: usize = 0;
    while i < rules.len()
        invariant
            i <= rules.len(),
            forall|j: int| 0 <= j < i ==> !(rules@[j].level == level && !rules@[j].notified),
        decreases rules.len() - i,
    {
        if rules[i].level == level && !rules[i].notified {
            return true;
        }
        i += 1;
    }
    false
}

/// Decide whether the full-charge notification fires on this tick, and
/// update its flag: a tick that does not rise re-arms it, a rising tick that
/// reaches 100 fires it once. Returns whether it fires.
pub fn check_notify_full_battery(
    current: &u32,
    last: &u32,
    full_notification: &mut BatteryFullNotification,
) -> (fire: bool)
    ensures
        fire == full_fires(*old(full_notification), *current, *last),
        *final(full_notification) == (BatteryFullNotification {
            notified: full_next_notified(*old(full_notification), *current, *last),
            ..*old(full_notification)
        }),
{
    if !full_notification.enabled {
        return false;
    }
    if *last >= *current {
        full_notification.notified = false;
        return false;
    }
    if !full_notification.notified && *current >= 100 {
        full_notification.notified = true;
        return true;
    }
    false
}

/// What one tick asks to be sent.
#[derive(Debug, Clone, Copy, PartialEq, Eq, Structural)]
pub struct Actions {
    /// The level of the threshold rule that fires, if any.
    pub threshold: Option<u32>,
    /// Whether the full-charge notification fires.
    pub full: bool,
}

/// The threshold engine: the rules with their armed flags, and the
/// full-charge rule with its flag.
pub struct Engine {
    pub rules: Vec<Notification>,
    pub full: BatteryFullNotification,
}

/// No two rules share a level.
pub open spec fn levels_unique(rules: Seq<Notification>) -> bool {
    forall|i: int, j: int| 0 <= i < j < rules.len() ==> rules[i].level != rules[j].level
}

/// Whether some rule has `level`.
fn has_level(level: u32, rules: &Vec<Notification>) -> (r: bool)
    ensures
        r == exists|j: int| 0 <= j < rules@.len() && rules@[j].level == level,
{
    let mut i: usize = 0;
    while i < rules.len()
        invariant
            i <= rules.len(),
            forall|j: int| 0 <= j < i ==> rules@[j].level != level,
        decreases rules.len() - i,
    {
        if rules[i].level == level {
            return true;
        }
        i += 1;
    }
    false
}

/// The rules of `given[n..]` with one rule per level, the last one given
/// for it, disarmed; collected from the end.
pub open spec fn kept_after(given: Seq<Notification>, n: int) -> Seq<Notification>
    decreases given.len() - n,
{
    if n < 0 || n >= given.len() {
        Seq::empty()
    } else {
        let later = kept_after(given, n + 1);
        if exists|j: int| 0 <= j < later.len() && later[j].level == given[n].level {
            later
        } else {
            later.push(with_notified(given[n], false))
        }
    }
}

proof fn lemma_kept_after_unique(given: Seq<Notification>, n: int)
    requires
        0 <= n <= given.len(),
    ensures
        levels_unique(kept_after(given, n)),
    decreases given.len() - n,
{
    if n < given.len() {
        lemma_kept_after_unique(given, n + 1);
        let later = kept_after(given, n + 1);
        if !(exists|j: int| 0 <= j < later.len() && later[j].level == given[n].level) {
            let next = later.push(with_notified(given[n], false));
            assert forall|i: int, j: int| 0 <= i < j < next.len() implies next[i].level != next[j].level by {
                if j == later.len() {
                    assert(next[i] == later[i]);
                } else {
                    assert(next[i] == later[i] && next[j] == later[j]);
                }
            }
        }
    }
}

impl Engine {
    /// An engine over `rules` and `full`, with every flag reset. Of rules
    /// that share a level, the last one given is kept.
    pub fn new(rules: Vec<Notification>, full: BatteryFullNotification) -> (e: Engine)
        ensures
            e.rules@ == kept_after(rules@, 0),
            levels_unique(e.rules@),
            e.full == (BatteryFullNotification { notified: false, ..full }),
    {
        let ghost given = rules@;
        let mut rest = rules;
        let mut kept: Vec<Notification> = Vec::new();
        while rest.len() > 0
            invariant
                rest@ == given.take(rest@.len() as int),
                rest@.len() <= given.len(),
                kept@ == kept_after(given, rest@.len() as int),
            decreases rest@.len(),
        {
            let ghost n = rest@.len() as int;
            let mut r = rest.pop().unwrap();
            proof {
                assert(rest@ =~= given.take(n - 1));
                assert(r == given[n - 1]);
            }
            if !has_level(r.level, &kept) {
                r.notified = false;
                kept.push(r);
            }
        }
        proof {
            lemma_kept_after_unique(given, 0);
        }
        let mut full = full;
        full.notified = false;
        Engine { rules: kept, full }
    }

    /// Classify one sample against the previous one: fire at most one
    /// threshold and at most one full-charge notification, and update the
    /// flags.
    pub fn advance(&mut self, sample: u32, previous: u32) -> (a: Actions)
        ensures
            a.threshold == threshold_fire(old(self).rules@, sample, previous),
            a.full == full_fires(old(self).full, sample, previous),
            final(self).rules@ == step_rules(old(self).rules@, sample, previous),
            levels_unique(old(self).rules@) ==> levels_unique(final(self).rules@),
            final(self).full == (BatteryFullNotification {
                notified: full_next_notified(old(self).full, sample, previous),
                ..old(self).full
            }),
    {
        let ghost start = self.rules@;
        let active = find_lowest_threshold(sample, &self.rules);
        let mut threshold: Option<u32> = None;
        match active {
            Some(l) => {
                if sample < previous {
                    if has_armed_rule(l, &self.rules) {
                        threshold = Some(l);
                    }
                    disarm_level(l, &mut self.rules);
                }
                reset_other_notifications(&l, &mut self.rules);
            },
            None => {
                rearm_all(&mut self.rules);
            },
        }
        let full = check_notify_full_battery(&sample, &previous, &mut self.full);
        proof {
            assert(self.rules@ =~= step_rules(start, sample, previous));
            assert forall|j: int| 0 <= j < start.len() implies #[trigger] self.rules@[j].level == start[j].level by {
                assert(self.rules@[j] == step_rules(start, sample, previous)[j]);
            }
        }
        Actions { threshold, full }
    }
}

/// `k` is the first rule at `level`.
pub open spec fn first_at(rules: Seq<Notification>, level: u32, k: int) -> bool {
    &&& 0 <= k < rules.len()
    &&& rules[k].level == level
    &&& forall|j: int| 0 <= j < k ==> rules[j].level != level
}

impl Engine {
    /// The notification of the first rule at `level`, rendered for the
    /// current percentage `sample`; `None` when no rule has that level.
    pub fn threshold_message_for(&self, level: u32, sample: u32) -> (m: Option<Message>)
        ensures
            m is None <==> forall|j: int| 0 <= j < self.rules@.len() ==> self.rules@[j].level != level,
            m matches Some(msg) ==> exists|k: int| first_at(self.rules@, level, k) && threshold_renders(
                msg,
                sample,
                self.rules@[k],
            ),
    {
        let mut i: usize = 0;
        while i < self.rules.len()
            invariant
                i <= self.rules.len(),
                forall|j: int| 0 <= j < i ==> self.rules@[j].level != level,
            decreases self.rules.len() - i,
        {
            if self.rules[i].level == level {
                let msg = threshold_message(sample, &self.rules[i]);
                assert(first_at(self.rules@, level, i as int));
                return Some(msg);
            }
            i += 1;
        }
        None
    }
}

/// The scheduler's state: the engine and the last observed percentage.
pub struct Scheduler {
    pub engine: Engine,
    pub last_level: u32,
}

impl Scheduler {
    /// A scheduler over `engine`; the last level starts at 100.
    pub fn new(engine: Engine) -> (s: Scheduler)
        ensures
            s.engine == engine,
            s.last_level == 100,
    {
        Scheduler { engine, last_level: 100 }
    }

    /// One tick on a capacity reading. A failed reading changes nothing and
    /// sends nothing. A sample advances the engine against the last level,
    /// becomes the last level, and gives the notifications to send: the
    /// threshold one first, then the full-charge one.
    pub fn tick(&mut self, reading: Result<u32, SamplerError>) -> (msgs: Vec<Message>)
        ensures
            reading is Err ==> *final(self) == *old(self) && msgs@.len() == 0,
            reading matches Ok(sample) ==> {
                let prev = old(self).last_level;
                let rules = old(self).engine.rules@;
                let full = old(self).engine.full;
                let t = threshold_fire(rules, sample, prev);
                &&& final(self).last_level == sample
                &&& final(self).engine.rules@ == step_rules(rules, sample, prev)
                &&& final(self).engine.full == (BatteryFullNotification {
                    notified: full_next_notified(full, sample, prev),
                    ..full
                })
                &&& msgs@.len() == (if t is Some { 1int } else { 0int }) + (if full_fires(
                    full,
                    sample,
                    prev,
                ) { 1int } else { 0int })
                &&& t matches Some(l) ==> exists|k: int| first_at(rules, l, k) && threshold_renders(
                    msgs@[0],
                    sample,
                    rules[k],
                )
                &&& full_fires(full, sample, prev) ==> full_renders(msgs@[msgs@.len() - 1], sample, full)
            },
    {
        let mut msgs: Vec<Message> = Vec::new();
        match reading {
            Err(_) => msgs,
            Ok(sample) => {
                let ghost rules = self.engine.rules@;
                let prev = self.last_level;
                let actions = self.engine.advance(sample, prev);
                if let Some(l) = actions.threshold {
                    proof {
                        lemma_band_selection(levels_of(rules), sample);
                        let k = choose|k: int| 0 <= k < levels_of(rules).len() && levels_of(rules)[k] == l;
                        assert(self.engine.rules@[k] == step_rules(rules, sample, prev)[k]);
                        assert(rules[k].level == l);
                        assert(self.engine.rules@[k].level == l);
                    }
                    match self.engine.threshold_message_for(l, sample) {
                        Some(m) => {
                            proof {
                                let k = choose|k: int| first_at(self.engine.rules@, l, k) && threshold_renders(m, sample, self.engine.rules@[k]);
                                assert forall|j: int| 0 <= j < rules.len() implies #[trigger] rules[j].level == self.engine.rules@[j].level by {
                                    assert(self.engine.rules@[j] == step_rules(rules, sample, prev)[j]);
                                }
                                assert(self.engine.rules@[k] == step_rules(rules, sample, prev)[k]);
                                assert(first_at(rules, l, k));
                                assert(threshold_renders(m, sample, rules[k]));
                            }
                            msgs.push(m);
                        },
                        None => {},
                    }
                }
                if actions.full {
                    msgs.push(full_message(sample, &self.engine.full));
                }
                self.last_level = sample;
                msgs
            },
        }
    }
}

} // verus!
