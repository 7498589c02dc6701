use crate::engine::{
    armed_at, band, full_fires, full_next_notified, lemma_band_monotone, lemma_band_selection,
    levels_of, step_rules, threshold_fire,
};
use crate::notification::{BatteryFullNotification, Notification};
use vstd::prelude::*;

verus! {

/// How many times the threshold at `l` fires when the engine, holding
/// `rules` after a tick that saw `previous`, is fed `samples` in order.
pub open spec fn fire_count(rules: Seq<Notification>, previous: u32, samples: Seq<u32>, l: u32) -> nat
    decreases samples.len(),
{
    if samples.len() == 0 {
        0
    } else {
        let s = samples[0];
        (if threshold_fire(rules, s, previous) == Some(l) { 1nat } else { 0nat })
            + fire_count(step_rules(rules, s, previous), s, samples.drop_first(), l)
    }
}

/// Every sample is at least the next one.
pub open spec fn non_increasing(samples: Seq<u32>) -> bool {
    forall|i: int| 0 <= i < samples.len() - 1 ==> #[trigger] samples[i] >= samples[i + 1]
}

/// Every sample is below the next one.
pub open spec fn increasing(samples: Seq<u32>) -> bool {
    forall|i: int| 0 <= i < samples.len() - 1 ==> #[trigger] samples[i] < samples[i + 1]
}

proof fn lemma_step_levels(rules: Seq<Notification>, sample: u32, previous: u32)
    ensures
        levels_of(step_rules(rules, sample, previous)) == levels_of(rules),
{
    assert(levels_of(step_rules(rules, sample, previous)) =~= levels_of(rules));
}

/// Level `l` can no longer fire while the charge keeps falling: the band
/// of the last sample is below `l`, or is `l` with every rule there disarmed.
spec fn settled(rules: Seq<Notification>, previous: u32, l: u32) -> bool {
    match band(rules, previous) {
        Some(b) => b < l || (b == l && !armed_at(rules, l)),
        None => false,
    }
}

proof fn lemma_settled_quiet(rules: Seq<Notification>, previous: u32, samples: Seq<u32>, l: u32)
    requires
        settled(rules, previous, l),
        non_increasing(samples),
        samples.len() > 0 ==> samples[0] <= previous,
    ensures
        fire_count(rules, previous, samples, l) == 0,
    decreases samples.len(),
{
    if samples.len() > 0 {
        let s = samples[0];
        let next = step_rules(rules, s, previous);
        lemma_band_monotone(levels_of(rules), s, previous);
        lemma_step_levels(rules, s, previous);
        let b = band(rules, s)->Some_0;
        if b == l {
            assert forall|i: int| 0 <= i < next.len() && next[i].level == l implies next[i].notified by {
                assert(rules[i].level == l);
            }
        }
        assert(settled(next, s, l));
        let rest = samples.drop_first();
        assert(non_increasing(rest)) by {
            assert forall|i: int| 0 <= i < rest.len() - 1 implies #[trigger] rest[i] >= rest[i + 1] by {
                assert(rest[i] == samples[i + 1] && rest[i + 1] == samples[i + 2]);
            }
        }
        if rest.len() > 0 {
            assert(rest[0] == samples[1]);
        }
        lemma_settled_quiet(next, s, rest, l);
    }
}

/// Single fire per band per visit: while the charge never rises, each
/// threshold fires at most once.
pub proof fn lemma_single_fire_on_discharge(
    rules: Seq<Notification>,
    previous: u32,
    samples: Seq<u32>,
    l: u32,
)
    requires
        non_increasing(samples),
    ensures
        fire_count(rules, previous, samples, l) <= 1,
    decreases samples.len(),
{
    if samples.len() > 0 {
        let s = samples[0];
        let next = step_rules(rules, s, previous);
        let rest = samples.drop_first();
        assert(non_increasing(rest)) by {
            assert forall|i: int| 0 <= i < rest.len() - 1 implies #[trigger] rest[i] >= rest[i + 1] by {
                assert(rest[i] == samples[i + 1] && rest[i + 1] == samples[i + 2]);
            }
        }
        if rest.len() > 0 {
            assert(rest[0] == samples[1]);
        }
        if threshold_fire(rules, s, previous) == Some(l) {
            lemma_step_levels(rules, s, previous);
            assert forall|i: int| 0 <= i < next.len() && next[i].level == l implies next[i].notified by {
                assert(rules[i].level == l);
            }
            assert(settled(next, s, l));
            lemma_settled_quiet(next, s, rest, l);
        } else {
            lemma_single_fire_on_discharge(next, s, rest, l);
        }
    }
}

proof fn lemma_no_fire_rising_one(rules: Seq<Notification>, previous: u32, samples: Seq<u32>, l: u32)
    requires
        increasing(samples),
        samples.len() > 0 ==> previous <= samples[0],
    ensures
        fire_count(rules, previous, samples, l) == 0,
    decreases samples.len(),
{
    if samples.len() > 0 {
        let s = samples[0];
        let rest = samples.drop_first();
        assert(increasing(rest)) by {
            assert forall|i: int| 0 <= i < rest.len() - 1 implies #[trigger] rest[i] < rest[i + 1] by {
                assert(rest[i] == samples[i + 1] && rest[i + 1] == samples[i + 2]);
            }
        }
        if rest.len() > 0 {
            assert(rest[0] == samples[1]);
        }
        lemma_no_fire_rising_one(step_rules(rules, s, previous), s, rest, l);
    }
}

/// No fire on charging: when every sample is above the one before it
/// (the first above `previous`), no threshold fires.
pub proof fn lemma_no_fire_while_charging(rules: Seq<Notification>, previous: u32, samples: Seq<u32>)
    requires
        increasing(samples),
        samples.len() > 0 ==> previous < samples[0],
    ensures
        forall|l: u32| fire_count(rules, previous, samples, l) == 0,
{
    assert forall|l: u32| fire_count(rules, previous, samples, l) == 0 by {
        lemma_no_fire_rising_one(rules, previous, samples, l);
    }
}

/// No fire on startup at 100%: a first sample of 100 against the initial
/// previous sample of 100 fires no threshold, whatever the rules.
pub proof fn lemma_no_fire_at_full_start(rules: Seq<Notification>)
    ensures
        threshold_fire(rules, 100, 100) is None,
{
}

proof fn lemma_back_into_band(rules: Seq<Notification>, previous: u32, away: Seq<u32>, c: u32, l: u32)
    requires
        away.len() > 0,
        forall|i: int| 0 <= i < away.len() ==> band(rules, #[trigger] away[i]) != Some(l),
        c < away.last(),
        band(rules, c) == Some(l),
    ensures
        fire_count(rules, previous, away + seq![c], l) == 1,
    decreases away.len(),
{
    let m = away[0];
    let next = step_rules(rules, m, previous);
    let samples = away + seq![c];
    lemma_step_levels(rules, m, previous);
    assert(samples[0] == m);
    assert(band(rules, m) != Some(l));
    assert(samples.drop_first() =~= away.drop_first() + seq![c]);
    if away.len() == 1 {
        lemma_band_selection(levels_of(rules), c);
        let k = choose|k: int| 0 <= k < levels_of(rules).len() && levels_of(rules)[k] == l;
        assert(rules[k].level == l);
        assert(next[k].level == l && !next[k].notified);
        assert(armed_at(next, l));
        assert(away.drop_first() + seq![c] =~= seq![c]);
        assert(seq![c].drop_first() =~= Seq::<u32>::empty());
        assert(fire_count(step_rules(next, c, m), c, Seq::<u32>::empty(), l) == 0);
        assert(fire_count(next, m, seq![c], l) == 1);
    } else {
        let rest = away.drop_first();
        assert forall|i: int| 0 <= i < rest.len() implies band(next, #[trigger] rest[i]) != Some(l) by {
            assert(rest[i] == away[i + 1]);
        }
        assert(rest.last() == away.last());
        lemma_back_into_band(next, m, rest, c, l);
    }
}

/// Re-arm on band exit: a band entered on a falling tick while armed, left
/// for one or more ticks outside it (another band, or above every level),
/// and entered again on a falling tick fires exactly twice.
pub proof fn lemma_rearm_on_band_exit(
    rules: Seq<Notification>,
    previous: u32,
    a: u32,
    away: Seq<u32>,
    c: u32,
    l: u32,
)
    requires
        armed_at(rules, l),
        a < previous,
        band(rules, a) == Some(l),
        away.len() > 0,
        forall|i: int| 0 <= i < away.len() ==> band(rules, #[trigger] away[i]) != Some(l),
        c < away.last(),
        band(rules, c) == Some(l),
    ensures
        fire_count(rules, previous, seq![a] + away + seq![c], l) == 2,
{
    let samples = seq![a] + away + seq![c];
    let r1 = step_rules(rules, a, previous);
    lemma_step_levels(rules, a, previous);
    assert(samples[0] == a);
    assert(samples.drop_first() =~= away + seq![c]);
    lemma_back_into_band(r1, a, away, c, l);
}

/// The tick does not fall: no threshold fires, the active band's rules
/// keep their flags and every other rule is re-armed.
pub proof fn lemma_no_fire_on_rising_tick(rules: Seq<Notification>, sample: u32, previous: u32)
    requires
        sample >= previous,
    ensures
        threshold_fire(rules, sample, previous) is None,
        step_rules(rules, sample, previous).len() == rules.len(),
        forall|i: int| 0 <= i < rules.len() ==> (#[trigger] step_rules(rules, sample, previous)[i]).notified == (
        band(rules, sample) == Some(rules[i].level) && rules[i].notified),
{
}

/// Whether the full-charge notification fires on each tick, for the full
/// rule `f` after a tick that saw `previous`, fed `samples` in order.
pub open spec fn full_fire_ticks(f: BatteryFullNotification, previous: u32, samples: Seq<u32>) -> Seq<bool>
    decreases samples.len(),
{
    if samples.len() == 0 {
        Seq::empty()
    } else {
        let s = samples[0];
        seq![full_fires(f, s, previous)] + full_fire_ticks(
            BatteryFullNotification { notified: full_next_notified(f, s, previous), ..f },
            s,
            samples.drop_first(),
        )
    }
}

/// The sample before tick `i`.
pub open spec fn sample_before(previous: u32, samples: Seq<u32>, i: int) -> u32 {
    if i == 0 {
        previous
    } else {
        samples[i - 1]
    }
}

proof fn lemma_full_ticks(f: BatteryFullNotification, previous: u32, samples: Seq<u32>)
    requires
        f.enabled,
        f.notified ==> previous >= 100,
        forall|i: int| 0 <= i < samples.len() ==> #[trigger] samples[i] <= 100,
    ensures
        full_fire_ticks(f, previous, samples).len() == samples.len(),
        forall|i: int| 0 <= i < samples.len() ==> #[trigger] full_fire_ticks(f, previous, samples)[i] == (
        sample_before(previous, samples, i) < 100 && samples[i] >= 100),
    decreases samples.len(),
{
    if samples.len() > 0 {
        let s = samples[0];
        let g = BatteryFullNotification { notified: full_next_notified(f, s, previous), ..f };
        let rest = samples.drop_first();
        assert forall|i: int| 0 <= i < rest.len() implies #[trigger] rest[i] <= 100 by {
            assert(rest[i] == samples[i + 1]);
        }
        lemma_full_ticks(g, s, rest);
        let out = full_fire_ticks(f, previous, samples);
        let tail = full_fire_ticks(g, s, rest);
        assert(out == seq![full_fires(f, s, previous)] + tail);
        assert forall|i: int| 0 <= i < samples.len() implies #[trigger] out[i] == (sample_before(
            previous,
            samples,
            i,
        ) < 100 && samples[i] >= 100) by {
            if i > 0 {
                assert(out[i] == tail[i - 1]);
                assert(rest[i - 1] == samples[i]);
                if i > 1 {
                    assert(rest[i - 2] == samples[i - 1]);
                }
            }
        }
    }
}

/// Full-charge rising edge over a run: starting armed, with samples of at
/// most 100, the full-charge notification fires exactly on the ticks that
/// rise from below 100 to 100 or more.
pub proof fn lemma_full_fires_on_each_rise_to_full(
    f: BatteryFullNotification,
    previous: u32,
    samples: Seq<u32>,
)
    requires
        f.enabled,
        !f.notified,
        forall|i: int| 0 <= i < samples.len() ==> #[trigger] samples[i] <= 100,
    ensures
        full_fire_ticks(f, previous, samples).len() == samples.len(),
        forall|i: int| 0 <= i < samples.len() ==> #[trigger] full_fire_ticks(f, previous, samples)[i] == (
        sample_before(previous, samples, i) < 100 && samples[i] >= 100),
{
    lemma_full_ticks(f, previous, samples);
}

/// Full-charge rising edge: a tick that does not rise never fires and
/// re-arms the notification; a rise from below 100 to 100 or more fires
/// when armed; once fired, the next tick does not fire again; and after a
/// tick that did not rise, the next rise to 100 or more fires.
pub proof fn lemma_full_rising_edge(f: BatteryFullNotification, previous: u32, sample: u32, next: u32)
    requires
        f.enabled,
    ensures
        previous >= sample ==> !full_fires(f, sample, previous) && !full_next_notified(f, sample, previous),
        previous < 100 <= sample && !f.notified ==> full_fires(f, sample, previous),
        full_fires(f, sample, previous) ==> !full_fires(
            BatteryFullNotification { notified: full_next_notified(f, sample, previous), ..f },
            next,
            sample,
        ),
        previous >= sample && sample < next && next >= 100 ==> full_fires(
            BatteryFullNotification { notified: full_next_notified(f, sample, previous), ..f },
            next,
            sample,
        ),
{
}

} // verus!
