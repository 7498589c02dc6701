use vstd::prelude::*;

verus! {

/// Advisory severity handed to the desktop notification server.
#[derive(Debug, Clone, Copy, PartialEq, Eq, Hash, Structural)]
pub enum Urgency {
    /// The behaviour for `Low` urgency depends on the notification server.
    Low,
    /// The behaviour for `Normal` urgency depends on the notification server.
    Normal,
    /// A critical notification will not time out.
    Critical,
}

/// A threshold rule: warn once when the charge falls into the band whose
/// upper edge is `level`.
#[derive(Debug, Clone)]
pub struct Notification {
    /// Threshold level (percent) for which a notification is sent.
    pub level: u32,
    /// Urgency of the message; the server may style it accordingly.
    pub urgency: Urgency,
    /// Runtime flag: true once this rule has fired during the current visit
    /// to its band (the rule is then disarmed).
    pub notified: bool,
    /// How long the notification is displayed, in seconds.
    pub time_secs: Option<u32>,
    /// Command line run after the notification was shown.
    pub command: Option<String>,
    /// Title template; `{}` is replaced by the current percentage.
    pub title: Option<String>,
    /// Body template; `{}` is replaced by the current percentage.
    pub message: Option<String>,
}

/// The rule for the notification sent when the battery is fully charged.
#[derive(Debug, Clone)]
pub struct BatteryFullNotification {
    pub urgency: Urgency,
    /// Runtime flag: true once the full charge was announced, until the
    /// charge stops rising.
    pub notified: bool,
    /// How long the notification is displayed, in seconds.
    pub time_secs: Option<u32>,
    /// When false, no notification is sent when the battery is full.
    pub enabled: bool,
    /// Command line run after the notification was shown.
    pub command: Option<String>,
    /// Title of the notification.
    pub title: Option<String>,
    /// Body of the notification.
    pub message: Option<String>,
}

/// `r` with its runtime flag set to `b`, every other field kept.
pub open spec fn with_notified(r: Notification, b: bool) -> Notification {
    Notification { notified: b, ..r }
}

/// The decimal digit `d` (below ten) as a character.
pub open spec fn digit_char(d: nat) -> char {
    "0123456789"@[d as int]
}

/// The decimal rendering of `n`, without leading zeros.
pub open spec fn decimal(n: nat) -> Seq<char>
    decreases n,
{
    if n < 10 {
        seq![digit_char(n)]
    } else {
        decimal(n / 10).push(digit_char(n % 10))
    }
}

/// A percentage as shown to the user: `N%`.
pub open spec fn percent_text(level: u32) -> Seq<char> {
    decimal(level as nat).push('%')
}

/// `t` with every occurrence of `{}`, read left to right, replaced by `p`.
pub open spec fn substitute(t: Seq<char>, p: Seq<char>) -> Seq<char>
    decreases t.len(),
{
    if t.len() == 0 {
        Seq::empty()
    } else if t.len() >= 2 && t[0] == '{' && t[1] == '}' {
        p + substitute(t.skip(2), p)
    } else {
        seq![t[0]] + substitute(t.skip(1), p)
    }
}

/// `t` holds the placeholder `{}` somewhere.
pub open spec fn has_placeholder(t: Seq<char>) -> bool {
    exists|i: int| 0 <= i < t.len() - 1 && #[trigger] t[i] == '{' && t[i + 1] == '}'
}

/// `p` holds no brace.
pub open spec fn brace_free(p: Seq<char>) -> bool {
    forall|i: int| 0 <= i < p.len() ==> #[trigger] p[i] != '{' && p[i] != '}'
}

proof fn lemma_substitute_first(t: Seq<char>, p: Seq<char>)
    requires
        p.len() > 0,
        brace_free(p),
    ensures
        substitute(t, p).len() > 0 && substitute(t, p)[0] == '}' ==> t.len() > 0 && t[0] == '}',
{
    if t.len() > 0 && !(t.len() >= 2 && t[0] == '{' && t[1] == '}') {
        assert((seq![t[0]] + substitute(t.skip(1), p))[0] == t[0]);
    }
    if t.len() >= 2 && t[0] == '{' && t[1] == '}' {
        assert((p + substitute(t.skip(2), p))[0] == p[0]);
    }
}

/// Template substitution: once every `{}` is replaced by a non-empty text
/// without braces (such as `N%`), no placeholder is left.
pub proof fn lemma_no_placeholder_left(t: Seq<char>, p: Seq<char>)
    requires
        p.len() > 0,
        brace_free(p),
    ensures
        !has_placeholder(substitute(t, p)),
    decreases t.len(),
{
    if t.len() > 0 {
        if t.len() >= 2 && t[0] == '{' && t[1] == '}' {
            let tail = substitute(t.skip(2), p);
            lemma_no_placeholder_left(t.skip(2), p);
            let r = p + tail;
            assert forall|i: int| 0 <= i < r.len() - 1 implies !(#[trigger] r[i] == '{' && r[i + 1] == '}') by {
                if i >= p.len() {
                    assert(r[i] == tail[i - p.len()] && r[i + 1] == tail[i + 1 - p.len()]);
                } else {
                    assert(r[i] == p[i]);
                }
            }
        } else {
            let tail = substitute(t.skip(1), p);
            lemma_no_placeholder_left(t.skip(1), p);
            lemma_substitute_first(t.skip(1), p);
            let r = seq![t[0]] + tail;
            assert forall|i: int| 0 <= i < r.len() - 1 implies !(#[trigger] r[i] == '{' && r[i + 1] == '}') by {
                if i >= 1 {
                    assert(r[i] == tail[i - 1] && r[i + 1] == tail[i]);
                } else {
                    assert(r[0] == t[0] && r[1] == tail[0]);
                    if t.len() >= 2 {
                        assert(t.skip(1)[0] == t[1]);
                    }
                }
            }
        }
    }
}

/// The rendered percentage is a non-empty text without braces.
pub proof fn lemma_percent_brace_free(level: u32)
    ensures
        percent_text(level).len() > 0,
        brace_free(percent_text(level)),
{
    lemma_decimal_digits(level as nat);
    reveal_strlit("0123456789");
}

proof fn lemma_decimal_digits(n: nat)
    ensures
        forall|i: int| 0 <= i < decimal(n).len() ==> exists|d: nat| d < 10 && #[trigger] decimal(n)[i] == digit_char(d),
    decreases n,
{
    if n < 10 {
        assert(decimal(n)[0] == digit_char(n));
    } else {
        lemma_decimal_digits(n / 10);
        let s = decimal(n);
        assert forall|i: int| 0 <= i < s.len() implies exists|d: nat| d < 10 && #[trigger] s[i] == digit_char(d) by {
            if i < s.len() - 1 {
                assert(s[i] == decimal(n / 10)[i]);
            } else {
                assert(s[i] == digit_char(n % 10));
            }
        }
    }
}

/// Append the decimal rendering of `n` to `out`.
fn push_decimal(n: u32, out: &mut String)
    ensures
        final(out)@ == old(out)@ + decimal(n as nat),
    decreases n,
{
    if n >= 10 {
        push_decimal(n / 10, out);
    }
    let d: usize = (n % 10) as usize;
    let digits = "0123456789";
    proof {
        reveal_strlit("0123456789");
    }
    out.append(digits.substring_char(d, d + 1));
    proof {
        assert(digits@.subrange(d as int, d + 1) =~= seq![digit_char(d as nat)]);
    }
}

/// The text `N%` for a percentage.
pub fn percent_string(level: u32) -> (r: String)
    ensures
        r@ == percent_text(level),
{
    let mut out = String::new();
    push_decimal(level, &mut out);
    proof {
        reveal_strlit("%");
    }
    out.append("%");
    proof {
        assert(out@ =~= percent_text(level));
    }
    out
}

/// Fill a template: every `{}` in `template` becomes the percentage `N%`.
pub fn fill_template(template: &str, level: u32) -> (r: String)
    ensures
        r@ == substitute(template@, percent_text(level)),
        !has_placeholder(r@),
{
    let percent = percent_string(level);
    let n = template.unicode_len();
    let mut out = String::new();
    let mut i: usize = 0;
    proof {
        assert(template@.skip(0) =~= template@);
        assert(out@ + substitute(template@, percent@) =~= substitute(template@, percent@));
    }
    while i < n
        invariant
            n == template@.len(),
            i <= n,
            percent@ == percent_text(level),
            out@ + substitute(template@.skip(i as int), percent@) == substitute(template@, percent@),
        decreases n - i,
    {
        let rest = Ghost(template@.skip(i as int));
        let before = Ghost(out@);
        if i + 1 < n && template.get_char(i) == '{' && template.get_char(i + 1) == '}' {
            proof {
                assert(rest@.skip(2) =~= template@.skip(i + 2));
            }
            out.append(percent.as_str());
            proof {
                let tail = substitute(template@.skip(i + 2), percent@);
                assert(before@ + (percent@ + tail) =~= out@ + tail);
            }
            i += 2;
        } else {
            proof {
                assert(rest@.skip(1) =~= template@.skip(i + 1));
            }
            out.append(template.substring_char(i, i + 1));
            proof {
                assert(template@.subrange(i as int, i + 1) =~= seq![rest@[0]]);
                let tail = substitute(template@.skip(i + 1), percent@);
                assert(before@ + (seq![rest@[0]] + tail) =~= out@ + tail);
            }
            i += 1;
        }
    }
    proof {
        assert(template@.skip(n as int) =~= Seq::<char>::empty());
        assert(out@ + Seq::<char>::empty() =~= out@);
        lemma_percent_brace_free(level);
        lemma_no_placeholder_left(template@, percent_text(level));
    }
    out
}

/// A notification ready to be shown: texts filled in, timeout in
/// milliseconds, and the command to run afterwards.
#[derive(Debug, Clone)]
pub struct Message {
    pub title: String,
    pub body: String,
    pub urgency: Urgency,
    /// Display timeout in milliseconds; `None` leaves it to the server.
    pub timeout_ms: Option<u64>,
    pub command: Option<String>,
}

/// The configured text, or `default` when none is configured.
pub open spec fn text_or(t: Option<String>, default: Seq<char>) -> Seq<char> {
    match t {
        Some(s) => s@,
        None => default,
    }
}

/// A display timeout of `T` seconds is `T * 1000` milliseconds.
pub open spec fn millis_of(time_secs: Option<u32>) -> Option<u64> {
    match time_secs {
        Some(t) => Some((t as int * 1000) as u64),
        None => None,
    }
}

/// Convert a display timeout in seconds to milliseconds.
pub fn display_timeout_ms(time_secs: Option<u32>) -> (r: Option<u64>)
    ensures
        r == millis_of(time_secs),
{
    match time_secs {
        Some(t) => Some(t as u64 * 1000),
        None => None,
    }
}

fn copy_text(t: &Option<String>) -> (r: Option<String>)
    ensures
        r == *t,
{
    match t {
        Some(s) => Some(s.clone()),
        None => None,
    }
}

fn fill_or(t: &Option<String>, default: &str, level: u32) -> (r: String)
    ensures
        r@ == substitute(text_or(*t, default@), percent_text(level)),
{
    match t {
        Some(s) => fill_template(s.as_str(), level),
        None => fill_template(default, level),
    }
}

/// `m` is the notification of threshold rule `n` at the current
/// percentage `level`: the title defaults to `Battery Status` and the body
/// to `{}`, and each `{}` in them becomes `N%`.
pub open spec fn threshold_renders(m: Message, level: u32, n: Notification) -> bool {
    &&& m.title@ == substitute(text_or(n.title, "Battery Status"@), percent_text(level))
    &&& m.body@ == substitute(text_or(n.message, "{}"@), percent_text(level))
    &&& m.urgency == n.urgency
    &&& m.timeout_ms == millis_of(n.time_secs)
    &&& m.command == n.command
}

/// `m` is the full-charge notification of `f` at the current percentage
/// `level`: the title defaults to `Battery Status` and the body to
/// `Fully Charged 100%`, and each `{}` in them becomes `N%`.
pub open spec fn full_renders(m: Message, level: u32, f: BatteryFullNotification) -> bool {
    &&& m.title@ == substitute(text_or(f.title, "Battery Status"@), percent_text(level))
    &&& m.body@ == substitute(text_or(f.message, "Fully Charged 100%"@), percent_text(level))
    &&& m.urgency == f.urgency
    &&& m.timeout_ms == millis_of(f.time_secs)
    &&& m.command == f.command
}

/// The notification for a threshold rule at the current percentage `level`.
pub fn threshold_message(level: u32, notification: &Notification) -> (m: Message)
    ensures
        threshold_renders(m, level, *notification),
{
    Message {
        title: fill_or(&notification.title, "Battery Status", level),
        body: fill_or(&notification.message, "{}", level),
        urgency: notification.urgency,
        timeout_ms: display_timeout_ms(notification.time_secs),
        command: copy_text(&notification.command),
    }
}

/// The notification for a full battery at the current percentage `level`.
pub fn full_message(level: u32, full: &BatteryFullNotification) -> (m: Message)
    ensures
        full_renders(m, level, *full),
{
    Message {
        title: fill_or(&full.title, "Battery Status", level),
        body: fill_or(&full.message, "Fully Charged 100%", level),
        urgency: full.urgency,
        timeout_ms: display_timeout_ms(full.time_secs),
        command: copy_text(&full.command),
    }
}

} // verus!
