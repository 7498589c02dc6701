use vstd::prelude::*;

verus! {

/// Charging state of a battery, as reported by its status source.
#[derive(Debug, Clone, Copy, PartialEq, Eq, Structural)]
pub enum ChargingStatus {
    Charging,
    Discharging,
    Full,
    Unknown,
}

/// The tag printed for each charging state.
pub open spec fn status_tag(s: ChargingStatus) -> Seq<char> {
    match s {
        ChargingStatus::Charging => "charging"@,
        ChargingStatus::Discharging => "discharging"@,
        ChargingStatus::Full => "full"@,
        ChargingStatus::Unknown => "unknown"@,
    }
}

impl ChargingStatus {
    pub fn as_str(&self) -> (r: &'static str)
        ensures
            r@ == status_tag(*self),
    {
        match *self {
            ChargingStatus::Charging => "charging",
            ChargingStatus::Discharging => "discharging",
            ChargingStatus::Full => "full",
            ChargingStatus::Unknown => "unknown",
        }
    }

    pub fn as_string(&self) -> (r: String)
        ensures
            r@ == status_tag(*self),
    {
        self.as_str().to_owned()
    }
}

/// Why a capacity reading could not be had.
#[derive(Debug, Clone, Copy, PartialEq, Eq, Structural)]
pub enum SamplerError {
    /// The capacity source is missing or unreadable.
    Unavailable,
    /// The value is not a whole number in [0, 100].
    Malformed,
}

/// Whitespace around the values of the battery's text sources: the
/// characters with the Unicode `White_Space` property.
pub open spec fn is_space(c: char) -> bool {
    let u = c as u32;
    ||| 0x9 <= u <= 0xd
    ||| u == 0x20
    ||| u == 0x85
    ||| u == 0xa0
    ||| u == 0x1680
    ||| 0x2000 <= u <= 0x200a
    ||| u == 0x2028
    ||| u == 0x2029
    ||| u == 0x202f
    ||| u == 0x205f
    ||| u == 0x3000
}

pub open spec fn trim_start(s: Seq<char>) -> Seq<char>
    decreases s.len(),
{
    if s.len() > 0 && is_space(s[0]) {
        trim_start(s.drop_first())
    } else {
        s
    }
}

pub open spec fn trim_end(s: Seq<char>) -> Seq<char>
    decreases s.len(),
{
    if s.len() > 0 && is_space(s.last()) {
        trim_end(s.drop_last())
    } else {
        s
    }
}

/// `s` without leading and trailing whitespace.
pub open spec fn trimmed(s: Seq<char>) -> Seq<char> {
    trim_end(trim_start(s))
}

fn is_space_char(c: char) -> (r: bool)
    ensures
        r == is_space(c),
{
    let u = c as u32;
    (0x9 <= u && u <= 0xd) || u == 0x20 || u == 0x85 || u == 0xa0 || u == 0x1680 || (0x2000 <= u
        && u <= 0x200a) || u == 0x2028 || u == 0x2029 || u == 0x202f || u == 0x205f || u == 0x3000
}

/// `text` without leading and trailing whitespace.
pub fn trim_text(text: &str) -> (r: &str)
    ensures
        r@ == trimmed(text@),
{
    let n = text.unicode_len();
    let mut i: usize = 0;
    proof {
        assert(text@.skip(0) =~= text@);
    }
    while i < n && is_space_char(text.get_char(i))
        invariant
            n == text@.len(),
            i <= n,
            trim_start(text@) == trim_start(text@.skip(i as int)),
        decreases n - i,
    {
        proof {
            assert(text@.skip(i as int).drop_first() =~= text@.skip(i + 1));
        }
        i += 1;
    }
    proof {
        if i < n {
            assert(text@.skip(i as int)[0] == text@[i as int]);
        }
        assert(trim_start(text@) == text@.skip(i as int));
        assert(text@.skip(i as int) =~= text@.subrange(i as int, n as int));
    }
    let mut j: usize = n;
    while j > i && is_space_char(text.get_char(j - 1))
        invariant
            n == text@.len(),
            i <= j <= n,
            trim_end(text@.subrange(i as int, n as int)) == trim_end(text@.subrange(i as int, j as int)),
        decreases j,
    {
        proof {
            assert(text@.subrange(i as int, j as int).drop_last() =~= text@.subrange(i as int, j - 1));
        }
        j -= 1;
    }
    proof {
        let u = text@.subrange(i as int, j as int);
        if j > i {
            assert(u.last() == text@[j - 1]);
        }
        assert(trim_end(u) == u);
    }
    text.substring_char(i, j)
}

/// Whether two texts are equal.
fn same_text(a: &str, b: &str) -> (r: bool)
    ensures
        r == (a@ == b@),
{
    let n = a.unicode_len();
    if n != b.unicode_len() {
        return false;
    }
    let mut i: usize = 0;
    while i < n
        invariant
            n == a@.len() == b@.len(),
            i <= n,
            forall|k: int| 0 <= k < i ==> a@[k] == b@[k],
        decreases n - i,
    {
        if a.get_char(i) != b.get_char(i) {
            return false;
        }
        i += 1;
    }
    proof {
        assert(a@ =~= b@);
    }
    true
}

/// The charging state named by a status text (surrounding whitespace
/// ignored): `Full` and `Not charging` both mean full; any text not
/// recognised means unknown.
pub open spec fn status_of(text: Seq<char>) -> ChargingStatus {
    let t = trimmed(text);
    if t == "Charging"@ {
        ChargingStatus::Charging
    } else if t == "Discharging"@ {
        ChargingStatus::Discharging
    } else if t == "Full"@ || t == "Not charging"@ {
        ChargingStatus::Full
    } else {
        ChargingStatus::Unknown
    }
}

/// Read a charging state from the text of a status source.
pub fn parse_charging_status(text: &str) -> (r: ChargingStatus)
    ensures
        r == status_of(text@),
{
    let t = trim_text(text);
    if same_text(t, "Charging") {
        ChargingStatus::Charging
    } else if same_text(t, "Discharging") {
        ChargingStatus::Discharging
    } else if same_text(t, "Full") || same_text(t, "Not charging") {
        ChargingStatus::Full
    } else {
        ChargingStatus::Unknown
    }
}

/// A decimal digit.
pub open spec fn is_digit(c: char) -> bool {
    '0' <= c && c <= '9'
}

/// The number written by the decimal digits `s`.
pub open spec fn digits_value(s: Seq<char>) -> nat
    decreases s.len(),
{
    if s.len() == 0 {
        0
    } else {
        digits_value(s.drop_last()) * 10 + (s.last() as nat - '0' as nat) as nat
    }
}

/// The digits of an unsigned number: `t` without one leading `+`.
pub open spec fn unsigned_digits(t: Seq<char>) -> Seq<char> {
    if t.len() > 0 && t[0] == '+' {
        t.skip(1)
    } else {
        t
    }
}

fn strip_plus(t: &str) -> (r: &str)
    ensures
        r@ == unsigned_digits(t@),
{
    let n = t.unicode_len();
    if n > 0 && t.get_char(0) == '+' {
        t.substring_char(1, n)
    } else {
        t
    }
}

/// The capacity written in a capacity text: after trimming whitespace, an
/// optional `+` and one or more decimal digits whose value is at most 100.
pub open spec fn capacity_of(text: Seq<char>) -> Option<u32> {
    let t = unsigned_digits(trimmed(text));
    if t.len() > 0 && (forall|i: int| 0 <= i < t.len() ==> is_digit(#[trigger] t[i])) && digits_value(t)
        <= 100 {
        Some(digits_value(t) as u32)
    } else {
        None
    }
}

proof fn lemma_digits_value_grows(s: Seq<char>, k: int)
    requires
        0 <= k <= s.len(),
        forall|i: int| 0 <= i < s.len() ==> is_digit(#[trigger] s[i]),
    ensures
        digits_value(s.take(k)) <= digits_value(s),
    decreases s.len() - k,
{
    if k < s.len() {
        lemma_digits_value_grows(s, k + 1);
        assert(s.take(k + 1).drop_last() =~= s.take(k));
        assert(s.take(k + 1).last() == s[k]);
    } else {
        assert(s.take(k) =~= s);
    }
}

/// Read a battery capacity from the text of a capacity source.
pub fn parse_capacity(text: &str) -> (r: Result<u32, SamplerError>)
    ensures
        match capacity_of(text@) {
            Some(v) => r == Ok::<u32, SamplerError>(v),
            None => r == Err::<u32, SamplerError>(SamplerError::Malformed),
        },
{
    let t = strip_plus(trim_text(text));
    let n = t.unicode_len();
    if n == 0 {
        return Err(SamplerError::Malformed);
    }
    let mut value: u32 = 0;
    let mut i: usize = 0;
    while i < n
        invariant
            n == t@.len(),
            t@ == unsigned_digits(trimmed(text@)),
            i <= n,
            value <= 100,
            value == digits_value(t@.take(i as int)),
            forall|k: int| 0 <= k < i ==> is_digit(#[trigger] t@[k]),
        decreases n - i,
    {
        let c = t.get_char(i);
        if !('0' <= c && c <= '9') {
            return Err(SamplerError::Malformed);
        }
        let d: u32 = (c as u32) - ('0' as u32);
        proof {
            assert(t@.take(i + 1).drop_last() =~= t@.take(i as int));
            assert(t@.take(i + 1).last() == c);
        }
        let next = value * 10 + d;
        if next > 100 {
            proof {
                assert(next == digits_value(t@.take(i + 1)));
                if forall|k: int| 0 <= k < n ==> is_digit(#[trigger] t@[k]) {
                    lemma_digits_value_grows(t@, i + 1);
                }
            }
            return Err(SamplerError::Malformed);
        }
        value = next;
        i += 1;
    }
    proof {
        assert(t@.take(n as int) =~= t@);
    }
    Ok(value)
}

/// The capacity source of a battery: `/sys/class/power_supply/<id>/capacity`.
pub fn capacity_path(battery: &str) -> (r: String)
    ensures
        r@ == "/sys/class/power_supply/"@ + battery@ + "/capacity"@,
{
    let mut p = "/sys/class/power_supply/".to_owned();
    p.append(battery);
    p.append("/capacity");
    p
}

/// The charging-state source of a battery: `/sys/class/power_supply/<id>/status`.
pub fn status_path(battery: &str) -> (r: String)
    ensures
        r@ == "/sys/class/power_supply/"@ + battery@ + "/status"@,
{
    let mut p = "/sys/class/power_supply/".to_owned();
    p.append(battery);
    p.append("/status");
    p
}

} // verus!
