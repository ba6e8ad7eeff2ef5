//! How often samples are taken, and of what.

use vstd::prelude::*;

use crate::decimal::{is_digit, parse_usize, parse_usize_of};
use crate::text::{char_is_white, is_white, to_chars};

verus! {

/// A span of time.
#[derive(Debug, Clone, Copy, PartialEq, Eq, Structural)]
pub struct Interval {
    pub secs: u64,
    pub nanos: u32,
}

/// Configuration of the collector.
#[derive(Debug, Clone)]
pub struct ResctrlCollectorConfig {
    /// Sampling interval.
    pub sample_interval: Interval,
    /// Interval at which the plugin retries what failed.
    pub retry_interval: Interval,
    /// Health logging interval.
    pub health_interval: Interval,
    /// Channel capacity.
    pub channel_capacity: usize,
    /// Mount point of resctrl.
    pub mountpoint: String,
}

/// A configuration as a value.
pub ghost struct ConfigView {
    pub sample_interval: Interval,
    pub retry_interval: Interval,
    pub health_interval: Interval,
    pub channel_capacity: nat,
    pub mountpoint: Seq<char>,
}

impl View for ResctrlCollectorConfig {
    type V = ConfigView;

    open spec fn view(&self) -> ConfigView {
        ConfigView {
            sample_interval: self.sample_interval,
            retry_interval: self.retry_interval,
            health_interval: self.health_interval,
            channel_capacity: self.channel_capacity as nat,
            mountpoint: self.mountpoint@,
        }
    }
}

/// The configuration where nothing is set.
pub open spec fn default_config() -> ConfigView {
    ConfigView {
        sample_interval: Interval { secs: 1, nanos: 0 },
        retry_interval: Interval { secs: 10, nanos: 0 },
        health_interval: Interval { secs: 60, nanos: 0 },
        channel_capacity: 256,
        mountpoint: "/sys/fs/resctrl"@,
    }
}

impl Default for ResctrlCollectorConfig {
    fn default() -> (r: ResctrlCollectorConfig)
        ensures
            r@ == default_config(),
    {
        ResctrlCollectorConfig {
            sample_interval: Interval { secs: 1, nanos: 0 },
            retry_interval: Interval { secs: 10, nanos: 0 },
            health_interval: Interval { secs: 60, nanos: 0 },
            channel_capacity: 256,
            mountpoint: "/sys/fs/resctrl".to_string(),
        }
    }
}

/// A character that may belong to a unit, and so ends a number.
pub open spec fn ends_number(c: char) -> bool {
    !is_digit(c) && !is_white(c) && c != '.'
}

/// Whether a text has no more than one number with a unit: no digit comes after a character of a
/// unit.
pub open spec fn has_one_part(text: Seq<char>) -> bool {
    forall|i: int, j: int|
        0 <= i < j < text.len() && ends_number(#[trigger] text[i]) ==> !is_digit(#[trigger] text[j])
}

/// A character that every unit above the minute has one of.
pub open spec fn of_long_unit(c: char) -> bool {
    c == 'h' || c == 'd' || c == 'w' || c == 'M' || c == 'y'
}

/// Whether a text has no unit above the minute.
pub open spec fn has_short_units(text: Seq<char>) -> bool {
    forall|i: int| 0 <= i < text.len() ==> !of_long_unit(#[trigger] text[i])
}

/// The numbers of a text: the sum of those that a unit has ended, and the one that is being read.
/// The digits after a decimal point count as further digits of the number.
pub open spec fn numbers_in(text: Seq<char>) -> (nat, nat)
    decreases text.len(),
{
    if text.len() == 0 {
        (0, 0)
    } else {
        let (done, current) = numbers_in(text.drop_last());
        let c = text.last();
        if is_digit(c) {
            (done, 10 * current + digit_value(c))
        } else if ends_number(c) {
            (done + current, 0)
        } else {
            (done, current)
        }
    }
}

/// The value of a digit.
pub open spec fn digit_value(c: char) -> nat {
    (c as int - '0' as int) as nat
}

/// The sum of the numbers of a text.
pub open spec fn number_sum(text: Seq<char>) -> nat {
    numbers_in(text).0 + numbers_in(text).1
}

/// So many years are less than the greatest number of seconds that a `u64` holds.
pub const YEARS_IN_RANGE: u64 = 584_542_046_090;

/// So many minutes are less than the greatest number of seconds that a `u64` holds.
pub const MINUTES_IN_RANGE: u64 = 307_445_734_561_825_860;

/// Whether the parts of a span of time cannot add up to the greatest number of seconds that a
/// `u64` holds before the last of them: there is only one, or their numbers are too small for
/// that, in years or, where the units are short, in minutes.
pub open spec fn surely_in_range(text: Seq<char>) -> bool {
    ||| has_one_part(text)
    ||| number_sum(text) <= YEARS_IN_RANGE
    ||| number_sum(text) <= MINUTES_IN_RANGE && has_short_units(text)
}

/// Whether the parts of a span of time cannot add up to the greatest number of seconds that a
/// `u64` holds before the last of them.
pub fn is_surely_in_range(text: &str) -> (r: bool)
    ensures
        r == surely_in_range(text@),
{
    let chars = to_chars(text);
    let mut done: u64 = 0;
    let mut current: u64 = 0;
    let mut large: bool = false;
    let mut short: bool = true;
    let mut in_unit: bool = false;
    let mut one_part: bool = true;
    let mut i: usize = 0;
    assert(text@.take(0) =~= Seq::<char>::empty());
    while i < chars.len()
        invariant
            i <= chars@.len(),
            chars@ == text@,
            large == (number_sum(text@.take(i as int)) > MINUTES_IN_RANGE),
            !large ==> numbers_in(text@.take(i as int)) == (done as nat, current as nat),
            short == has_short_units(text@.take(i as int)),
            in_unit == (exists|k: int| 0 <= k < i && ends_number(#[trigger] text@[k])),
            one_part == has_one_part(text@.take(i as int)),
        decreases chars.len() - i,
    {
        let c = chars[i];
        let ghost before = text@.take(i as int);
        let ghost after = text@.take(i as int + 1);
        assert(after.drop_last() =~= before);
        assert(after =~= before.push(c));
        let digit = '0' <= c && c <= '9';
        proof {
            assert(forall|k: int| 0 <= k < i ==> before[k] == after[k]);
            if one_part && !(digit && in_unit) {
                assert(has_one_part(after));
            } else if digit && in_unit {
                let k = choose|k: int| 0 <= k < i && ends_number(#[trigger] text@[k]);
                assert(ends_number(after[k]) && is_digit(after[i as int]));
            } else {
                let (k, l) = choose|k: int, l: int|
                    0 <= k < l < before.len() && ends_number(#[trigger] before[k]) && is_digit(
                        #[trigger] before[l],
                    );
                assert(ends_number(after[k]) && is_digit(after[l]));
            }
            if short {
                assert(has_short_units(after) == !of_long_unit(c)) by {
                    assert(after[i as int] == c);
                }
            } else {
                let k = choose|k: int|
                    0 <= k < before.len() && of_long_unit(#[trigger] before[k]);
                assert(of_long_unit(after[k]));
            }
            assert(number_sum(after) >= number_sum(before));
        }
        if c == 'h' || c == 'd' || c == 'w' || c == 'M' || c == 'y' {
            short = false;
        }
        if digit {
            if in_unit {
                one_part = false;
            }
            if !large {
                current = 10 * current + (c as u64 - '0' as u64);
            }
        } else if !char_is_white(c) && c != '.' {
            in_unit = true;
            assert(ends_number(text@[i as int]));
            if !large {
                done = done + current;
                current = 0;
            }
        }
        if !large && done + current > MINUTES_IN_RANGE {
            large = true;
        }
        i = i + 1;
    }
    assert(text@.take(i as int) =~= text@);
    one_part || (!large && (short || done + current <= YEARS_IN_RANGE))
}

/// The span of time that `humantime::parse_duration` reads, in seconds and nanoseconds.
pub uninterp spec fn parsed_duration(text: Seq<char>) -> Option<(u64, u32)>;

/// `humantime::parse_duration`: the span of time, or nothing where the text is not one. The
/// nanoseconds are less than a second. The outside function panics where the parts of the span add
/// up to the greatest number of seconds that a `u64` holds and one more second comes out of the
/// nanoseconds; such a text is ruled out.
#[verifier::external_body]
fn parse_duration(text: &str) -> (r: Option<(u64, u32)>)
    requires
        surely_in_range(text@),
    ensures
        r == parsed_duration(text@),
        r matches Some((_, nanos)) ==> nanos < 1_000_000_000,
{
    match humantime::parse_duration(text) {
        Ok(d) => Some((d.as_secs(), d.subsec_nanos())),
        Err(_) => None,
    }
}

/// A setting that was read, or what holds without it.
pub open spec fn interval_or(read: Option<(u64, u32)>, otherwise: Interval) -> Interval {
    match read {
        Some((secs, nanos)) => Interval { secs, nanos },
        None => otherwise,
    }
}

/// A span of time from a setting.
pub open spec fn read_of(setting: Option<&str>) -> Option<(u64, u32)> {
    match setting {
        Some(s) => parsed_duration(s@),
        None => None,
    }
}

/// The capacity that a setting gives: a positive number.
pub open spec fn capacity_of(setting: Option<&str>, otherwise: nat) -> nat {
    match setting {
        Some(s) => match parse_usize_of(s@) {
            Ok(n) => if n > 0 {
                n as nat
            } else {
                otherwise
            },
            Err(_) => otherwise,
        },
        None => otherwise,
    }
}

/// The mount point that a setting gives: any but an empty one.
pub open spec fn mount_of(setting: Option<&str>, otherwise: Seq<char>) -> Seq<char> {
    match setting {
        Some(s) => if s@.len() > 0 {
            s@
        } else {
            otherwise
        },
        None => otherwise,
    }
}

/// The configuration of spans of time that were read and the other settings. What is not set, or
/// not valid, is as by default.
pub open spec fn config_of(
    sampling: Option<(u64, u32)>,
    retry: Option<(u64, u32)>,
    health: Option<(u64, u32)>,
    capacity: Option<&str>,
    mount: Option<&str>,
) -> ConfigView {
    let d = default_config();
    ConfigView {
        sample_interval: interval_or(sampling, d.sample_interval),
        retry_interval: interval_or(retry, d.retry_interval),
        health_interval: interval_or(health, d.health_interval),
        channel_capacity: capacity_of(capacity, d.channel_capacity),
        mountpoint: mount_of(mount, d.mountpoint),
    }
}

/// Reads a setting, where it is set.
fn read_setting(setting: Option<&str>) -> (r: Option<(u64, u32)>)
    requires
        setting matches Some(s) ==> surely_in_range(s@),
    ensures
        r == read_of(setting),
        r matches Some((_, nanos)) ==> nanos < 1_000_000_000,
{
    match setting {
        Some(s) => parse_duration(s),
        None => None,
    }
}

impl ResctrlCollectorConfig {
    /// The configuration of spans of time that were read and the other settings.
    pub fn from_parsed(
        sampling: Option<(u64, u32)>,
        retry: Option<(u64, u32)>,
        health: Option<(u64, u32)>,
        capacity: Option<&str>,
        mount: Option<&str>,
    ) -> (r: ResctrlCollectorConfig)
        ensures
            r@ == config_of(sampling, retry, health, capacity, mount),
    {
        let mut cfg = ResctrlCollectorConfig::default();
        if let Some((secs, nanos)) = sampling {
            cfg.sample_interval = Interval { secs, nanos };
        }
        if let Some((secs, nanos)) = retry {
            cfg.retry_interval = Interval { secs, nanos };
        }
        if let Some((secs, nanos)) = health {
            cfg.health_interval = Interval { secs, nanos };
        }
        if let Some(s) = capacity {
            if let Ok(n) = parse_usize(s) {
                if n > 0 {
                    cfg.channel_capacity = n;
                }
            }
        }
        if let Some(m) = mount {
            if !m.is_empty() {
                cfg.mountpoint = m.to_string();
            }
        }
        cfg
    }

    /// The configuration that the settings give:
    /// - `RESCTRL_SAMPLING_INTERVAL`, a span of time such as "1s" or "500ms",
    /// - `RESCTRL_RETRY_INTERVAL`, a span of time,
    /// - `RESCTRL_HEALTH_INTERVAL`, a span of time,
    /// - `RESCTRL_CHANNEL_CAPACITY`, a positive number,
    /// - `RESCTRL_MOUNT`, a path.
    pub fn from_env(
        sampling: Option<&str>,
        retry: Option<&str>,
        health: Option<&str>,
        capacity: Option<&str>,
        mount: Option<&str>,
    ) -> (r: ResctrlCollectorConfig)
        requires
            sampling matches Some(s) ==> surely_in_range(s@),
            retry matches Some(s) ==> surely_in_range(s@),
            health matches Some(s) ==> surely_in_range(s@),
        ensures
            r@ == config_of(read_of(sampling), read_of(retry), read_of(health), capacity, mount),
            r.sample_interval.nanos < 1_000_000_000,
            r.retry_interval.nanos < 1_000_000_000,
            r.health_interval.nanos < 1_000_000_000,
    {
        ResctrlCollectorConfig::from_parsed(
            read_setting(sampling),
            read_setting(retry),
            read_setting(health),
            capacity,
            mount,
        )
    }
}

/// A configuration has room in its channels, and a place where resctrl is mounted, whatever the
/// settings.
pub proof fn law_configured(
    sampling: Option<(u64, u32)>,
    retry: Option<(u64, u32)>,
    health: Option<(u64, u32)>,
    capacity: Option<&str>,
    mount: Option<&str>,
)
    ensures
        config_of(sampling, retry, health, capacity, mount).channel_capacity > 0,
        config_of(sampling, retry, health, capacity, mount).mountpoint.len() > 0,
        config_of(None, None, None, None, None) == default_config(),
{
    reveal_strlit("/sys/fs/resctrl");
}

}
