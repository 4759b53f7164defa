//! Commit timestamps: the time-zone policy and the display string.

use std::fmt::Write;
use vstd::prelude::*;
use crate::text::{push_str, string_of, to_chars, trim};
use crate::tokens::trim_range;

verus! {

/// An instant with the UTC offset it is shown in: seconds since the Unix
/// epoch, the sub-second nanoseconds and the offset in seconds east of UTC.
#[derive(Clone, Copy, Debug, PartialEq, Eq, Structural)]
pub struct Timestamp {
    pub secs: i64,
    pub nanos: u32,
    pub offset: i32,
}

/// The time zone in which commit times are shown.
#[derive(Clone, Copy, Debug, PartialEq, Eq, Structural)]
pub enum TzMode {
    /// The offset of the machine's local time zone at that instant.
    Local,
    Utc,
    /// The offset written in the timestamp.
    Source,
    /// A fixed offset, in seconds east of UTC.
    Fixed(i32),
}

/// What chrono's RFC 3339 parser makes of a string.
pub uninterp spec fn rfc3339_parse(s: Seq<char>) -> Option<Timestamp>;

/// What chrono's strftime-style formatting prints for an instant, shown at
/// an offset, under a pattern; `None` where the pattern is invalid.
pub uninterp spec fn chrono_format(secs: int, nanos: int, offset: int, fmt: Seq<char>) -> Option<
    Seq<char>,
>;

/// Relies on chrono's `DateTime::parse_from_rfc3339`; a parsed offset is a
/// valid `FixedOffset`, strictly within one day of UTC.
#[verifier::external_body]
fn parse_rfc3339(raw: &str) -> (r: Option<Timestamp>)
    ensures
        r == rfc3339_parse(raw@),
        r is Some ==> -86400 < r->0.offset < 86400,
{
    match chrono::DateTime::parse_from_rfc3339(raw) {
        Ok(d) => Some(
            Timestamp {
                secs: d.timestamp(),
                nanos: d.timestamp_subsec_nanos(),
                offset: d.offset().local_minus_utc(),
            },
        ),
        Err(_) => None,
    }
}

/// Relies on chrono's `FixedOffset::east_opt`, which accepts exactly the
/// offsets strictly within one day of UTC.
#[verifier::external_body]
fn fixed_offset_valid(secs: i32) -> (r: bool)
    ensures
        r == (-86400 < secs && secs < 86400),
{
    chrono::FixedOffset::east_opt(secs).is_some()
}

/// Relies on chrono's `Local` time zone: the machine's offset at the instant
/// of `t`, which depends on the machine and is a valid `FixedOffset`.
#[verifier::external_body]
fn local_offset(t: &Timestamp) -> (r: Option<i32>)
    ensures
        r is Some ==> -86400 < r->0 < 86400,
{
    match chrono::DateTime::from_timestamp(t.secs, t.nanos) {
        Some(d) => Some(d.with_timezone(&chrono::Local).offset().local_minus_utc()),
        None => None,
    }
}

/// Relies on chrono's `DateTime::format`: the instant shown at `t.offset`
/// under `fmt`, or `None` where chrono reports the pattern as invalid.
#[verifier::external_body]
fn format_timestamp(t: &Timestamp, fmt: &str) -> (r: Option<String>)
    ensures
        match r {
            Some(s) => chrono_format(t.secs as int, t.nanos as int, t.offset as int, fmt@) == Some(
                s@,
            ),
            None => chrono_format(t.secs as int, t.nanos as int, t.offset as int, fmt@) is None,
        },
{
    let utc = chrono::DateTime::from_timestamp(t.secs, t.nanos)?;
    let off = chrono::FixedOffset::east_opt(t.offset)?;
    let mut s = String::new();
    match write!(s, "{}", utc.with_timezone(&off).format(fmt)) {
        Ok(()) => Some(s),
        Err(_) => None,
    }
}

/// `c` equals the lower-case ASCII letter or other character `t`, ignoring
/// ASCII case.
pub open spec fn lower_eq(c: char, t: char) -> bool {
    c == t || ('A' <= c <= 'Z' && 'a' <= t <= 'z' && (c as u32) + 32 == (t as u32))
}

fn lower_eq_exec(c: char, t: char) -> (r: bool)
    ensures
        r == lower_eq(c, t),
{
    c == t || ('A' <= c && c <= 'Z' && 'a' <= t && t <= 'z' && (c as u32) + 32 == (t as u32))
}

/// `s` starts with the lower-case `p`, ignoring ASCII case.
pub open spec fn starts_ignore_case(s: Seq<char>, p: Seq<char>) -> bool {
    p.len() <= s.len() && forall|i: int| 0 <= i < p.len() ==> lower_eq(#[trigger] s[i], p[i])
}

/// `s` is the lower-case `p`, ignoring ASCII case.
pub open spec fn eq_ignore_case(s: Seq<char>, p: Seq<char>) -> bool {
    s.len() == p.len() && starts_ignore_case(s, p)
}

fn starts_ignore_case_exec(v: &Vec<char>, lo: usize, hi: usize, p: &Vec<char>) -> (r: bool)
    requires
        lo <= hi <= v.len(),
    ensures
        r == starts_ignore_case(v@.subrange(lo as int, hi as int), p@),
{
    let ghost s = v@.subrange(lo as int, hi as int);
    if p.len() > hi - lo {
        return false;
    }
    let mut i: usize = 0;
    while i < p.len()
        invariant
            i <= p.len() <= hi - lo,
            lo <= hi <= v.len(),
            s == v@.subrange(lo as int, hi as int),
            forall|j: int| 0 <= j < i ==> lower_eq(#[trigger] s[j], p@[j]),
        decreases p.len() - i,
    {
        if !lower_eq_exec(v[lo + i], p[i]) {
            assert(!lower_eq(s[i as int], p@[i as int]));
            return false;
        }
        i += 1;
    }
    true
}

pub open spec fn digit(c: char) -> bool {
    '0' <= c <= '9'
}

/// The value of two decimal digits.
pub open spec fn two_digits(a: char, b: char) -> int {
    (a as u32 - '0' as u32) * 10 + (b as u32 - '0' as u32)
}

/// The offset in seconds that `±HH:MM` spells: exactly a sign, two digits,
/// a colon and two digits, with minutes below 60; anything else spells none.
pub open spec fn offset_text(off: Seq<char>) -> Option<int> {
    if off.len() == 6 && (off[0] == '+' || off[0] == '-') && digit(off[1]) && digit(off[2])
        && off[3] == ':' && digit(off[4]) && digit(off[5]) && two_digits(off[4], off[5]) <= 59 {
        let total = two_digits(off[1], off[2]) * 3600 + two_digits(off[4], off[5]) * 60;
        Some(
            if off[0] == '-' {
                -total
            } else {
                total
            },
        )
    } else {
        None
    }
}

/// The offset that `v[o..b]` spells as `±HH:MM`.
fn parse_offset(v: &Vec<char>, o: usize, b: usize) -> (r: Option<i64>)
    requires
        o <= b <= v.len(),
    ensures
        match r {
            Some(x) => offset_text(v@.subrange(o as int, b as int)) == Some(x as int),
            None => offset_text(v@.subrange(o as int, b as int)) is None,
        },
{
    let ghost off = v@.subrange(o as int, b as int);
    if b - o != 6 {
        return None;
    }
    let (sg, h1, h2, c, m1, m2) = (v[o], v[o + 1], v[o + 2], v[o + 3], v[o + 4], v[o + 5]);
    assert(off[0] == sg && off[1] == h1 && off[2] == h2 && off[3] == c && off[4] == m1 && off[5]
        == m2);
    if !(sg == '+' || sg == '-') || !('0' <= h1 && h1 <= '9') || !('0' <= h2 && h2 <= '9') || c
        != ':' || !('0' <= m1 && m1 <= '9') || !('0' <= m2 && m2 <= '9') {
        return None;
    }
    let hours = ((h1 as u32 - '0' as u32) * 10 + (h2 as u32 - '0' as u32)) as i64;
    let minutes = ((m1 as u32 - '0' as u32) * 10 + (m2 as u32 - '0' as u32)) as i64;
    if minutes > 59 {
        return None;
    }
    let total = hours * 3600 + minutes * 60;
    if sg == '-' {
        Some(-total)
    } else {
        Some(total)
    }
}

pub open spec fn fixed_prefix() -> Seq<char> {
    seq!['f', 'i', 'x', 'e', 'd', ':']
}

/// The time-zone policy that a setting names: `local`, `utc`, `source` or
/// `fixed:±HH:MM`, trimmed and ignoring ASCII case; anything else, an
/// offset not written exactly as `±HH:MM` or one a day or more from UTC,
/// and no setting at all give `Local`.
pub open spec fn tz_mode_of(s: Option<Seq<char>>) -> TzMode {
    match s {
        None => TzMode::Local,
        Some(raw) => {
            let t = trim(raw);
            if eq_ignore_case(t, seq!['u', 't', 'c']) {
                TzMode::Utc
            } else if eq_ignore_case(t, seq!['s', 'o', 'u', 'r', 'c', 'e']) {
                TzMode::Source
            } else if starts_ignore_case(t, fixed_prefix()) && offset_text(t.skip(6)) is Some
                && -86400 < offset_text(t.skip(6))->0 < 86400 {
                TzMode::Fixed(offset_text(t.skip(6))->0 as i32)
            } else {
                TzMode::Local
            }
        },
    }
}

impl TzMode {
    /// Reads a time-zone setting.
    pub fn parse(s: Option<&str>) -> (r: TzMode)
        ensures
            r == tz_mode_of(
                match s {
                    Some(x) => Some(x@),
                    None => None,
                },
            ),
    {
        let raw = match s {
            Some(x) => x,
            None => return TzMode::Local,
        };
        let v = to_chars(raw);
        assert(v@.subrange(0, v.len() as int) =~= v@);
        let (a, b) = trim_range(&v, 0, v.len());
        let ghost t = v@.subrange(a as int, b as int);
        let utc = vec!['u', 't', 'c'];
        let source = vec!['s', 'o', 'u', 'r', 'c', 'e'];
        let fixed = vec!['f', 'i', 'x', 'e', 'd', ':'];
        assert(utc@ =~= seq!['u', 't', 'c']);
        assert(source@ =~= seq!['s', 'o', 'u', 'r', 'c', 'e']);
        assert(fixed@ =~= fixed_prefix());
        if b - a == 3 && starts_ignore_case_exec(&v, a, b, &utc) {
            return TzMode::Utc;
        }
        if b - a == 6 && starts_ignore_case_exec(&v, a, b, &source) {
            return TzMode::Source;
        }
        if !starts_ignore_case_exec(&v, a, b, &fixed) {
            return TzMode::Local;
        }
        let ghost off = v@.subrange(a + 6, b as int);
        assert(t.skip(6) =~= off);
        let secs = match parse_offset(&v, a + 6, b) {
            Some(x) => x,
            None => return TzMode::Local,
        };
        if secs < -2147483648 || secs > 2147483647 {
            return TzMode::Local;
        }
        if fixed_offset_valid(secs as i32) {
            TzMode::Fixed(secs as i32)
        } else {
            TzMode::Local
        }
    }
}

/// Why a time-zone setting deserves a warning: it names no policy, or its
/// fixed offset is malformed or a day or more from UTC. Either way `Local`
/// applies.
#[derive(Clone, Copy, Debug, PartialEq, Eq, Structural)]
pub enum TzWarning {
    Unrecognised,
    InvalidFixedOffset,
}

/// The warning a time-zone setting deserves, if any.
pub open spec fn tz_warning_of(s: Option<Seq<char>>) -> Option<TzWarning> {
    match s {
        None => None,
        Some(raw) => {
            let t = trim(raw);
            if eq_ignore_case(t, seq!['l', 'o', 'c', 'a', 'l']) || eq_ignore_case(
                t,
                seq!['u', 't', 'c'],
            ) || eq_ignore_case(t, seq!['s', 'o', 'u', 'r', 'c', 'e']) {
                None
            } else if starts_ignore_case(t, fixed_prefix()) {
                if tz_mode_of(s) is Fixed {
                    None
                } else {
                    Some(TzWarning::InvalidFixedOffset)
                }
            } else {
                Some(TzWarning::Unrecognised)
            }
        },
    }
}

/// Classifies a time-zone setting for warnings.
pub fn tz_warning(s: Option<&str>) -> (r: Option<TzWarning>)
    ensures
        r == tz_warning_of(
            match s {
                Some(x) => Some(x@),
                None => None,
            },
        ),
{
    let raw = match s {
        Some(x) => x,
        None => return None,
    };
    let v = to_chars(raw);
    assert(v@.subrange(0, v.len() as int) =~= v@);
    let (a, b) = trim_range(&v, 0, v.len());
    let local = vec!['l', 'o', 'c', 'a', 'l'];
    let utc = vec!['u', 't', 'c'];
    let source = vec!['s', 'o', 'u', 'r', 'c', 'e'];
    let fixed = vec!['f', 'i', 'x', 'e', 'd', ':'];
    assert(local@ =~= seq!['l', 'o', 'c', 'a', 'l']);
    assert(utc@ =~= seq!['u', 't', 'c']);
    assert(source@ =~= seq!['s', 'o', 'u', 'r', 'c', 'e']);
    assert(fixed@ =~= fixed_prefix());
    if (b - a == 5 && starts_ignore_case_exec(&v, a, b, &local)) || (b - a == 3
        && starts_ignore_case_exec(&v, a, b, &utc)) || (b - a == 6 && starts_ignore_case_exec(
        &v,
        a,
        b,
        &source,
    )) {
        return None;
    }
    if starts_ignore_case_exec(&v, a, b, &fixed) {
        match TzMode::parse(s) {
            TzMode::Fixed(_) => None,
            _ => Some(TzWarning::InvalidFixedOffset),
        }
    } else {
        Some(TzWarning::Unrecognised)
    }
}

/// The offset a timestamp is shown at under a policy, given the machine's
/// local offset for that instant.
pub open spec fn target_offset(mode: TzMode, t: Timestamp, local: int) -> int {
    match mode {
        TzMode::Local => local,
        TzMode::Utc => 0,
        TzMode::Source => t.offset as int,
        TzMode::Fixed(o) => o as int,
    }
}

/// The display pattern: the date pattern and the time pattern joined by a
/// space, trimmed.
pub open spec fn display_pattern(date_fmt: Seq<char>, time_fmt: Seq<char>) -> Seq<char> {
    trim(date_fmt + seq![' '] + time_fmt)
}

pub open spec fn unknown() -> Seq<char> {
    "unknown"@
}

/// The display string of an instant at an offset; `unknown` where chrono
/// cannot format it.
pub open spec fn datetime_text(t: Timestamp, offset: int, date_fmt: Seq<char>, time_fmt: Seq<char>) -> Seq<
    char,
> {
    match chrono_format(t.secs as int, t.nanos as int, offset, display_pattern(date_fmt, time_fmt)) {
        Some(s) => s,
        None => unknown(),
    }
}

/// Formats a parsed timestamp under a policy, with the machine's local
/// offset for that instant given.
pub fn render_datetime(t: &Timestamp, mode: TzMode, local: i32, date_fmt: &str, time_fmt: &str) -> (r:
    String)
    requires
        -86400 < local < 86400,
        -86400 < t.offset < 86400,
        mode matches TzMode::Fixed(o) ==> -86400 < o < 86400,
    ensures
        r@ == datetime_text(*t, target_offset(mode, *t, local as int), date_fmt@, time_fmt@),
{
    let offset = match mode {
        TzMode::Local => local,
        TzMode::Utc => 0,
        TzMode::Source => t.offset,
        TzMode::Fixed(o) => o,
    };
    let mut joined = String::new();
    push_str(&mut joined, date_fmt);
    push_str(&mut joined, " ");
    push_str(&mut joined, time_fmt);
    proof {
        reveal_strlit(" ");
    }
    assert(joined@ =~= date_fmt@ + seq![' '] + time_fmt@);
    let v = to_chars(joined.as_str());
    assert(v@.subrange(0, v.len() as int) =~= v@);
    let (a, b) = trim_range(&v, 0, v.len());
    let fmt = string_of(&v, a, b);
    let shown = Timestamp { secs: t.secs, nanos: t.nanos, offset };
    match format_timestamp(&shown, fmt.as_str()) {
        Some(s) => s,
        None => String::from_str("unknown"),
    }
}

/// Formats an RFC 3339 commit timestamp for display under a time-zone
/// setting; `unknown` where the timestamp does not parse. In `Local` mode
/// the offset is the machine's, which the contract leaves open.
pub fn format_commit_datetime(raw: &str, tz_opt: Option<&str>, date_fmt: &str, time_fmt: &str) -> (r:
    String)
    ensures
        rfc3339_parse(raw@) is None ==> r@ == unknown(),
        rfc3339_parse(raw@) matches Some(t) ==> {
            let mode = tz_mode_of(
                match tz_opt {
                    Some(x) => Some(x@),
                    None => None,
                },
            );
            &&& mode != TzMode::Local ==> r@ == datetime_text(
                t,
                target_offset(mode, t, 0),
                date_fmt@,
                time_fmt@,
            )
            &&& mode == TzMode::Local ==> exists|o: int|
                -86400 < o < 86400 && r@ == datetime_text(t, o, date_fmt@, time_fmt@)
        },
{
    let t = match parse_rfc3339(raw) {
        Some(t) => t,
        None => return String::from_str("unknown"),
    };
    let mode = TzMode::parse(tz_opt);
    let local = match mode {
        TzMode::Local => match local_offset(&t) {
            Some(o) => o,
            None => t.offset,
        },
        _ => 0,
    };
    render_datetime(&t, mode, local, date_fmt, time_fmt)
}

} // verus!
