//! The log file of the native messaging host.
//!
//! The host runs where nobody sees its output, so it writes what it does to a
//! file: one line per event, bounded in size, and free of secrets.

use vstd::prelude::*;
use crate::{paths, redact, text};
use crate::host::Platform;

verus! {

pub const FILE_NAME: &'static str = "host.log";

/// The size above which the log is set aside and begun anew.
pub const DEFAULT_MAX_BYTES: u64 = 1048576;

/// The environment variable that chooses the level.
pub const LEVEL_ENV: &'static str = "DOWNER_LOG";

/// How much is written, from nothing to everything.
#[derive(Debug, Clone, Copy, PartialEq, Eq, PartialOrd, Ord, Structural)]
pub enum Level {
    Off,
    Error,
    Info,
    Debug,
}

impl Default for Level {
    fn default() -> (r: Level)
        ensures
            r == Level::Info,
    {
        Level::Info
    }
}

/// The level that a name stands for.
pub open spec fn level_named(name: Seq<char>) -> Option<Level> {
    if name == "off"@ || name == "none"@ {
        Some(Level::Off)
    } else if name == "error"@ {
        Some(Level::Error)
    } else if name == "info"@ {
        Some(Level::Info)
    } else if name == "debug"@ {
        Some(Level::Debug)
    } else {
        None
    }
}

impl Level {
    /// The place of a level in the order from quietest to loudest.
    pub open spec fn rank(self) -> int {
        match self {
            Level::Off => 0,
            Level::Error => 1,
            Level::Info => 2,
            Level::Debug => 3,
        }
    }

    /// The level as a log line shows it.
    pub open spec fn label_text(self) -> Seq<char> {
        match self {
            Level::Off => "OFF"@,
            Level::Error => "ERROR"@,
            Level::Info => "INFO"@,
            Level::Debug => "DEBUG"@,
        }
    }

    /// The name of a level, as `parse` reads it.
    pub open spec fn name_text(self) -> Seq<char> {
        match self {
            Level::Off => "off"@,
            Level::Error => "error"@,
            Level::Info => "info"@,
            Level::Debug => "debug"@,
        }
    }

    /// Read a level, in any case and with white space around it. A name that is
    /// no level is not silently one.
    pub fn parse(value: &str) -> (r: Option<Level>)
        ensures
            r == level_named(text::lower(text::trim(value@))),
    {
        let t = text::trimmed(value);
        let name = text::to_ascii_lower(t.as_str());
        let n = name.as_str();
        if text::same(n, "off") || text::same(n, "none") {
            Some(Level::Off)
        } else if text::same(n, "error") {
            Some(Level::Error)
        } else if text::same(n, "info") {
            Some(Level::Info)
        } else if text::same(n, "debug") {
            Some(Level::Debug)
        } else {
            None
        }
    }

    pub fn label(self) -> (r: &'static str)
        ensures
            r@ == self.label_text(),
    {
        match self {
            Level::Off => "OFF",
            Level::Error => "ERROR",
            Level::Info => "INFO",
            Level::Debug => "DEBUG",
        }
    }

    pub fn name(self) -> (r: &'static str)
        ensures
            r@ == self.name_text(),
    {
        match self {
            Level::Off => "off",
            Level::Error => "error",
            Level::Info => "info",
            Level::Debug => "debug",
        }
    }

    /// Whether a line of level `level` is written at this level.
    pub fn admits(self, level: Level) -> (r: bool)
        ensures
            r == (self != Level::Off && level.rank() <= self.rank()),
    {
        match (self, level) {
            (Level::Off, _) => false,
            (_, Level::Off) => true,
            (_, Level::Error) => true,
            (Level::Error, _) => false,
            (_, Level::Info) => true,
            (Level::Info, Level::Debug) => false,
            (Level::Debug, Level::Debug) => true,
        }
    }
}

/// Where the log stands: below the home directory on macOS, below the state
/// directory everywhere else.
pub open spec fn log_path(platform: Platform, home: Seq<char>, state: Seq<char>) -> Seq<char> {
    match platform {
        Platform::MacOs => paths::joined_path(home, "Library/Logs/downer/host.log"@),
        _ => paths::joined_path(state, "downer/logs/host.log"@),
    }
}

pub fn path_in(platform: Platform, home: &str, state: &str) -> (r: String)
    ensures
        r@ == log_path(platform, home@, state@),
{
    match platform {
        Platform::MacOs => paths::join_path(home, "Library/Logs/downer/host.log"),
        _ => paths::join_path(state, "downer/logs/host.log"),
    }
}

/// Where the log stands, from the directories of the user: their home, and the
/// one for state, else the one for local data. None without them.
pub fn default_path(
    platform: Platform,
    home: &Option<String>,
    state: &Option<String>,
    local: &Option<String>,
) -> (r: Option<String>)
    ensures
        text::opt_text(r) == match (text::opt_text(*home), text::opt_text(*state), text::opt_text(*local)) {
            (Some(h), Some(s), _) => Some(log_path(platform, h, s)),
            (Some(h), None, Some(l)) => Some(log_path(platform, h, l)),
            _ => None,
        },
{
    match (home, state, local) {
        (Some(h), Some(s), _) => Some(path_in(platform, h.as_str(), s.as_str())),
        (Some(h), None, Some(l)) => Some(path_in(platform, h.as_str(), l.as_str())),
        _ => None,
    }
}

/// The level in force: the environment's, if it names one, else the configured.
pub fn configured_level(environment: Option<String>, configured: Level) -> (r: Level)
    ensures
        r == match text::opt_text(environment) {
            Some(value) => match level_named(text::lower(text::trim(value))) {
                Some(level) => level,
                None => configured,
            },
            None => configured,
        },
{
    match environment {
        Some(value) => match Level::parse(value.as_str()) {
            Some(level) => level,
            None => configured,
        },
        None => configured,
    }
}

// ---------------------------------------------------------------------------
// Dates
// ---------------------------------------------------------------------------

pub open spec fn is_leap(year: int) -> bool {
    year % 4 == 0 && (year % 100 != 0 || year % 400 == 0)
}

pub open spec fn month_length(year: int, month: int) -> int {
    if month == 2 {
        if is_leap(year) {
            29
        } else {
            28
        }
    } else if month == 4 || month == 6 || month == 9 || month == 11 {
        30
    } else {
        31
    }
}

/// The days of a year before a month.
pub open spec fn days_before_month(year: int, month: int) -> int
    decreases month,
{
    if month <= 1 {
        0
    } else {
        days_before_month(year, month - 1) + month_length(year, month - 1)
    }
}

/// The days before a year, counted from the first of January of the year 1.
pub open spec fn days_before_year(year: int) -> int {
    365 * (year - 1) + (year - 1) / 4 - (year - 1) / 100 + (year - 1) / 400
}

/// The days before a date of the Gregorian calendar, counted from 1970-01-01.
pub open spec fn day_number(year: int, month: int, day: int) -> int {
    days_before_year(year) + days_before_month(year, month) + (day - 1) - days_before_year(1970)
}

pub open spec fn is_date(year: int, month: int, day: int) -> bool {
    1 <= month <= 12 && 1 <= day <= month_length(year, month)
}

proof fn lemma_days_before_month(year: int)
    ensures
        days_before_month(year, 1) == 0,
        days_before_month(year, 2) == 31,
        ({
            let leap: int = if is_leap(year) {
                1
            } else {
                0
            };
            &&& days_before_month(year, 3) == 59 + leap
            &&& days_before_month(year, 4) == 90 + leap
            &&& days_before_month(year, 5) == 120 + leap
            &&& days_before_month(year, 6) == 151 + leap
            &&& days_before_month(year, 7) == 181 + leap
            &&& days_before_month(year, 8) == 212 + leap
            &&& days_before_month(year, 9) == 243 + leap
            &&& days_before_month(year, 10) == 273 + leap
            &&& days_before_month(year, 11) == 304 + leap
            &&& days_before_month(year, 12) == 334 + leap
        }),
{
    reveal_with_fuel(days_before_month, 13);
}

/// The year within an era of 400 years, counted from March, of a day within it.
proof fn lemma_year_of_era(day_of_era: int, year_of_era: int)
    requires
        0 <= day_of_era < 146097,
        year_of_era == (day_of_era - day_of_era / 1460 + day_of_era / 36524 - day_of_era / 146096)
            / 365,
    ensures
        0 <= year_of_era < 400,
        365 * year_of_era + year_of_era / 4 - year_of_era / 100 <= day_of_era,
        day_of_era - (365 * year_of_era + year_of_era / 4 - year_of_era / 100) <= 365,
        day_of_era - (365 * year_of_era + year_of_era / 4 - year_of_era / 100) == 365 ==> (
        year_of_era + 1) % 4 == 0 && ((year_of_era + 1) % 100 != 0 || year_of_era == 399),
{
}

proof fn lemma_step_4(y: int)
    ensures
        y / 4 == (y - 1) / 4 + (if y % 4 == 0 {
            1int
        } else {
            0int
        }),
{
}

proof fn lemma_step_100(y: int)
    ensures
        y / 100 == (y - 1) / 100 + (if y % 100 == 0 {
            1int
        } else {
            0int
        }),
        y % 100 == 0 ==> y % 4 == 0,
{
}

proof fn lemma_step_400(y: int)
    ensures
        y / 400 == (y - 1) / 400 + (if y % 400 == 0 {
            1int
        } else {
            0int
        }),
        y % 400 == 0 ==> y % 100 == 0,
{
}

proof fn lemma_leap_step(year: int)
    ensures
        days_before_year(year + 1) == days_before_year(year) + 365 + (if is_leap(year) {
            1int
        } else {
            0int
        }),
{
    lemma_step_4(year);
    lemma_step_100(year);
    lemma_step_400(year);
    assert((year + 1) - 1 == year);
}

/// The month, counted from March, of a day of a year that begins in March.
proof fn lemma_month_of_year(day_of_year: int, shifted: int)
    requires
        0 <= day_of_year <= 365,
        shifted == (5 * day_of_year + 2) / 153,
    ensures
        0 <= shifted <= 11,
        shifted == 0 ==> 0 <= day_of_year < 31,
        shifted == 1 ==> 31 <= day_of_year < 61,
        shifted == 2 ==> 61 <= day_of_year < 92,
        shifted == 3 ==> 92 <= day_of_year < 122,
        shifted == 4 ==> 122 <= day_of_year < 153,
        shifted == 5 ==> 153 <= day_of_year < 184,
        shifted == 6 ==> 184 <= day_of_year < 214,
        shifted == 7 ==> 214 <= day_of_year < 245,
        shifted == 8 ==> 245 <= day_of_year < 275,
        shifted == 9 ==> 275 <= day_of_year < 306,
        shifted == 10 ==> 306 <= day_of_year < 337,
        shifted == 11 ==> 337 <= day_of_year,
{
}

/// The days before a year of an era.
proof fn lemma_days_of_eras(era: int, year_of_era: int)
    requires
        0 <= year_of_era < 400,
    ensures
        days_before_year(year_of_era + era * 400 + 1) == era * 146097 + 365 * year_of_era
            + year_of_era / 4 - year_of_era / 100,
        days_before_year(1970) == 719162,
{
    let year = year_of_era + era * 400;
    assert(year / 4 == era * 100 + year_of_era / 4);
    assert(year / 100 == era * 4 + year_of_era / 100);
    assert(year / 400 == era);
    assert(days_before_year(year + 1) == 365 * year + year / 4 - year / 100 + year / 400);
}

proof fn lemma_leap_of_era(era: int, year_of_era: int)
    requires
        0 <= year_of_era < 400,
        (year_of_era + 1) % 4 == 0,
        (year_of_era + 1) % 100 != 0 || year_of_era == 399,
    ensures
        is_leap(year_of_era + era * 400 + 1),
{
    let next = year_of_era + era * 400 + 1;
    assert(next % 4 == 0);
    assert(next % 100 == (year_of_era + 1) % 100);
    assert(year_of_era == 399 ==> next % 400 == 0);
}

/// The days of a year that begins in March, and the months of one that begins
/// in January.
proof fn lemma_months(day_of_year: int, shifted: int, month: int, day: int)
    requires
        0 <= day_of_year <= 365,
        shifted == (5 * day_of_year + 2) / 153,
        day == day_of_year - (153 * shifted + 2) / 5 + 1,
        month == (if shifted < 10 {
            shifted + 3
        } else {
            shifted - 9
        }),
    ensures
        1 <= month <= 12,
        month == 3 ==> 1 <= day <= 31 && day_of_year == day - 1,
        month == 4 ==> 1 <= day <= 30 && day_of_year == 31 + day - 1,
        month == 5 ==> 1 <= day <= 31 && day_of_year == 61 + day - 1,
        month == 6 ==> 1 <= day <= 30 && day_of_year == 92 + day - 1,
        month == 7 ==> 1 <= day <= 31 && day_of_year == 122 + day - 1,
        month == 8 ==> 1 <= day <= 31 && day_of_year == 153 + day - 1,
        month == 9 ==> 1 <= day <= 30 && day_of_year == 184 + day - 1,
        month == 10 ==> 1 <= day <= 31 && day_of_year == 214 + day - 1,
        month == 11 ==> 1 <= day <= 30 && day_of_year == 245 + day - 1,
        month == 12 ==> 1 <= day <= 31 && day_of_year == 275 + day - 1,
        month == 1 ==> 1 <= day <= 31 && day_of_year == 306 + day - 1,
        month == 2 ==> 1 <= day <= 29 && day_of_year == 337 + day - 1,
{
    lemma_month_of_year(day_of_year, shifted);
}

#[verifier::rlimit(40)]
#[verifier::spinoff_prover]
proof fn lemma_civil(
    era: int,
    year_of_era: int,
    day_of_year: int,
    shifted: int,
    shown: int,
    month: int,
    day: int,
)
    requires
        0 <= year_of_era < 400,
        0 <= day_of_year <= 365,
        day_of_year == 365 ==> (year_of_era + 1) % 4 == 0 && ((year_of_era + 1) % 100 != 0
            || year_of_era == 399),
        shifted == (5 * day_of_year + 2) / 153,
        day == day_of_year - (153 * shifted + 2) / 5 + 1,
        month == (if shifted < 10 {
            shifted + 3
        } else {
            shifted - 9
        }),
        shown == year_of_era + era * 400 + (if month <= 2 {
            1int
        } else {
            0int
        }),
    ensures
        is_date(shown, month, day),
        day_number(shown, month, day) == era * 146097 + 365 * year_of_era + year_of_era / 4
            - year_of_era / 100 + day_of_year - 719468,
{
    let year = year_of_era + era * 400;
    lemma_days_before_month(shown);
    lemma_leap_step(year);
    lemma_days_of_eras(era, year_of_era);
    lemma_months(day_of_year, shifted, month, day);
    if day_of_year == 365 {
        lemma_leap_of_era(era, year_of_era);
    }
}

/// The date of a day counted from 1970-01-01.
pub fn civil_from_days(days: i64) -> (r: (i64, u32, u32))
    requires
        days <= i64::MAX - 719468,
    ensures
        is_date(r.0 as int, r.1 as int, r.2 as int),
        day_number(r.0 as int, r.1 as int, r.2 as int) == days,
{
    let z: i64 = days + 719468;
    let (era, day_of_era) = split_eras(z);
    let year_of_era: i64 = (day_of_era - day_of_era / 1460 + day_of_era / 36524 - day_of_era
        / 146096) / 365;
    proof {
        lemma_year_of_era(day_of_era as int, year_of_era as int);
    }
    let year: i64 = year_of_era + era * 400;
    let day_of_year: i64 = day_of_era - (365 * year_of_era + year_of_era / 4 - year_of_era / 100);
    let shifted: i64 = (5 * day_of_year + 2) / 153;
    proof {
        lemma_month_of_year(day_of_year as int, shifted as int);
    }
    let day: u32 = (day_of_year - (153 * shifted + 2) / 5 + 1) as u32;
    let month: u32 = if shifted < 10 {
        (shifted + 3) as u32
    } else {
        (shifted - 9) as u32
    };
    let shown: i64 = if month <= 2 {
        year + 1
    } else {
        year
    };
    proof {
        lemma_civil(
            era as int,
            year_of_era as int,
            day_of_year as int,
            shifted as int,
            shown as int,
            month as int,
            day as int,
        );
    }
    (shown, month, day)
}

/// The eras of 400 years before a day, and the days within its era.
fn split_eras(z: i64) -> (r: (i64, i64))
    ensures
        r.0 * 146097 + r.1 == z,
        0 <= r.1 < 146097,
        -100000000000000 < r.0 < 100000000000000,
{
    if z >= 0 {
        (z / 146097, z % 146097)
    } else {
        let back: i64 = -1 - z;
        (-1 - back / 146097, 146096 - back % 146097)
    }
}

/// A moment, in seconds from 1970-01-01, in the form `YYYY-MM-DDThh:mm:ssZ`.
pub open spec fn stamp(year: nat, month: nat, day: nat, time: nat) -> Seq<char> {
    text::zero_padded(year, 4) + "-"@ + text::zero_padded(month, 2) + "-"@ + text::zero_padded(day, 2) + "T"@
        + text::zero_padded(time / 3600, 2) + ":"@ + text::zero_padded((time % 3600) / 60, 2) + ":"@
        + text::zero_padded(time % 60, 2) + "Z"@
}

/// Whether a text is the stamp of a moment.
pub open spec fn is_timestamp(s: Seq<char>, seconds: nat) -> bool {
    exists|year: nat, month: nat, day: nat| #[trigger]
        is_date(year as int, month as int, day as int) && day_number(
            year as int,
            month as int,
            day as int,
        ) == seconds / 86400 && s == stamp(year, month, day, seconds % 86400)
}

pub fn timestamp(seconds: u64) -> (r: String)
    ensures
        is_timestamp(r@, seconds as nat),
{
    let days: i64 = (seconds / 86400) as i64;
    let time: u64 = seconds % 86400;
    let (year, month, day) = civil_from_days(days);
    proof {
        lemma_year_not_negative(year as int, month as int, day as int);
    }
    let mut r = text::zero_padded_of(year as u64, 4);
    r.append("-");
    r.append(text::zero_padded_of(month as u64, 2).as_str());
    r.append("-");
    r.append(text::zero_padded_of(day as u64, 2).as_str());
    r.append("T");
    r.append(text::zero_padded_of(time / 3600, 2).as_str());
    r.append(":");
    r.append(text::zero_padded_of((time % 3600) / 60, 2).as_str());
    r.append(":");
    r.append(text::zero_padded_of(time % 60, 2).as_str());
    r.append("Z");
    assert(is_date(year as nat as int, month as nat as int, day as nat as int));
    assert(r@ == stamp(year as nat, month as nat, day as nat, time as nat));
    r
}

proof fn lemma_year_not_negative(year: int, month: int, day: int)
    requires
        is_date(year, month, day),
        day_number(year, month, day) >= 0,
    ensures
        year >= 1970,
{
    lemma_days_before_month(year);
    assert(days_before_year(1970) == 719162);
    if year < 1970 {
        assert(days_before_month(year, month) + day <= 366);
        assert(days_before_month(year, month) + day <= 365 || is_leap(year));
        assert(days_before_year(year + 1) <= 719162);
    }
}

proof fn lemma_later_year(year: int, later: int)
    requires
        year < later,
    ensures
        days_before_year(year + 1) <= days_before_year(later),
    decreases later - year,
{
    if year + 1 < later {
        lemma_later_year(year + 1, later);
        lemma_leap_step(year + 1);
    }
}

proof fn lemma_date_within_year(year: int, month: int, day: int)
    requires
        is_date(year, month, day),
    ensures
        0 <= days_before_month(year, month) + (day - 1),
        days_before_month(year, month) + (day - 1) < days_before_year(year + 1) - days_before_year(
            year,
        ),
{
    lemma_days_before_month(year);
    lemma_leap_step(year);
}

proof fn lemma_earlier_year(year: int, month: int, day: int, later: int, month2: int, day2: int)
    requires
        is_date(year, month, day),
        is_date(later, month2, day2),
        year < later,
    ensures
        day_number(year, month, day) < day_number(later, month2, day2),
{
    lemma_date_within_year(year, month, day);
    lemma_date_within_year(later, month2, day2);
    lemma_later_year(year, later);
}

/// No day has two dates.
pub proof fn law_a_day_has_one_date(
    year: int,
    month: int,
    day: int,
    year2: int,
    month2: int,
    day2: int,
)
    requires
        is_date(year, month, day),
        is_date(year2, month2, day2),
        day_number(year, month, day) == day_number(year2, month2, day2),
    ensures
        year == year2,
        month == month2,
        day == day2,
{
    if year < year2 {
        lemma_earlier_year(year, month, day, year2, month2, day2);
    } else if year2 < year {
        lemma_earlier_year(year2, month2, day2, year, month, day);
    } else {
        lemma_days_before_month(year);
    }
}

/// A moment has one stamp.
pub proof fn law_a_moment_has_one_stamp(s: Seq<char>, t: Seq<char>, seconds: nat)
    requires
        is_timestamp(s, seconds),
        is_timestamp(t, seconds),
    ensures
        s == t,
{
    let (year, month, day) = choose|year: nat, month: nat, day: nat| #[trigger]
        is_date(year as int, month as int, day as int) && day_number(
            year as int,
            month as int,
            day as int,
        ) == seconds / 86400 && s == stamp(year, month, day, seconds % 86400);
    let (year2, month2, day2) = choose|year: nat, month: nat, day: nat| #[trigger]
        is_date(year as int, month as int, day as int) && day_number(
            year as int,
            month as int,
            day as int,
        ) == seconds / 86400 && t == stamp(year, month, day, seconds % 86400);
    law_a_day_has_one_date(
        year as int,
        month as int,
        day as int,
        year2 as int,
        month2 as int,
        day2 as int,
    );
}

// ---------------------------------------------------------------------------
// Lines
// ---------------------------------------------------------------------------

/// Whether a value must stand in quotes to be read back as one.
pub open spec fn needs_quotes(s: Seq<char>) -> bool {
    s.len() == 0 || exists|i: int|
        0 <= i < s.len() && (text::is_white(#[trigger] s[i]) || s[i] == '"' || s[i] == '\\')
}

pub open spec fn escaped_char(c: char) -> Seq<char> {
    if c == '"' {
        seq!['\\', '"']
    } else if c == '\\' {
        seq!['\\', '\\']
    } else if c == '\n' {
        seq!['\\', 'n']
    } else if c == '\r' {
        seq!['\\', 'r']
    } else if c == '\t' {
        seq!['\\', 't']
    } else {
        seq![c]
    }
}

pub open spec fn escaped(s: Seq<char>) -> Seq<char>
    decreases s.len(),
{
    if s.len() == 0 {
        Seq::empty()
    } else {
        escaped(s.drop_last()) + escaped_char(s.last())
    }
}

/// A value as a log line holds it.
pub open spec fn quoted(s: Seq<char>) -> Seq<char> {
    if needs_quotes(s) {
        seq!['"'] + escaped(s) + seq!['"']
    } else {
        s
    }
}

pub fn quote(value: &str) -> (r: String)
    ensures
        r@ == quoted(value@),
{
    let v = text::chars_of(value);
    let mut needed: bool = v.len() == 0;
    let mut i: usize = 0;
    while i < v.len()
        invariant
            v@ == value@,
            i <= v@.len(),
            needed == (value@.len() == 0 || exists|k: int|
                0 <= k < i && (text::is_white(#[trigger] value@[k]) || value@[k] == '"' || value@[k]
                    == '\\')),
        decreases v@.len() - i,
    {
        if text::white(v[i]) || v[i] == '"' || v[i] == '\\' {
            assert(text::is_white(value@[i as int]) || value@[i as int] == '"' || value@[i as int]
                == '\\');
            needed = true;
        }
        i = i + 1;
    }
    if !needed {
        return text::owned(value);
    }
    let mut r = String::new();
    r.push('"');
    let mut k: usize = 0;
    assert(value@.take(0) =~= Seq::empty());
    assert(r@ =~= seq!['"'] + escaped(value@.take(0)));
    while k < v.len()
        invariant
            v@ == value@,
            k <= v@.len(),
            r@ == seq!['"'] + escaped(value@.take(k as int)),
        decreases v@.len() - k,
    {
        let c = v[k];
        proof {
            assert(value@.take(k + 1).drop_last() =~= value@.take(k as int));
        }
        if c == '"' {
            r.push('\\');
            r.push('"');
        } else if c == '\\' {
            r.push('\\');
            r.push('\\');
        } else if c == '\n' {
            r.push('\\');
            r.push('n');
        } else if c == '\r' {
            r.push('\\');
            r.push('r');
        } else if c == '\t' {
            r.push('\\');
            r.push('t');
        } else {
            r.push(c);
        }
        k = k + 1;
        assert(r@ =~= seq!['"'] + escaped(value@.take(k as int)));
    }
    assert(value@.take(k as int) =~= value@);
    r.push('"');
    assert(r@ =~= seq!['"'] + escaped(value@) + seq!['"']);
    r
}

/// The fields of a line: a space, the key, `=` and the value, redacted and
/// quoted.
pub open spec fn rendered_fields(fields: Seq<(Seq<char>, Seq<char>)>) -> Seq<char>
    decreases fields.len(),
{
    if fields.len() == 0 {
        Seq::empty()
    } else {
        rendered_fields(fields.drop_last()) + " "@ + fields.last().0 + "="@ + quoted(
            redact::redacted_text(fields.last().1),
        )
    }
}

/// The label of a level, filled with spaces to five characters.
pub open spec fn padded_label(level: Level) -> Seq<char> {
    match level {
        Level::Off => "OFF  "@,
        Level::Error => "ERROR"@,
        Level::Info => "INFO "@,
        Level::Debug => "DEBUG"@,
    }
}

/// What a line holds behind its time.
pub open spec fn rendered_event(
    level: Level,
    event: Seq<char>,
    fields: Seq<(Seq<char>, Seq<char>)>,
) -> Seq<char> {
    " "@ + padded_label(level) + " "@ + event + rendered_fields(fields)
}

/// Whether a text is the line of an event at a moment.
pub open spec fn is_line(
    line: Seq<char>,
    seconds: nat,
    level: Level,
    event: Seq<char>,
    fields: Seq<(Seq<char>, Seq<char>)>,
) -> bool {
    exists|time: Seq<char>| #[trigger]
        is_timestamp(time, seconds) && line == time + rendered_event(level, event, fields)
}

pub fn render(seconds: u64, level: Level, event: &str, fields: &Vec<(String, String)>) -> (r:
    String)
    ensures
        is_line(r@, seconds as nat, level, event@, text::pair_texts(fields@)),
{
    let mut line = timestamp(seconds);
    let ghost time = line@;
    line.append(" ");
    line.append(
        match level {
            Level::Off => "OFF  ",
            Level::Error => "ERROR",
            Level::Info => "INFO ",
            Level::Debug => "DEBUG",
        },
    );
    line.append(" ");
    line.append(event);
    let ghost head = line@;
    let mut i: usize = 0;
    assert(text::pair_texts(fields@).take(0) =~= Seq::empty());
    assert(head + rendered_fields(text::pair_texts(fields@).take(0)) =~= head);
    while i < fields.len()
        invariant
            i <= fields@.len(),
            line@ == head + rendered_fields(text::pair_texts(fields@).take(i as int)),
        decreases fields@.len() - i,
    {
        let value = redact::redact_text(fields[i].1.as_str());
        let shown = quote(value.as_str());
        proof {
            let next = text::pair_texts(fields@).take(i + 1);
            assert(next.drop_last() =~= text::pair_texts(fields@).take(i as int));
            assert(next.last() == (fields@[i as int].0@, fields@[i as int].1@));
        }
        line.append(" ");
        line.append(fields[i].0.as_str());
        line.append("=");
        line.append(shown.as_str());
        i = i + 1;
        assert(line@ =~= head + rendered_fields(text::pair_texts(fields@).take(i as int)));
    }
    assert(text::pair_texts(fields@).take(i as int) =~= text::pair_texts(fields@));
    assert(line@ =~= time + rendered_event(level, event@, text::pair_texts(fields@)));
    line
}

// ---------------------------------------------------------------------------
// The file
// ---------------------------------------------------------------------------

/// Whether a line takes a file that holds something above a limit.
pub open spec fn is_overfull(held: int, bytes: int, limit: int) -> bool {
    held > 0 && held + bytes > limit
}

/// A log: where it stands, what it writes, and how full its file is.
pub struct HostLog {
    pub path: String,
    pub level: Level,
    pub max_bytes: u64,
    /// Whether the file is open.
    pub open: bool,
    /// How many bytes the open file holds.
    pub written: u64,
}

impl HostLog {
    pub fn new(path: String, level: Level, max_bytes: u64) -> (r: HostLog)
        ensures
            r == fresh_log(path, level, max_bytes),
    {
        HostLog { path, level, max_bytes, open: false, written: 0 }
    }

    pub fn path(&self) -> (r: &str)
        ensures
            r@ == self.path@,
    {
        self.path.as_str()
    }

    pub fn level(&self) -> (r: Level)
        ensures
            r == self.level,
    {
        self.level
    }

    /// Where a log that has grown too large is set aside: beside it, with more
    /// behind its name.
    pub fn rotated_path(&self) -> (r: String)
        ensures
            r@ == paths::suffixed(self.path@, ".1"@),
    {
        paths::with_suffix(self.path.as_str(), ".1")
    }

    /// The line to write for an event; `None` if the level leaves it out.
    pub fn write(
        &self,
        seconds: u64,
        level: Level,
        event: &str,
        fields: &Vec<(String, String)>,
    ) -> (r: Option<String>)
        ensures
            (r is Some) == (self.level != Level::Off && level.rank() <= self.level.rank()),
            r matches Some(line) ==> is_line(
                line@,
                seconds as nat,
                level,
                event@,
                text::pair_texts(fields@),
            ),
    {
        if !self.level.admits(level) {
            return None;
        }
        Some(render(seconds, level, event, fields))
    }

    /// What the file holds: what was counted while it is open, else `size`, which
    /// is what an earlier run left.
    pub open spec fn held(&self, size: u64) -> u64 {
        if self.open {
            self.written
        } else {
            size
        }
    }

    /// Whether the file must be set aside before `bytes` more are written: they
    /// would take a file that holds something above the limit. `size` is what the
    /// file holds where it is not open yet.
    pub open spec fn rotation_due(&self, size: u64, bytes: u64) -> bool {
        is_overfull(self.held(size) as int, bytes as int, self.max_bytes as int)
    }

    pub fn must_rotate(&self, size: u64, bytes: u64) -> (r: bool)
        ensures
            r == self.rotation_due(size, bytes),
    {
        let held: u64 = if self.open {
            self.written
        } else {
            size
        };
        held > 0 && (self.max_bytes < held || bytes > self.max_bytes - held)
    }

    /// The file was set aside.
    pub fn rotated(&mut self)
        ensures
            final(self).path@ == old(self).path@,
            final(self).level == old(self).level,
            final(self).max_bytes == old(self).max_bytes,
            !final(self).open,
            final(self).written == 0,
    {
        self.open = false;
        self.written = 0;
    }

    /// The file was opened, holding `size` bytes; an open file stays as it is.
    pub fn opened(&mut self, size: u64)
        ensures
            final(self).path@ == old(self).path@,
            final(self).level == old(self).level,
            final(self).max_bytes == old(self).max_bytes,
            final(self).open,
            final(self).written == (if old(self).open {
                old(self).written
            } else {
                size
            }),
    {
        if !self.open {
            self.open = true;
            self.written = size;
        }
    }

    /// `bytes` were written to the open file.
    pub fn wrote(&mut self, bytes: u64)
        requires
            old(self).written + bytes <= u64::MAX,
        ensures
            final(self).path@ == old(self).path@,
            final(self).level == old(self).level,
            final(self).max_bytes == old(self).max_bytes,
            final(self).open == old(self).open,
            final(self).written == old(self).written + bytes,
    {
        self.written = self.written + bytes;
    }
}

/// The one log of a process, if it was begun.
pub struct LogSlot {
    pub log: Option<HostLog>,
}

impl LogSlot {
    pub fn new() -> (r: LogSlot)
        ensures
            r.log is None,
    {
        LogSlot { log: None }
    }
}

/// The log of a process in which another is begun: the first one stands.
pub open spec fn first_log(log: Option<HostLog>, next: HostLog) -> Option<HostLog> {
    match log {
        Some(first) => Some(first),
        None => Some(next),
    }
}

/// A log that was not opened yet.
pub open spec fn fresh_log(path: String, level: Level, max_bytes: u64) -> HostLog {
    HostLog { path, level, max_bytes, open: false, written: 0 }
}

/// Begin the log of a process, unless it has one.
pub fn init(slot: &mut LogSlot, path: String, level: Level, max_bytes: u64)
    ensures
        final(slot).log == first_log(old(slot).log, fresh_log(path, level, max_bytes)),
{
    if slot.log.is_none() {
        slot.log = Some(HostLog::new(path, level, max_bytes));
    }
}

/// Begin the log of a host, if its level writes anything and it has a place.
pub fn init_default(slot: &mut LogSlot, level: Level, path: Option<String>)
    ensures
        final(slot).log == match path {
            Some(p) => if level == Level::Off {
                old(slot).log
            } else {
                first_log(old(slot).log, fresh_log(p, level, DEFAULT_MAX_BYTES))
            },
            None => old(slot).log,
        },
{
    match (level, path) {
        (Level::Off, _) => {},
        (_, None) => {},
        (_, Some(p)) => {
            init(slot, p, level, DEFAULT_MAX_BYTES);
        },
    }
}

/// The log of a process after some were begun, one after the other.
pub open spec fn begun(log: Option<HostLog>, logs: Seq<HostLog>) -> Option<HostLog>
    decreases logs.len(),
{
    if logs.len() == 0 {
        log
    } else {
        first_log(begun(log, logs.drop_last()), logs.last())
    }
}

/// The first log that a process begins stands: those that are begun later change
/// nothing.
pub proof fn law_the_first_log_stands(first: HostLog, later: Seq<HostLog>)
    ensures
        begun(first_log(None, first), later) == Some(first),
    decreases later.len(),
{
    if later.len() > 0 {
        law_the_first_log_stands(first, later.drop_last());
    }
}

/// The line of an event, if a log was begun and its level admits it.
pub fn event(
    slot: &LogSlot,
    seconds: u64,
    level: Level,
    name: &str,
    fields: &Vec<(String, String)>,
) -> (r: Option<String>)
    ensures
        (r is Some) == (slot.log matches Some(l) && l.level != Level::Off && level.rank()
            <= l.level.rank()),
        r matches Some(line) ==> is_line(
            line@,
            seconds as nat,
            level,
            name@,
            text::pair_texts(fields@),
        ),
{
    match &slot.log {
        Some(l) => l.write(seconds, level, name, fields),
        None => None,
    }
}

/// The line of an event worth knowing.
pub fn info(
    slot: &LogSlot,
    seconds: u64,
    name: &str,
    fields: &Vec<(String, String)>,
) -> (r: Option<String>)
    ensures
        (r is Some) == (slot.log matches Some(l) && l.level.rank() >= 2),
        r matches Some(line) ==> is_line(
            line@,
            seconds as nat,
            Level::Info,
            name@,
            text::pair_texts(fields@),
        ),
{
    self::event(slot, seconds, Level::Info, name, fields)
}

/// The line of an event that went wrong.
pub fn error(
    slot: &LogSlot,
    seconds: u64,
    name: &str,
    fields: &Vec<(String, String)>,
) -> (r: Option<String>)
    ensures
        (r is Some) == (slot.log matches Some(l) && l.level.rank() >= 1),
        r matches Some(line) ==> is_line(
            line@,
            seconds as nat,
            Level::Error,
            name@,
            text::pair_texts(fields@),
        ),
{
    self::event(slot, seconds, Level::Error, name, fields)
}

/// The line of an event that matters to a developer.
pub fn debug(
    slot: &LogSlot,
    seconds: u64,
    name: &str,
    fields: &Vec<(String, String)>,
) -> (r: Option<String>)
    ensures
        (r is Some) == (slot.log matches Some(l) && l.level.rank() >= 3),
        r matches Some(line) ==> is_line(
            line@,
            seconds as nat,
            Level::Debug,
            name@,
            text::pair_texts(fields@),
        ),
{
    self::event(slot, seconds, Level::Debug, name, fields)
}

// ---------------------------------------------------------------------------
// Laws
// ---------------------------------------------------------------------------

/// A character that would end a line or imitate the gap between fields.
pub open spec fn breaks_line(c: char) -> bool {
    c == '\n' || c == '\r' || c == '\t'
}

proof fn lemma_escaped_keeps_the_line(s: Seq<char>)
    ensures
        forall|i: int| 0 <= i < escaped(s).len() ==> !breaks_line(#[trigger] escaped(s)[i]),
    decreases s.len(),
{
    if s.len() > 0 {
        let before = escaped(s.drop_last());
        lemma_escaped_keeps_the_line(s.drop_last());
        assert forall|i: int| 0 <= i < escaped(s).len() implies !breaks_line(
            #[trigger] escaped(s)[i],
        ) by {
            if i < before.len() {
                assert(escaped(s)[i] == before[i]);
            } else {
                assert(escaped(s)[i] == escaped_char(s.last())[i - before.len()]);
            }
        }
    }
}

/// Whatever a value holds, its quoted form holds no line break: a value cannot
/// begin a line of its own.
pub proof fn law_a_quoted_value_stays_on_its_line(s: Seq<char>)
    ensures
        forall|i: int| 0 <= i < quoted(s).len() ==> !breaks_line(#[trigger] quoted(s)[i]),
{
    lemma_escaped_keeps_the_line(s);
    if !needs_quotes(s) {
        assert forall|i: int| 0 <= i < s.len() implies !breaks_line(#[trigger] s[i]) by {
            if breaks_line(s[i]) {
                assert(text::is_white(s[i]));
            }
        }
    }
}

/// Two values with the same quoted form are the same value.
pub proof fn law_quoting_loses_nothing(a: Seq<char>, b: Seq<char>)
    requires
        quoted(a) == quoted(b),
    ensures
        a == b,
{
    if needs_quotes(a) && needs_quotes(b) {
        assert(escaped(a) =~= quoted(a).subrange(1, quoted(a).len() - 1));
        assert(escaped(b) =~= quoted(b).subrange(1, quoted(b).len() - 1));
        lemma_escaped_is_injective(a, b);
    } else if needs_quotes(a) {
        assert(quoted(a)[0] == '"');
        assert(b[0] == '"');
    } else if needs_quotes(b) {
        assert(quoted(b)[0] == '"');
        assert(a[0] == '"');
    }
}

/// The number of backslashes at the end of a text.
spec fn trailing_backslashes(s: Seq<char>) -> nat
    decreases s.len(),
{
    if s.len() > 0 && s.last() == '\\' {
        trailing_backslashes(s.drop_last()) + 1
    } else {
        0
    }
}

proof fn lemma_escaped_ends_even(s: Seq<char>)
    ensures
        trailing_backslashes(escaped(s)) % 2 == 0,
    decreases s.len(),
{
    if s.len() > 0 {
        let before = escaped(s.drop_last());
        let e = escaped(s);
        lemma_escaped_ends_even(s.drop_last());
        if s.last() == '\\' {
            assert(e.drop_last().drop_last() =~= before);
            assert(e.drop_last().last() == '\\');
            assert(trailing_backslashes(e.drop_last()) == trailing_backslashes(before) + 1);
            assert(trailing_backslashes(e) == trailing_backslashes(before) + 2);
        } else {
            assert(e.last() == escaped_char(s.last()).last());
            assert(e.last() != '\\');
        }
    }
}

proof fn lemma_escaped_is_injective(a: Seq<char>, b: Seq<char>)
    requires
        escaped(a) == escaped(b),
    ensures
        a == b,
    decreases a.len() + b.len(),
{
    if a.len() == 0 {
        if b.len() > 0 {
            assert(escaped(b).len() > 0);
        }
        assert(a =~= b);
    } else if b.len() == 0 {
        assert(escaped(a).len() > 0);
    } else {
        let e = escaped(a);
        let ea = escaped(a.drop_last());
        let eb = escaped(b.drop_last());
        let ca = escaped_char(a.last());
        let cb = escaped_char(b.last());
        assert(e.last() == ca.last());
        assert(e.last() == cb.last());
        lemma_escaped_ends_even(a.drop_last());
        lemma_escaped_ends_even(b.drop_last());
        if ca.len() == 2 && cb.len() == 2 {
            assert(ea =~= e.take(e.len() - 2));
            assert(eb =~= e.take(e.len() - 2));
        } else if ca.len() == 1 && cb.len() == 1 {
            assert(ea =~= e.take(e.len() - 1));
            assert(eb =~= e.take(e.len() - 1));
        } else if ca.len() == 2 {
            assert(eb =~= e.drop_last());
            assert(eb.drop_last() =~= ea);
            assert(eb.last() == '\\');
            assert(trailing_backslashes(eb) == trailing_backslashes(ea) + 1);
        } else {
            assert(ea =~= e.drop_last());
            assert(ea.drop_last() =~= eb);
            assert(ea.last() == '\\');
            assert(trailing_backslashes(ea) == trailing_backslashes(eb) + 1);
        }
        lemma_escaped_is_injective(a.drop_last(), b.drop_last());
        assert(a =~= a.drop_last().push(a.last()));
        assert(b =~= b.drop_last().push(b.last()));
    }
}

/// Whatever a log and its file hold when a line comes, the file is within the
/// limit after it, or holds that line alone, if it is set aside whenever that is
/// due.
pub proof fn law_the_log_is_bounded(log: HostLog, size: u64, bytes: u64)
    ensures
        ({
            let held: int = if log.rotation_due(size, bytes) {
                0
            } else {
                log.held(size) as int
            };
            held + bytes <= log.max_bytes || held == 0
        }),
{
}

/// What the file of a log and the one set aside hold after lines of these
/// lengths, if the first is set aside whenever that is due.
pub open spec fn file_sizes(limit: int, before: (int, int), lengths: Seq<int>) -> (int, int)
    decreases lengths.len(),
{
    if lengths.len() == 0 {
        before
    } else {
        let (live, aside) = file_sizes(limit, before, lengths.drop_last());
        let bytes = lengths.last();
        if is_overfull(live, bytes, limit) {
            (bytes, live)
        } else {
            (live + bytes, aside)
        }
    }
}

/// The two files of a log never hold more than twice its limit, as long as no
/// line alone is longer than that.
pub proof fn law_both_files_are_bounded(limit: int, before: (int, int), lengths: Seq<int>)
    requires
        0 <= before.0 <= limit,
        0 <= before.1 <= limit,
        forall|i: int| 0 <= i < lengths.len() ==> 0 <= #[trigger] lengths[i] <= limit,
    ensures
        ({
            let (live, aside) = file_sizes(limit, before, lengths);
            0 <= live <= limit && 0 <= aside <= limit && live + aside <= 2 * limit
        }),
    decreases lengths.len(),
{
    if lengths.len() > 0 {
        law_both_files_are_bounded(limit, before, lengths.drop_last());
        assert(lengths.last() == lengths[lengths.len() - 1]);
    }
}

} // verus!
