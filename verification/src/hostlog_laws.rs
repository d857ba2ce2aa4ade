//! What writing a log amounts to, stated without the definitions of its lines.

use vstd::prelude::*;
use crate::{hostlog, redact, text, text_laws};
use crate::host::Platform;
use crate::hostlog::{HostLog, Level};

verus! {

// ---------------------------------------------------------------------------
// Levels
// ---------------------------------------------------------------------------

/// A level is read back from its name; one more name turns the log off, and no
/// other word is a level.
pub proof fn law_a_level_is_read_back(level: Level, name: Seq<char>)
    ensures
        hostlog::level_named(level.name_text()) == Some(level),
        hostlog::level_named("none"@) == Some(Level::Off),
        hostlog::level_named(name) is Some <==> name == "off"@ || name == "none"@ || name == "error"@ || name
            == "info"@ || name == "debug"@,
        hostlog::level_named("off"@) == Some(Level::Off) && hostlog::level_named("error"@) == Some(Level::Error)
            && hostlog::level_named("info"@) == Some(Level::Info) && hostlog::level_named("debug"@) == Some(
            Level::Debug,
        ),
{
    reveal_strlit("off");
    reveal_strlit("none");
    reveal_strlit("error");
    reveal_strlit("info");
    reveal_strlit("debug");
    assert("off"@.len() == 3 && "none"@.len() == 4 && "info"@.len() == 4);
    assert("none"@[0] == 'n' && "info"@[0] == 'i');
    assert("error"@.len() == 5 && "debug"@.len() == 5);
    assert("error"@[0] == 'e' && "debug"@[0] == 'd');
}

/// A louder level admits all that a quieter one admits: nothing at all comes
/// first, then errors, then what is worth knowing, then everything. A line shows
/// the name of its level in capitals, filled with spaces.
pub proof fn law_levels_are_ordered(level: Level)
    ensures
        Level::Off.rank() < Level::Error.rank() < Level::Info.rank() < Level::Debug.rank(),
        Level::Off.rank() <= level.rank() <= Level::Debug.rank(),
        hostlog::padded_label(level).len() == 5,
        level.label_text() == text::upper(level.name_text()),
        hostlog::padded_label(level).take(level.label_text().len() as int) == level.label_text(),
        forall|k: int| level.label_text().len() <= k < 5 ==> #[trigger] hostlog::padded_label(level)[k] == ' ',
{
    reveal_strlit("OFF  ");
    reveal_strlit("ERROR");
    reveal_strlit("INFO ");
    reveal_strlit("DEBUG");
    reveal_strlit("OFF");
    reveal_strlit("INFO");
    reveal_strlit("off");
    reveal_strlit("error");
    reveal_strlit("info");
    reveal_strlit("debug");
    assert("OFF  "@.take(3) =~= "OFF"@);
    assert("ERROR"@.take(5) =~= "ERROR"@);
    assert("INFO "@.take(4) =~= "INFO"@);
    assert("DEBUG"@.take(5) =~= "DEBUG"@);
    assert(level.label_text() =~= text::upper(level.name_text()));
}

/// On macOS the log stands below the home directory, whatever the other is; on any
/// other system below the directory for state, whatever the home is.
pub proof fn law_the_log_has_its_place(platform: Platform, home: Seq<char>, state: Seq<char>)
    requires
        home.len() > 0 && home.last() != '/',
        state.len() > 0 && state.last() != '/',
    ensures
        platform is MacOs ==> hostlog::log_path(platform, home, state) == home
            + "/Library/Logs/downer/host.log"@,
        !(platform is MacOs) ==> hostlog::log_path(platform, home, state) == state
            + "/downer/logs/host.log"@,
{
    reveal_strlit("Library/Logs/downer/host.log");
    reveal_strlit("/Library/Logs/downer/host.log");
    reveal_strlit("downer/logs/host.log");
    reveal_strlit("/downer/logs/host.log");
    assert(home.push('/') + "Library/Logs/downer/host.log"@ =~= home
        + "/Library/Logs/downer/host.log"@);
    assert(state.push('/') + "downer/logs/host.log"@ =~= state + "/downer/logs/host.log"@);
}

// ---------------------------------------------------------------------------
// Time
// ---------------------------------------------------------------------------

/// The first of January 1970 is the first day that is counted. A day has the
/// number behind that of the day before it: within a month, over the end of a
/// month, and over the end of a year.
pub proof fn law_days_are_numbered_one_after_another(year: int, month: int, day: int)
    requires
        hostlog::is_date(year, month, day),
    ensures
        hostlog::day_number(1970, 1, 1) == 0,
        hostlog::is_date(year, month, day + 1) ==> hostlog::day_number(year, month, day + 1) == hostlog::day_number(
            year,
            month,
            day,
        ) + 1,
        !hostlog::is_date(year, month, day + 1) && month < 12 ==> hostlog::is_date(year, month + 1, 1) && hostlog::day_number(
            year,
            month + 1,
            1,
        ) == hostlog::day_number(year, month, day) + 1,
        !hostlog::is_date(year, month, day + 1) && month == 12 ==> hostlog::is_date(year + 1, 1, 1) && hostlog::day_number(
            year + 1,
            1,
            1,
        ) == hostlog::day_number(year, month, day) + 1,
{
    assert(hostlog::days_before_month(1970, 1) == 0);
    assert(hostlog::days_before_month(year, month + 1) == hostlog::days_before_month(year, month) + hostlog::month_length(
        year,
        month,
    ));
    if month == 12 {
        assert(hostlog::days_before_month(year + 1, 1) == 0);
        assert(hostlog::days_before_month(year, 1) == 0);
        assert(hostlog::days_before_month(year, 2) == 31);
        assert(hostlog::days_before_month(year, 3) == 31 + hostlog::month_length(year, 2));
        assert(hostlog::days_before_month(year, 4) == 62 + hostlog::month_length(year, 2));
        assert(hostlog::days_before_month(year, 5) == 92 + hostlog::month_length(year, 2));
        assert(hostlog::days_before_month(year, 6) == 123 + hostlog::month_length(year, 2));
        assert(hostlog::days_before_month(year, 7) == 153 + hostlog::month_length(year, 2));
        assert(hostlog::days_before_month(year, 8) == 184 + hostlog::month_length(year, 2));
        assert(hostlog::days_before_month(year, 9) == 215 + hostlog::month_length(year, 2));
        assert(hostlog::days_before_month(year, 10) == 245 + hostlog::month_length(year, 2));
        assert(hostlog::days_before_month(year, 11) == 276 + hostlog::month_length(year, 2));
        assert(hostlog::days_before_month(year, 12) == 306 + hostlog::month_length(year, 2));
        let y = year - 1;
        assert((y + 1) / 4 == y / 4 + if year % 4 == 0 {
            1int
        } else {
            0
        });
        assert((y + 1) / 100 == y / 100 + if year % 100 == 0 {
            1int
        } else {
            0
        });
        assert((y + 1) / 400 == y / 400 + if year % 400 == 0 {
            1int
        } else {
            0
        });
    }
}

/// A month has 30 days or 31, but the second, which has 28, or 29 in a year that is
/// divided by four and, at the end of a century, by four hundred.
pub proof fn law_months_have_their_lengths(year: int)
    ensures
        hostlog::month_length(year, 1) == 31 && hostlog::month_length(year, 3) == 31 && hostlog::month_length(year, 5) == 31,
        hostlog::month_length(year, 7) == 31 && hostlog::month_length(year, 8) == 31 && hostlog::month_length(year, 10) == 31,
        hostlog::month_length(year, 12) == 31,
        hostlog::month_length(year, 4) == 30 && hostlog::month_length(year, 6) == 30 && hostlog::month_length(year, 9) == 30,
        hostlog::month_length(year, 11) == 30,
        hostlog::month_length(year, 2) == 29 <==> year % 400 == 0 || (year % 4 == 0 && year % 100 != 0),
        hostlog::month_length(year, 2) == 28 || hostlog::month_length(year, 2) == 29,
        forall|month: int| !(#[trigger] hostlog::is_date(year, month, 0)) && !hostlog::is_date(year, 0, month),
        !hostlog::is_date(year, 13, 1),
{
}

proof fn lemma_two_digits(n: nat)
    requires
        n < 100,
    ensures
        text::zero_padded(n, 2).len() == 2,
{
    text_laws::law_a_number_is_filled_with_zeros(n, 2);
    if n >= 10 {
        assert(n / 10 < 10);
        assert(text::decimal(n / 10).len() == 1);
    }
}

/// A moment is written as its date and its time, each part in as many digits as it
/// needs at most, with signs between them that set no two parts next to each other.
pub proof fn law_a_stamp_is_read_by_position(year: nat, month: nat, day: nat, time: nat)
    requires
        1000 <= year < 10000,
        month < 100 && day < 100,
        time < 86400,
    ensures
        ({
            let s = hostlog::stamp(year, month, day, time);
            &&& s.len() == 20
            &&& text::digits_value(s.subrange(0, 4)) == year
            &&& text::digits_value(s.subrange(5, 7)) == month
            &&& text::digits_value(s.subrange(8, 10)) == day
            &&& text::digits_value(s.subrange(11, 13)) * 3600 + text::digits_value(s.subrange(14, 16)) * 60
                + text::digits_value(s.subrange(17, 19)) == time
            &&& text::digits_value(s.subrange(14, 16)) < 60 && text::digits_value(s.subrange(17, 19)) < 60
            &&& s[4] == '-' && s[7] == '-' && s[10] == 'T'
            &&& s[13] == ':' && s[16] == ':' && s[19] == 'Z'
        }),
{
    reveal_strlit("-");
    reveal_strlit("T");
    reveal_strlit(":");
    reveal_strlit("Z");
    let h = time / 3600;
    let m = (time % 3600) / 60;
    let x = time % 60;
    text_laws::law_a_number_is_filled_with_zeros(year, 4);
    assert(text::decimal(year).len() == 4) by {
        assert(text::decimal(year / 10 / 10 / 10).len() == 1);
        assert(text::decimal(year / 10 / 10).len() == 2);
        assert(text::decimal(year / 10).len() == 3);
    }
    lemma_two_digits(month);
    lemma_two_digits(day);
    lemma_two_digits(h);
    lemma_two_digits(m);
    lemma_two_digits(x);
    text_laws::law_a_number_is_filled_with_zeros(month, 2);
    text_laws::law_a_number_is_filled_with_zeros(day, 2);
    text_laws::law_a_number_is_filled_with_zeros(h, 2);
    text_laws::law_a_number_is_filled_with_zeros(m, 2);
    text_laws::law_a_number_is_filled_with_zeros(x, 2);
    let s = hostlog::stamp(year, month, day, time);
    assert(s.subrange(0, 4) =~= text::zero_padded(year, 4));
    assert(s.subrange(5, 7) =~= text::zero_padded(month, 2));
    assert(s.subrange(8, 10) =~= text::zero_padded(day, 2));
    assert(s.subrange(11, 13) =~= text::zero_padded(h, 2));
    assert(s.subrange(14, 16) =~= text::zero_padded(m, 2));
    assert(s.subrange(17, 19) =~= text::zero_padded(x, 2));
}

// ---------------------------------------------------------------------------
// Lines
// ---------------------------------------------------------------------------

proof fn lemma_escaped_add(a: Seq<char>, b: Seq<char>)
    ensures
        hostlog::escaped(a + b) == hostlog::escaped(a) + hostlog::escaped(b),
    decreases b.len(),
{
    if b.len() == 0 {
        assert(a + b =~= a);
        assert(hostlog::escaped(a) + hostlog::escaped(b) =~= hostlog::escaped(a));
    } else {
        assert((a + b).drop_last() =~= a + b.drop_last());
        lemma_escaped_add(a, b.drop_last());
        assert(hostlog::escaped(a + b) =~= hostlog::escaped(a) + hostlog::escaped(b));
    }
}

/// In quotes, a value is written character by character: a quote, a backslash, a
/// line feed, a carriage return and a tab as a backslash and one more character,
/// any other as it is.
pub proof fn law_a_value_is_written_character_by_character(a: Seq<char>, b: Seq<char>, c: char)
    ensures
        hostlog::escaped(a + b) == hostlog::escaped(a) + hostlog::escaped(b),
        hostlog::escaped(Seq::<char>::empty()) == Seq::<char>::empty(),
        hostlog::escaped(seq!['"']) == seq!['\\', '"'],
        hostlog::escaped(seq!['\\']) == seq!['\\', '\\'],
        hostlog::escaped(seq!['\n']) == seq!['\\', 'n'],
        hostlog::escaped(seq!['\r']) == seq!['\\', 'r'],
        hostlog::escaped(seq!['\t']) == seq!['\\', 't'],
        c != '"' && c != '\\' && c != '\n' && c != '\r' && c != '\t' ==> hostlog::escaped(seq![c])
            == seq![c],
{
    lemma_escaped_add(a, b);
    let none = Seq::<char>::empty();
    assert(hostlog::escaped(none) =~= none);
    lemma_escaped_one('"');
    lemma_escaped_one('\\');
    lemma_escaped_one('\n');
    lemma_escaped_one('\r');
    lemma_escaped_one('\t');
    lemma_escaped_one(c);
}

proof fn lemma_escaped_one(c: char)
    ensures
        hostlog::escaped(seq![c]) == hostlog::escaped_char(c),
{
    assert(seq![c].drop_last() =~= Seq::empty());
    assert(hostlog::escaped(Seq::<char>::empty()) =~= Seq::empty());
    assert(Seq::<char>::empty() + hostlog::escaped_char(c) =~= hostlog::escaped_char(c));
}

/// A value that holds anything, but neither white space nor a quote nor a
/// backslash, is written as it is; any other stands in quotes.
pub proof fn law_a_plain_value_needs_no_quotes(s: Seq<char>)
    ensures
        s.len() > 0 && (forall|k: int|
            0 <= k < s.len() ==> !text::is_white(#[trigger] s[k]) && s[k] != '"' && s[k] != '\\')
            ==> hostlog::quoted(s) == s,
        s.len() == 0 || (exists|k: int|
            0 <= k < s.len() && (text::is_white(#[trigger] s[k]) || s[k] == '"' || s[k] == '\\'))
            ==> hostlog::quoted(s) == seq!['"']
            + hostlog::escaped(s)
            + seq!['"'],
{
}

/// A line holds the level, the event and the fields in their order, each field
/// behind a space as its key, a sign and its value, redacted and in quotes where it
/// needs them.
pub proof fn law_fields_stand_in_their_order(
    level: Level,
    event: Seq<char>,
    fields: Seq<(Seq<char>, Seq<char>)>,
    key: Seq<char>,
    value: Seq<char>,
)
    ensures
        hostlog::rendered_event(level, event, Seq::empty()) == seq![' '] + hostlog::padded_label(level) + seq![' ']
            + event,
        hostlog::rendered_event(level, event, fields.push((key, value))) == hostlog::rendered_event(
            level,
            event,
            fields,
        ) + seq![' '] + key + seq!['='] + hostlog::quoted(redact::redacted_text(value)),
{
    reveal_strlit(" ");
    reveal_strlit("=");
    assert(" "@ =~= seq![' ']);
    assert("="@ =~= seq!['=']);
    let none = Seq::<(Seq<char>, Seq<char>)>::empty();
    assert(hostlog::rendered_fields(none) =~= Seq::empty());
    assert(hostlog::rendered_event(level, event, none) =~= seq![' '] + hostlog::padded_label(level) + seq![' ']
        + event);
    let more = fields.push((key, value));
    assert(more.drop_last() =~= fields);
    assert(hostlog::rendered_event(level, event, more) =~= hostlog::rendered_event(level, event, fields) + seq![' ']
        + key + seq!['='] + hostlog::quoted(redact::redacted_text(value)));
}

/// A file that holds nothing takes any line. One that holds something takes a line
/// exactly as long as the two are within the limit together.
pub proof fn law_a_line_is_taken_within_the_limit(held: int, bytes: int, limit: int)
    requires
        0 <= held,
    ensures
        held == 0 ==> !hostlog::is_overfull(held, bytes, limit),
        held > 0 ==> (hostlog::is_overfull(held, bytes, limit) <==> bytes > limit - held),
{
}

/// The stamp of a moment is that of its date and its time of day: so many days and
/// seconds after the first day that is counted.
pub proof fn law_a_moment_is_its_date_and_time(year: nat, month: nat, day: nat, time: nat)
    requires
        hostlog::is_date(year as int, month as int, day as int),
        hostlog::day_number(year as int, month as int, day as int) >= 0,
        time < 86400,
    ensures
        hostlog::is_timestamp(
            hostlog::stamp(year, month, day, time),
            (hostlog::day_number(year as int, month as int, day as int) * 86400 + time) as nat,
        ),
{
    let n = hostlog::day_number(year as int, month as int, day as int);
    let seconds = (n * 86400 + time) as nat;
    assert(seconds / 86400 == n && seconds % 86400 == time);
    assert(hostlog::is_date(year as int, month as int, day as int));
}

/// The line of an event is the stamp of its moment and then the event; one moment
/// and one event have one line.
pub proof fn law_a_line_is_its_moment_and_its_event(
    line: Seq<char>,
    other: Seq<char>,
    seconds: nat,
    level: Level,
    event: Seq<char>,
    fields: Seq<(Seq<char>, Seq<char>)>,
)
    requires
        hostlog::is_line(line, seconds, level, event, fields),
        hostlog::is_line(other, seconds, level, event, fields),
    ensures
        ({
            let said = hostlog::rendered_event(level, event, fields);
            &&& line.len() >= said.len()
            &&& line.skip(line.len() - said.len()) == said
            &&& hostlog::is_timestamp(line.take(line.len() - said.len()), seconds)
        }),
        line == other,
{
    let said = hostlog::rendered_event(level, event, fields);
    let time = choose|time: Seq<char>| #[trigger]
        hostlog::is_timestamp(time, seconds) && line == time + said;
    let time2 = choose|time: Seq<char>| #[trigger]
        hostlog::is_timestamp(time, seconds) && other == time + said;
    assert(line.skip(line.len() - said.len()) =~= said);
    assert(line.take(line.len() - said.len()) =~= time);
    hostlog::law_a_moment_has_one_stamp(time, time2, seconds);
}

/// What a file holds is what was counted while it is open, and what was found there
/// before; a log that has been set aside starts again from nothing.
pub proof fn law_an_open_file_is_counted(log: HostLog, size: u64, bytes: u64)
    ensures
        log.open ==> log.held(size) == log.written,
        !log.open ==> log.held(size) == size,
        log.rotation_due(size, bytes) <==> log.held(size) > 0 && bytes > log.max_bytes - log.held(
            size,
        ),
{
}

/// A log that was begun has the place, the level and the limit that it was given,
/// and holds nothing that was counted.
pub proof fn law_a_log_begins_closed(path: String, level: Level, max_bytes: u64, size: u64)
    ensures
        ({
            let log = hostlog::fresh_log(path, level, max_bytes);
            &&& log.path == path && log.level == level && log.max_bytes == max_bytes
            &&& !log.open && log.written == 0
            &&& log.held(size) == size
        }),
{
}

} // verus!
