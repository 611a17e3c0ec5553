//! Schedules, due intents and retries.
use super::cron;
use super::duration;
use super::duration::fills_last_second;
use super::state::AttemptState;
use super::state::RunState;
use crate::outside;
use crate::text;
use crate::text::Separator;
use vstd::prelude::*;
use vstd::utf8::encode_utf8;

verus! {

/// The shortest interval, in seconds.
pub const MIN_INTERVAL_SECONDS: u64 = 60;

/// The longest interval, in seconds: 365 days.
pub const MAX_INTERVAL_SECONDS: u64 = 31_536_000;

/// When a mirror is due.
#[derive(Debug, PartialEq, Eq)]
pub enum ScheduleConfig {
    Interval { interval: String },
    Cron { cron: String, timezone: String },
}

impl Clone for ScheduleConfig {
    fn clone(&self) -> (r: Self)
        ensures
            r == *self,
    {
        match self {
            ScheduleConfig::Interval { interval } => ScheduleConfig::Interval { interval: interval.clone() },
            ScheduleConfig::Cron { cron, timezone } => ScheduleConfig::Cron {
                cron: cron.clone(),
                timezone: timezone.clone(),
            },
        }
    }
}

/// The fingerprint of some bytes: their SHA-256 digest in hexadecimal behind the algorithm's name.
pub open spec fn fingerprint(bytes: Seq<u8>) -> Seq<char> {
    "sha256:"@ + outside::hex_text(outside::sha256_digest(bytes))
}

/// The fingerprint of some bytes; it is 71 characters long.
pub fn fingerprint_of(bytes: &[u8]) -> (r: String)
    ensures
        r@ == fingerprint(bytes@),
        r@.len() == 71,
{
    let digest: Vec<u8> = outside::sha256(bytes);
    proof {
        reveal_strlit("sha256:");
    }
    text::join2("sha256:", outside::hex_encode(digest.as_slice()).as_str())
}

/// What an interval of so many seconds and nanoseconds is taken for.
pub open spec fn bounded_interval(duration: Result<(u64, u32), Seq<char>>) -> Result<u64, Seq<char>> {
    match duration {
        Err(message) => Err(message),
        Ok((seconds, nanos)) => if nanos != 0 {
            Err("interval must use whole seconds"@)
        } else if seconds < MIN_INTERVAL_SECONDS || seconds > MAX_INTERVAL_SECONDS {
            Err("interval must be between 1m and 365d"@)
        } else {
            Ok(seconds)
        },
    }
}

/// What an interval text is taken for: one that fills the last second of any duration is too long.
pub open spec fn interval_outcome(interval: Seq<char>) -> Result<u64, Seq<char>> {
    if fills_last_second(interval) {
        Err("interval must be between 1m and 365d"@)
    } else {
        bounded_interval(outside::human_duration(interval))
    }
}

/// The view of an outcome whose error is a message.
pub open spec fn outcome_view<T>(r: Result<T, String>) -> Result<T, Seq<char>> {
    match r {
        Ok(value) => Ok(value),
        Err(message) => Err(message@),
    }
}

/// Holds a duration to whole seconds between one minute and 365 days.
pub fn bound_interval(duration: Result<(u64, u32), String>) -> (r: Result<u64, String>)
    ensures
        outcome_view(r) == bounded_interval(outcome_view(duration)),
{
    match duration {
        Err(message) => Err(message),
        Ok((seconds, nanos)) => {
            if nanos != 0 {
                return Err("interval must use whole seconds".to_owned());
            }
            if seconds < MIN_INTERVAL_SECONDS || seconds > MAX_INTERVAL_SECONDS {
                return Err("interval must be between 1m and 365d".to_owned());
            }
            Ok(seconds)
        },
    }
}

/// What a duration text is taken for: one that fills the last second of any duration is too long.
pub open spec fn duration_outcome(value: Seq<char>) -> Result<(u64, u32), Seq<char>> {
    if fills_last_second(value) {
        Err("duration is too long"@)
    } else {
        outside::human_duration(value)
    }
}

/// Reads a duration, in seconds and nanoseconds.
pub fn read_duration(value: &str) -> (r: Result<(u64, u32), String>)
    ensures
        outcome_view(r) == duration_outcome(value@),
{
    if duration::fills_up(value) {
        return Err("duration is too long".to_owned());
    }
    outside::parse_duration(value)
}

/// An interval in seconds as it is written in its one form.
pub open spec fn written_interval(seconds: u64) -> Seq<char> {
    text::decimal(seconds as nat) + "s"@
}

/// Reads an interval. Its seconds in their one form are read back as they are.
pub fn parse_interval(value: &str) -> (r: Result<u64, String>)
    ensures
        outcome_view(r) == interval_outcome(value@),
        r is Ok ==> MIN_INTERVAL_SECONDS <= r->Ok_0 <= MAX_INTERVAL_SECONDS,
        r is Ok ==> interval_outcome(written_interval(r->Ok_0)) == Ok::<u64, Seq<char>>(r->Ok_0),
{
    if duration::fills_up(value) {
        return Err("interval must be between 1m and 365d".to_owned());
    }
    let bounded: Result<u64, String> = bound_interval(outside::parse_duration(value));
    proof {
        if bounded is Ok {
            duration::lemma_seconds_fit(bounded->Ok_0 as nat);
        }
    }
    bounded
}

/// The twelve month names and the seven weekday names of a cron expression.
pub open spec fn calendar_names() -> Seq<Seq<char>> {
    seq![
        "JAN"@,
        "FEB"@,
        "MAR"@,
        "APR"@,
        "MAY"@,
        "JUN"@,
        "JUL"@,
        "AUG"@,
        "SEP"@,
        "OCT"@,
        "NOV"@,
        "DEC"@,
        "SUN"@,
        "MON"@,
        "TUE"@,
        "WED"@,
        "THU"@,
        "FRI"@,
        "SAT"@,
    ]
}

fn calendar_name(word: &str) -> (r: bool)
    ensures
        r == calendar_names().contains(word@),
{
    let names: [&str; 19] = [
        "JAN", "FEB", "MAR", "APR", "MAY", "JUN", "JUL", "AUG", "SEP", "OCT", "NOV", "DEC", "SUN", "MON", "TUE", "WED",
        "THU", "FRI", "SAT",
    ];
    let ghost all = calendar_names();
    assert(forall|k: int| 0 <= k < 19 ==> (#[trigger] names@[k])@ == all[k]);
    let mut i: usize = 0;
    while i < 19
        invariant
            i <= 19,
            all == calendar_names(),
            all.len() == 19,
            forall|k: int| 0 <= k < 19 ==> (#[trigger] names@[k])@ == all[k],
            forall|k: int| 0 <= k < i ==> all[k] != word@,
        decreases 19 - i,
    {
        if text::same(names[i], word) {
            assert(all[i as int] == word@);
            return true;
        }
        i = i + 1;
    }
    false
}

/// The upper-case form of an ASCII text.
pub open spec fn upper(s: Seq<char>) -> Seq<char> {
    s.map_values(|c: char| outside::ascii_upper(c))
}

fn upper_letter(c: char) -> (r: char)
    ensures
        r == outside::ascii_upper(c),
{
    match c {
        'a' => 'A',
        'b' => 'B',
        'c' => 'C',
        'd' => 'D',
        'e' => 'E',
        'f' => 'F',
        'g' => 'G',
        'h' => 'H',
        'i' => 'I',
        'j' => 'J',
        'k' => 'K',
        'l' => 'L',
        'm' => 'M',
        'n' => 'N',
        'o' => 'O',
        'p' => 'P',
        'q' => 'Q',
        'r' => 'R',
        's' => 'S',
        't' => 'T',
        'u' => 'U',
        'v' => 'V',
        'w' => 'W',
        'x' => 'X',
        'y' => 'Y',
        'z' => 'Z',
        other => other,
    }
}

fn upper_of(value: &str) -> (r: String)
    ensures
        r@ == upper(value@),
{
    let chars: Vec<char> = text::chars_of(value);
    let mut out: String = String::new();
    let mut i: usize = 0;
    assert(upper(chars@.take(0)) == Seq::<char>::empty());
    while i < chars.len()
        invariant
            i <= chars.len(),
            chars@ == value@,
            out@ == upper(value@.take(i as int)),
        decreases chars.len() - i,
    {
        out.push(upper_letter(chars[i]));
        assert(upper(value@.take(i + 1)) == upper(value@.take(i as int)).push(
            outside::ascii_upper(value@[i as int]),
        ));
        i = i + 1;
    }
    assert(value@.take(value@.len() as int) == value@);
    out
}

/// The message for the first of some words that, in upper case, is no month or weekday name.
pub open spec fn word_fault(list: Seq<Seq<char>>) -> Option<Seq<char>>
    decreases list.len(),
{
    if list.len() == 0 {
        None
    } else if !calendar_names().contains(upper(list[0])) {
        Some("unsupported cron token "@ + outside::debug_quoted(upper(list[0])))
    } else {
        word_fault(list.drop_first())
    }
}

/// Why a cron expression is outside the supported form: five fields, none of the extended signs,
/// and no words but month and weekday names.
pub open spec fn cron_form_fault(expression: Seq<char>) -> Option<Seq<char>> {
    if text::words(expression, Separator::Space).len() != 5 {
        Some("cron must contain exactly five fields"@)
    } else if expression.contains('@') || expression.contains('?') || expression.contains('#')
        || expression.contains('+') {
        Some("extended cron syntax is not supported"@)
    } else {
        word_fault(text::words(expression, Separator::NonLetter))
    }
}

/// The view of an acceptance or of the message of a refusal.
pub open spec fn fault_view(r: Result<(), String>) -> Option<Seq<char>> {
    match r {
        Ok(()) => None,
        Err(message) => Some(message@),
    }
}

/// Holds a cron expression to the supported form.
pub fn check_cron_form(expression: &str) -> (r: Result<(), String>)
    ensures
        fault_view(r) == cron_form_fault(expression@),
{
    let fields: Vec<String> = text::words_of(expression, Separator::Space);
    assert(text::views(fields@).len() == fields@.len());
    if fields.len() != 5 {
        return Err("cron must contain exactly five fields".to_owned());
    }
    if text::contains_char(expression, '@') || text::contains_char(expression, '?') || text::contains_char(
        expression,
        '#',
    ) || text::contains_char(expression, '+') {
        return Err("extended cron syntax is not supported".to_owned());
    }
    let found: Vec<String> = text::words_of(expression, Separator::NonLetter);
    let ghost all = text::views(found@);
    let mut i: usize = 0;
    assert(all.skip(0) == all);
    while i < found.len()
        invariant
            i <= found.len(),
            all == text::views(found@),
            word_fault(all.skip(i as int)) == word_fault(all),
            cron_form_fault(expression@) == word_fault(all),
        decreases found.len() - i,
    {
        let word: String = upper_of(found[i].as_str());
        proof {
            assert(all.skip(i as int)[0] == found@[i as int]@);
            assert(all.skip(i as int).drop_first() == all.skip(i + 1));
        }
        if !calendar_name(word.as_str()) {
            return Err(text::join2("unsupported cron token ", outside::quoted(word.as_str()).as_str()));
        }
        i = i + 1;
    }
    assert(all.skip(all.len() as int).len() == 0);
    Ok(())
}

/// Why a cron expression is refused: its form, else what the cron parser finds.
pub open spec fn cron_validity(expression: Seq<char>) -> Option<Seq<char>> {
    if cron_form_fault(expression) is Some {
        cron_form_fault(expression)
    } else {
        outside::cron_fault(expression)
    }
}

/// Holds a cron expression to the supported form and to the cron parser. Where one is accepted, its
/// fields are ASCII, and in upper case with single blanks between them they are accepted too.
pub fn validate_cron(expression: &str) -> (r: Result<(), String>)
    ensures
        fault_view(r) == cron_validity(expression@),
        r is Ok ==> cron_validity(cron::tidied(expression@)) is None && cron::ascii_fields(expression@),
{
    match check_cron_form(expression) {
        Err(message) => Err(message),
        Ok(()) => {
            proof {
                cron::lemma_tidied(expression@);
            }
            outside::check_cron(expression)
        },
    }
}

/// The message for a zone that the database does not have.
pub open spec fn zone_message(zone: Seq<char>) -> Seq<char> {
    "unknown IANA timezone "@ + outside::debug_quoted(zone)
}

fn check_zone(zone: &str) -> (r: Result<(), String>)
    ensures
        match r {
            Ok(()) => outside::iana_timezone(zone@),
            Err(message) => !outside::iana_timezone(zone@) && message@ == zone_message(zone@),
        },
{
    if outside::timezone_known(zone) {
        Ok(())
    } else {
        Err(text::join2("unknown IANA timezone ", outside::quoted(zone).as_str()))
    }
}

/// The texts in a row with a separator between each two.
pub open spec fn joined(parts: Seq<Seq<char>>, separator: Seq<char>) -> Seq<char>
    decreases parts.len(),
{
    if parts.len() == 0 {
        Seq::empty()
    } else if parts.len() == 1 {
        parts[0]
    } else {
        joined(parts.drop_last(), separator) + separator + parts.last()
    }
}

/// The fields of a cron expression in upper case.
pub open spec fn upper_fields(expression: Seq<char>) -> Seq<Seq<char>> {
    text::words(expression, Separator::Space).map_values(|field: Seq<char>| outside::unicode_uppercase(field))
}

/// True where each field of an expression has the upper-case form that its ASCII letters give it, and
/// keeps it.
spec fn plainly_upper(fields: Seq<Seq<char>>) -> bool {
    forall|k: int|
        0 <= k < fields.len() ==> outside::unicode_uppercase(#[trigger] fields[k]) == upper(fields[k])
            && outside::unicode_uppercase(upper(fields[k])) == upper(fields[k])
}

/// The fields of a cron expression in upper case, with one blank between each two.
fn canonical_cron(expression: &str) -> (r: String)
    requires
        cron::ascii_fields(expression@),
    ensures
        r@ == joined(upper_fields(expression@), " "@),
        plainly_upper(text::words(expression@, Separator::Space)),
{
    let fields: Vec<String> = text::words_of(expression, Separator::Space);
    let ghost all = upper_fields(expression@);
    let mut out: String = String::new();
    let mut i: usize = 0;
    assert(all.len() == fields@.len()) by {
        assert(text::views(fields@).len() == fields@.len());
    }
    while i < fields.len()
        invariant
            i <= fields.len(),
            all == upper_fields(expression@),
            all.len() == fields@.len(),
            text::views(fields@) == text::words(expression@, Separator::Space),
            out@ == joined(all.take(i as int), " "@),
            cron::ascii_fields(expression@),
            plainly_upper(text::words(expression@, Separator::Space).take(i as int)),
        decreases fields.len() - i,
    {
        let field: String = outside::uppercase(fields[i].as_str());
        proof {
            assert(text::views(fields@)[i as int] == fields@[i as int]@);
            let found = text::words(expression@, Separator::Space);
            assert forall|c: int| 0 <= c < fields@[i as int]@.len() implies (
            #[trigger] fields@[i as int]@[c] as u32) < 128 by {
                assert((found[i as int][c] as u32) < 128);
            }
            assert(field@ == upper(found[i as int]));
            assert forall|k: int| 0 <= k < found.take(i + 1).len() implies outside::unicode_uppercase(
                #[trigger] found.take(i + 1)[k],
            ) == upper(found.take(i + 1)[k]) && outside::unicode_uppercase(upper(found.take(i + 1)[k])) == upper(
                found.take(i + 1)[k],
            ) by {
                if k < i {
                    assert(found.take(i + 1)[k] == found.take(i as int)[k]);
                }
            }
            assert(all[i as int] == field@);
            assert(all.take(i + 1).drop_last() == all.take(i as int));
            assert(all.take(i + 1).last() == field@);
        }
        if i > 0 {
            out.append(" ");
        }
        out.append(field.as_str());
        assert(i == 0 ==> out@ == field@);
        i = i + 1;
    }
    assert(all.take(all.len() as int) == all);
    assert(text::words(expression@, Separator::Space).take(all.len() as int) == text::words(
        expression@,
        Separator::Space,
    ));
    out
}

/// The upper-case fields of an expression in plain letters, and of its tidied form, are its fields
/// tidied.
proof fn lemma_plainly_upper(expression: Seq<char>)
    requires
        cron_form_fault(expression) is None,
        plainly_upper(text::words(expression, Separator::Space)),
    ensures
        joined(upper_fields(expression), " "@) == cron::tidied(expression),
        joined(upper_fields(cron::tidied(expression)), " "@) == cron::tidied(expression),
{
    let fields = text::words(expression, Separator::Space);
    let upper_case = cron::all_upper(fields);
    cron::lemma_tidied(expression);
    assert forall|k: int| 0 <= k < fields.len() implies #[trigger] upper_fields(expression)[k] == upper_case[k] by {
        assert(outside::unicode_uppercase(fields[k]) == upper(fields[k]));
    }
    assert(upper_fields(expression) == upper_case);
    assert forall|k: int| 0 <= k < fields.len() implies #[trigger] upper_fields(cron::tidied(expression))[k]
        == upper_case[k] by {
        assert(outside::unicode_uppercase(fields[k]) == upper(fields[k]));
    }
    assert(upper_fields(cron::tidied(expression)) == upper_case);
}

fn is_representable(moment_ms: i64) -> (r: bool)
    ensures
        r == outside::representable(moment_ms as int),
{
    -8_334_601_228_800_000 <= moment_ms && moment_ms <= 8_210_266_876_799_999
}

impl ScheduleConfig {
    /// Why the schedule is refused, or nothing.
    pub open spec fn fault(self) -> Option<Seq<char>> {
        match self {
            ScheduleConfig::Interval { interval } => match interval_outcome(interval@) {
                Ok(_) => None,
                Err(message) => Some(message),
            },
            ScheduleConfig::Cron { cron, timezone } => if cron_validity(cron@) is Some {
                cron_validity(cron@)
            } else if !outside::iana_timezone(timezone@) {
                Some(zone_message(timezone@))
            } else {
                None
            },
        }
    }

    /// Accepts a bounded interval, or a supported cron expression in a known zone.
    pub fn validate(&self) -> (r: Result<(), String>)
        ensures
            fault_view(r) == self.fault(),
    {
        match self {
            ScheduleConfig::Interval { interval } => match parse_interval(interval.as_str()) {
                Ok(_) => Ok(()),
                Err(message) => Err(message),
            },
            ScheduleConfig::Cron { cron, timezone } => match validate_cron(cron.as_str()) {
                Err(message) => Err(message),
                Ok(()) => check_zone(timezone.as_str()),
            },
        }
    }

    /// True when `canonical` writes this schedule in its one form: an interval in seconds, a cron
    /// expression in upper case with single blanks.
    pub open spec fn canonical_form(self, canonical: ScheduleConfig) -> bool {
        match self {
            ScheduleConfig::Interval { interval } => canonical matches ScheduleConfig::Interval { interval: written }
                && written@ == written_interval(interval_outcome(interval@)->Ok_0),
            ScheduleConfig::Cron { cron, timezone } => canonical matches ScheduleConfig::Cron {
                cron: written,
                timezone: zone,
            } && written@ == joined(upper_fields(cron@), " "@) && zone == timezone,
        }
    }

    /// True of a schedule that is accepted and stands in its one form.
    pub open spec fn is_canonical(self) -> bool {
        self.fault() is None && self.canonical_form(self)
    }

    /// The schedule in its one form, or why it is refused. The form is its own form, and an interval
    /// in it is as long.
    pub fn canonicalized(self) -> (r: Result<ScheduleConfig, String>)
        ensures
            match r {
                Ok(canonical) => self.fault() is None && self.canonical_form(canonical) && canonical.is_canonical() && (
                self matches ScheduleConfig::Interval { interval } ==> interval_outcome(canonical->interval@)
                    == interval_outcome(interval@)),
                Err(message) => self.fault() == Some(message@),
            },
    {
        match self {
            ScheduleConfig::Interval { interval } => match parse_interval(interval.as_str()) {
                Ok(seconds) => Ok(
                    ScheduleConfig::Interval { interval: text::join2(text::decimal_text(seconds).as_str(), "s") },
                ),
                Err(message) => Err(message),
            },
            ScheduleConfig::Cron { cron, timezone } => {
                if let Err(message) = validate_cron(cron.as_str()) {
                    return Err(message);
                }
                if let Err(message) = check_zone(timezone.as_str()) {
                    return Err(message);
                }
                let written: String = canonical_cron(cron.as_str());
                proof {
                    lemma_plainly_upper(cron@);
                }
                Ok(ScheduleConfig::Cron { cron: written, timezone })
            },
        }
    }

    /// The schedule as a TOML document.
    pub open spec fn document(self) -> Seq<char> {
        match self {
            ScheduleConfig::Interval { interval } => outside::toml_strings(seq![("interval"@, interval@)]),
            ScheduleConfig::Cron { cron, timezone } => outside::toml_strings(
                seq![("cron"@, cron@), ("timezone"@, timezone@)],
            ),
        }
    }

    /// The fingerprint of the schedule as a TOML document.
    pub fn semantic_hash(&self) -> (r: String)
        ensures
            r@ == fingerprint(encode_utf8(self.document())),
    {
        let document: String = match self {
            ScheduleConfig::Interval { interval } => outside::toml_one("interval", interval.as_str()),
            ScheduleConfig::Cron { cron, timezone } => {
                proof {
                    reveal_strlit("cron");
                    reveal_strlit("timezone");
                }
                outside::toml_two("cron", cron.as_str(), "timezone", timezone.as_str())
            },
        };
        fingerprint_of(document.as_str().as_bytes())
    }

    /// The seconds of a valid interval; nothing for any other schedule.
    pub fn interval_seconds(&self) -> (r: Option<u64>)
        ensures
            match self {
                ScheduleConfig::Interval { interval } => r == (match interval_outcome(interval@) {
                    Ok(seconds) => Some(seconds),
                    Err(_) => None,
                }),
                ScheduleConfig::Cron { .. } => r is None,
            },
    {
        match self {
            ScheduleConfig::Interval { interval } => match parse_interval(interval.as_str()) {
                Ok(seconds) => Some(seconds),
                Err(_) => None,
            },
            ScheduleConfig::Cron { .. } => None,
        }
    }

    /// The moment, in milliseconds, at which the schedule is next due.
    pub open spec fn next_after(self, after_ms: i64) -> Result<i64, Seq<char>> {
        match self {
            ScheduleConfig::Interval { interval } => match interval_outcome(interval@) {
                Err(message) => Err(message),
                Ok(seconds) => if after_ms + seconds * 1000 > i64::MAX {
                    Err("interval timestamp overflow"@)
                } else {
                    Ok((after_ms + seconds * 1000) as i64)
                },
            },
            ScheduleConfig::Cron { cron, timezone } => if !outside::iana_timezone(timezone@) {
                Err(zone_message(timezone@))
            } else if !outside::representable(after_ms as int) {
                Err("timestamp outside supported range"@)
            } else if outside::cron_fault(cron@) is Some {
                Err(outside::cron_fault(cron@)->0)
            } else if !outside::searchable(timezone@, after_ms) {
                Err("timestamp outside supported range"@)
            } else {
                outside::cron_occurrence(cron@, timezone@, after_ms)
            },
        }
    }

    /// The moment, in milliseconds, at which the schedule is next due after a given one.
    pub fn next_after_ms(&self, after_ms: i64) -> (r: Result<i64, String>)
        ensures
            outcome_view(r) == self.next_after(after_ms),
    {
        match self {
            ScheduleConfig::Interval { interval } => match parse_interval(interval.as_str()) {
                Err(message) => Err(message),
                Ok(seconds) => match after_ms.checked_add((seconds * 1000) as i64) {
                    Some(moment) => Ok(moment),
                    None => Err("interval timestamp overflow".to_owned()),
                },
            },
            ScheduleConfig::Cron { cron, timezone } => {
                if let Err(message) = check_zone(timezone.as_str()) {
                    return Err(message);
                }
                if !is_representable(after_ms) {
                    return Err("timestamp outside supported range".to_owned());
                }
                if let Err(message) = outside::check_cron(cron.as_str()) {
                    return Err(message);
                }
                let ahead: i64 = outside::local_offset(timezone.as_str(), after_ms) as i64 * 1000;
                if !is_representable(after_ms + ahead) {
                    return Err("timestamp outside supported range".to_owned());
                }
                outside::next_cron(cron.as_str(), timezone.as_str(), after_ms)
            },
        }
    }
}

/// What made a run.
#[derive(Clone, Copy, Debug, PartialEq, Eq, Structural)]
pub enum RunTrigger {
    Manual,
    Scheduled,
}

/// What a schedule has come to: when it is next due, when it was last looked at, and since when a
/// due mirror waits for a run.
#[derive(Clone, Copy, Debug, PartialEq, Eq, Structural)]
pub struct ScheduleRuntime {
    pub next_due_at_ms: Option<i64>,
    pub last_evaluated_at_ms: Option<i64>,
    pub catch_up_pending: bool,
    pub catch_up_since_ms: Option<i64>,
}

impl Default for ScheduleRuntime {
    fn default() -> (r: Self)
        ensures
            r.next_due_at_ms is None,
            r.last_evaluated_at_ms is None,
            !r.catch_up_pending,
            r.catch_up_since_ms is None,
    {
        ScheduleRuntime {
            next_due_at_ms: None,
            last_evaluated_at_ms: None,
            catch_up_pending: false,
            catch_up_since_ms: None,
        }
    }
}

/// What looking at a schedule found.
#[derive(Clone, Copy, Debug, PartialEq, Eq, Structural)]
pub struct DueEvaluation {
    pub runtime: ScheduleRuntime,
    pub became_due: bool,
    pub skipped_while_active: bool,
}

/// A schedule that has just been put in force: due next after now, with nothing waiting.
pub open spec fn activated(schedule: ScheduleConfig, now_ms: i64) -> Result<ScheduleRuntime, Seq<char>> {
    match schedule.next_after(now_ms) {
        Err(message) => Err(message),
        Ok(next) => Ok(
            ScheduleRuntime {
                next_due_at_ms: Some(next),
                last_evaluated_at_ms: Some(now_ms),
                catch_up_pending: false,
                catch_up_since_ms: None,
            },
        ),
    }
}

/// Puts a schedule in force.
pub fn activate_schedule(schedule: &ScheduleConfig, now_ms: i64) -> (r: Result<ScheduleRuntime, String>)
    ensures
        outcome_view(r) == activated(*schedule, now_ms),
{
    match schedule.next_after_ms(now_ms) {
        Err(message) => Err(message),
        Ok(next) => Ok(
            ScheduleRuntime {
                next_due_at_ms: Some(next),
                last_evaluated_at_ms: Some(now_ms),
                catch_up_pending: false,
                catch_up_since_ms: None,
            },
        ),
    }
}

/// True when a schedule is due.
pub open spec fn is_due(runtime: ScheduleRuntime, now_ms: i64) -> bool {
    runtime.next_due_at_ms is Some && runtime.next_due_at_ms->0 <= now_ms
}

/// The earlier of a waiting intent and a new one.
pub open spec fn coalesced(waiting: Option<i64>, due_at: i64) -> i64 {
    if waiting is Some && waiting->0 < due_at {
        waiting->0
    } else {
        due_at
    }
}

/// What a due schedule comes to: a mirror with a run in flight is skipped, any other waits since
/// the earliest moment it was due; an interval is then armed anew only when its run ends.
pub open spec fn evaluated(
    schedule: ScheduleConfig,
    runtime: ScheduleRuntime,
    now_ms: i64,
    has_active_run: bool,
) -> Result<DueEvaluation, Seq<char>> {
    if !is_due(runtime, now_ms) {
        Ok(DueEvaluation { runtime, became_due: false, skipped_while_active: false })
    } else if schedule is Cron && schedule.next_after(now_ms) is Err {
        Err(schedule.next_after(now_ms)->Err_0)
    } else {
        Ok(
            DueEvaluation {
                runtime: ScheduleRuntime {
                    next_due_at_ms: if schedule is Cron {
                        Some(schedule.next_after(now_ms)->Ok_0)
                    } else {
                        None
                    },
                    last_evaluated_at_ms: Some(now_ms),
                    catch_up_pending: !has_active_run,
                    catch_up_since_ms: if has_active_run {
                        None
                    } else {
                        Some(coalesced(runtime.catch_up_since_ms, runtime.next_due_at_ms->0))
                    },
                },
                became_due: !has_active_run,
                skipped_while_active: has_active_run,
            },
        )
    }
}

/// Looks at a schedule.
pub fn evaluate_schedule_due(
    schedule: &ScheduleConfig,
    runtime: ScheduleRuntime,
    now_ms: i64,
    has_active_run: bool,
) -> (r: Result<DueEvaluation, String>)
    ensures
        outcome_view(r) == evaluated(*schedule, runtime, now_ms, has_active_run),
{
    let due_at: i64 = match runtime.next_due_at_ms {
        None => {
            return Ok(DueEvaluation { runtime, became_due: false, skipped_while_active: false });
        },
        Some(moment) => moment,
    };
    if due_at > now_ms {
        return Ok(DueEvaluation { runtime, became_due: false, skipped_while_active: false });
    }
    let mut next: ScheduleRuntime = runtime;
    next.last_evaluated_at_ms = Some(now_ms);
    if has_active_run {
        next.catch_up_pending = false;
        next.catch_up_since_ms = None;
    } else {
        next.catch_up_pending = true;
        next.catch_up_since_ms = match runtime.catch_up_since_ms {
            Some(existing) => Some(
                if existing < due_at {
                    existing
                } else {
                    due_at
                },
            ),
            None => Some(due_at),
        };
    }
    next.next_due_at_ms = match schedule {
        ScheduleConfig::Interval { .. } => None,
        ScheduleConfig::Cron { .. } => match schedule.next_after_ms(now_ms) {
            Ok(moment) => Some(moment),
            Err(message) => {
                return Err(message);
            },
        },
    };
    Ok(DueEvaluation { runtime: next, became_due: !has_active_run, skipped_while_active: has_active_run })
}

/// When an interval is due again after its run has ended; a cron schedule is never armed this way.
pub open spec fn rearmed(schedule: ScheduleConfig, terminal_at_ms: i64) -> Result<Option<i64>, Seq<char>> {
    match schedule {
        ScheduleConfig::Interval { .. } => match schedule.next_after(terminal_at_ms) {
            Ok(moment) => Ok(Some(moment)),
            Err(message) => Err(message),
        },
        ScheduleConfig::Cron { .. } => Ok(None),
    }
}

/// Arms an interval anew after its run has ended.
pub fn rearm_interval(schedule: &ScheduleConfig, terminal_at_ms: i64) -> (r: Result<Option<i64>, String>)
    ensures
        outcome_view(r) == rearmed(*schedule, terminal_at_ms),
{
    match schedule {
        ScheduleConfig::Interval { .. } => match schedule.next_after_ms(terminal_at_ms) {
            Ok(moment) => Ok(Some(moment)),
            Err(message) => Err(message),
        },
        ScheduleConfig::Cron { .. } => Ok(None),
    }
}

/// What a retry is decided by.
#[derive(Clone, Copy, Debug, PartialEq, Eq, Structural)]
pub struct RetryContext {
    pub outcome: AttemptState,
    pub attempt_no: u32,
    pub max_attempts: u32,
    pub retry_delay_seconds: u64,
    pub cancel_requested: bool,
    pub mirror_eligible: bool,
    pub owner_unchanged: bool,
    pub server_now_ms: i64,
}

/// What follows the end of an attempt.
#[derive(Clone, Copy, Debug, PartialEq, Eq, Structural)]
pub enum RetryDecision {
    Schedule { retry_due_at_ms: i64 },
    Final(RunState),
}

/// True when an ended attempt is followed by another one of the same run.
pub open spec fn retries(context: RetryContext) -> bool {
    &&& context.outcome is Failed || context.outcome is TimedOut || context.outcome is Interrupted
    &&& context.attempt_no < context.max_attempts
    &&& !context.cancel_requested
    &&& context.mirror_eligible
    &&& context.owner_unchanged
}

/// The state in which an ended attempt leaves a run that is not retried.
pub open spec fn final_run_state(outcome: AttemptState) -> RunState {
    match outcome {
        AttemptState::Succeeded => RunState::Succeeded,
        AttemptState::TimedOut => RunState::TimedOut,
        AttemptState::Cancelled => RunState::Cancelled,
        _ => RunState::Failed,
    }
}

/// When a retry is due: after the delay, held to the last moment that can be written.
pub open spec fn retry_due(context: RetryContext) -> int {
    let due = context.server_now_ms + context.retry_delay_seconds * 1000;
    if context.retry_delay_seconds * 1000 > i64::MAX {
        if context.server_now_ms < 0 {
            context.server_now_ms + i64::MAX
        } else {
            i64::MAX as int
        }
    } else if due > i64::MAX {
        i64::MAX as int
    } else {
        due
    }
}

/// What follows the end of an attempt.
pub open spec fn retry_decision(context: RetryContext) -> RetryDecision {
    if retries(context) {
        RetryDecision::Schedule { retry_due_at_ms: retry_due(context) as i64 }
    } else {
        RetryDecision::Final(final_run_state(context.outcome))
    }
}

/// Decides what follows the end of an attempt.
pub fn decide_retry(context: RetryContext) -> (r: RetryDecision)
    ensures
        r == retry_decision(context),
        retries(context) ==> i64::MIN <= retry_due(context) <= i64::MAX,
{
    let retryable: bool = matches!(
        context.outcome,
        AttemptState::Failed | AttemptState::TimedOut | AttemptState::Interrupted
    );
    if retryable && context.attempt_no < context.max_attempts && !context.cancel_requested && context.mirror_eligible
        && context.owner_unchanged {
        let delay_ms: i64 = match context.retry_delay_seconds.checked_mul(1000) {
            Some(millis) => if millis > i64::MAX as u64 {
                i64::MAX
            } else {
                millis as i64
            },
            None => i64::MAX,
        };
        let due: i64 = match context.server_now_ms.checked_add(delay_ms) {
            Some(moment) => moment,
            None => i64::MAX,
        };
        return RetryDecision::Schedule { retry_due_at_ms: due };
    }
    RetryDecision::Final(
        match context.outcome {
            AttemptState::Succeeded => RunState::Succeeded,
            AttemptState::TimedOut => RunState::TimedOut,
            AttemptState::Cancelled => RunState::Cancelled,
            AttemptState::Queued
            | AttemptState::Accepted
            | AttemptState::Running
            | AttemptState::Failed
            | AttemptState::Interrupted
            | AttemptState::Rejected => RunState::Failed,
        },
    )
}

/// True of schedules that are written alike.
pub open spec fn written_alike(a: ScheduleConfig, b: ScheduleConfig) -> bool {
    match (a, b) {
        (ScheduleConfig::Interval { interval: one }, ScheduleConfig::Interval { interval: two }) => one@ == two@,
        (
            ScheduleConfig::Cron { cron: one, timezone: here },
            ScheduleConfig::Cron { cron: two, timezone: there },
        ) => one@ == two@ && here@ == there@,
        _ => false,
    }
}

/// A schedule has one form: intervals that are equally long are written alike in it, and a schedule
/// that stands in it is written as it was.
pub proof fn law_schedules_have_one_form(
    a: ScheduleConfig,
    b: ScheduleConfig,
    first: ScheduleConfig,
    second: ScheduleConfig,
)
    requires
        a.canonical_form(first),
        b.canonical_form(second),
    ensures
        a is Interval && b is Interval && interval_outcome(a->interval@) is Ok && interval_outcome(a->interval@)
            == interval_outcome(b->interval@) ==> written_alike(first, second),
        a.is_canonical() ==> written_alike(first, a),
{
}

/// A due intent coalesces: however often a waiting schedule is looked at, it waits since the
/// earliest moment at which it was due.
pub proof fn law_due_intent_coalesces(
    schedule: ScheduleConfig,
    runtime: ScheduleRuntime,
    first_ms: i64,
    second_ms: i64,
)
    requires
        is_due(runtime, first_ms),
        evaluated(schedule, runtime, first_ms, false) is Ok,
        evaluated(
            schedule,
            evaluated(schedule, runtime, first_ms, false)->Ok_0.runtime,
            second_ms,
            false,
        ) is Ok,
    ensures
        ({
            let first = evaluated(schedule, runtime, first_ms, false)->Ok_0.runtime;
            let second = evaluated(schedule, first, second_ms, false)->Ok_0.runtime;
            &&& first.catch_up_pending && second.catch_up_pending
            &&& second.catch_up_since_ms->0 <= first.catch_up_since_ms->0 <= runtime.next_due_at_ms->0
            &&& first.next_due_at_ms is Some && first.next_due_at_ms->0 >= first.catch_up_since_ms->0
                ==> second.catch_up_since_ms == first.catch_up_since_ms
        }),
{
}

/// A schedule that is looked at with a run in flight leaves no intent behind.
pub proof fn law_active_run_leaves_no_intent(schedule: ScheduleConfig, runtime: ScheduleRuntime, now_ms: i64)
    requires
        is_due(runtime, now_ms),
        evaluated(schedule, runtime, now_ms, true) is Ok,
    ensures
        !evaluated(schedule, runtime, now_ms, true)->Ok_0.runtime.catch_up_pending,
        evaluated(schedule, runtime, now_ms, true)->Ok_0.runtime.catch_up_since_ms is None,
        evaluated(schedule, runtime, now_ms, true)->Ok_0.skipped_while_active,
{
}

/// An interval is due once for each run: once found due it is not due again before it is armed.
pub proof fn law_interval_waits_to_be_rearmed(
    schedule: ScheduleConfig,
    runtime: ScheduleRuntime,
    now_ms: i64,
    has_active_run: bool,
    later_ms: i64,
)
    requires
        schedule is Interval,
        is_due(runtime, now_ms),
    ensures
        evaluated(schedule, runtime, now_ms, has_active_run) is Ok,
        !is_due(evaluated(schedule, runtime, now_ms, has_active_run)->Ok_0.runtime, later_ms),
{
}

/// Looking twice at one moment does nothing the second time, wherever a cron schedule is next due
/// after the moment looked at.
pub proof fn law_second_look_does_nothing(
    schedule: ScheduleConfig,
    runtime: ScheduleRuntime,
    now_ms: i64,
    first_active: bool,
    second_active: bool,
)
    requires
        evaluated(schedule, runtime, now_ms, first_active) is Ok,
        schedule is Cron && is_due(runtime, now_ms) ==> schedule.next_after(now_ms)->Ok_0 > now_ms,
    ensures
        ({
            let left = evaluated(schedule, runtime, now_ms, first_active)->Ok_0.runtime;
            evaluated(schedule, left, now_ms, second_active) == Ok::<DueEvaluation, Seq<char>>(
                DueEvaluation { runtime: left, became_due: false, skipped_while_active: false },
            )
        }),
{
}

/// A retry never goes past the attempts that the run allows, and never follows success,
/// cancellation or rejection.
pub proof fn law_retries_are_bounded(context: RetryContext)
    ensures
        retries(context) ==> context.attempt_no + 1 <= context.max_attempts,
        context.outcome is Succeeded || context.outcome is Cancelled || context.outcome is Rejected ==> !retries(
            context,
        ),
        context.cancel_requested ==> !retries(context),
        !retries(context) && context.outcome.terminal() ==> final_run_state(context.outcome).terminal(),
{
}

/// A retry is due exactly the delay after the attempt has ended, whichever attempt of the run it was
/// and however many are left, as long as that moment can be written; where it cannot, it is due at the
/// last moment that can be written or the longest time there is after the end.
pub proof fn law_retries_wait_for_the_delay(context: RetryContext)
    requires
        retry_decision(context) is Schedule,
    ensures
        ({
            let due = retry_decision(context)->retry_due_at_ms;
            let delay = context.retry_delay_seconds * 1000;
            &&& delay <= i64::MAX && context.server_now_ms + delay <= i64::MAX ==> due - context.server_now_ms == delay
            &&& delay <= i64::MAX && context.server_now_ms + delay > i64::MAX ==> due == i64::MAX
            &&& delay > i64::MAX ==> due == i64::MAX || due - context.server_now_ms == i64::MAX
            &&& due >= context.server_now_ms
        }),
{
}

/// How long a retry waits depends on nothing but the delay: two attempts that are retried at one
/// moment with one delay are retried at one moment.
pub proof fn law_retries_of_one_delay_are_due_together(one: RetryContext, two: RetryContext)
    requires
        retry_decision(one) is Schedule,
        retry_decision(two) is Schedule,
        one.server_now_ms == two.server_now_ms,
        one.retry_delay_seconds == two.retry_delay_seconds,
    ensures
        retry_decision(one) == retry_decision(two),
{
}

/// An attempt is retried exactly where it failed, ran out of time or was interrupted, the run allows a
/// further attempt, nobody asked to cancel it, and its mirror is still in force on the same node.
pub proof fn law_failed_attempts_are_retried(context: RetryContext)
    ensures
        retry_decision(context) is Schedule <==> {
            &&& context.outcome == AttemptState::Failed || context.outcome == AttemptState::TimedOut || context.outcome
                == AttemptState::Interrupted
            &&& context.attempt_no + 1 <= context.max_attempts
            &&& !context.cancel_requested
            &&& context.mirror_eligible
            &&& context.owner_unchanged
        },
{
}

/// A run that is not retried ends as its last attempt did, and what is no success, no cancellation and
/// no want of time is a failure.
pub proof fn law_runs_end_as_their_attempts(context: RetryContext)
    requires
        retry_decision(context) is Final,
    ensures
        ({
            let ended = retry_decision(context)->Final_0;
            &&& ended == RunState::Succeeded <==> context.outcome == AttemptState::Succeeded
            &&& ended == RunState::Cancelled <==> context.outcome == AttemptState::Cancelled
            &&& ended == RunState::TimedOut <==> context.outcome == AttemptState::TimedOut
            &&& ended == RunState::Failed <==> context.outcome != AttemptState::Succeeded && context.outcome
                != AttemptState::Cancelled && context.outcome != AttemptState::TimedOut
        }),
{
}

/// A run with more attempts allowed is retried wherever one with fewer is.
pub proof fn law_more_attempts_never_hinder(context: RetryContext, more: u32)
    requires
        retry_decision(context) is Schedule,
        more >= context.max_attempts,
    ensures
        retry_decision(RetryContext { max_attempts: more, ..context }) == retry_decision(context),
{
}

/// An interval is due its own length after any moment, as long as that moment can be written.
pub proof fn law_intervals_are_evenly_apart(schedule: ScheduleConfig, after_ms: i64, seconds: u64)
    requires
        schedule is Interval,
        interval_outcome(schedule->interval@) == Ok::<u64, Seq<char>>(seconds),
        seconds <= MAX_INTERVAL_SECONDS,
    ensures
        after_ms + 1000 * seconds <= i64::MAX ==> schedule.next_after(after_ms) is Ok && schedule.next_after(
            after_ms,
        )->Ok_0 - after_ms == 1000 * seconds,
        after_ms + 1000 * seconds > i64::MAX ==> schedule.next_after(after_ms) is Err,
{
}

/// An interval is accepted exactly where its text reads as a whole number of seconds between a minute
/// and 365 days.
pub proof fn law_intervals_are_a_minute_to_a_year(interval: Seq<char>)
    ensures
        !fills_last_second(interval) ==> (interval_outcome(interval) is Ok <==> {
            let read = outside::human_duration(interval);
            read is Ok && read->Ok_0.1 == 0 && 60 <= read->Ok_0.0 <= 365 * 24 * 3600
        }),
        interval_outcome(interval) is Ok ==> outside::human_duration(interval) == Ok::<(u64, u32), Seq<char>>(
            (interval_outcome(interval)->Ok_0, 0u32),
        ),
        fills_last_second(interval) ==> interval_outcome(interval) is Err,
{
}

/// A cron schedule is due where its expression is in its own zone, from the moment given, whatever
/// other schedule there is.
pub proof fn law_cron_schedules_are_due_in_their_zone(schedule: ScheduleConfig, after_ms: i64)
    requires
        schedule is Cron,
        schedule.next_after(after_ms) is Ok,
    ensures
        outside::cron_occurrence(schedule->cron@, schedule->timezone@, after_ms) == schedule.next_after(after_ms),
        outside::iana_timezone(schedule->timezone@),
        outside::cron_fault(schedule->cron@) is None,
{
}

/// A schedule that is put in force is due next after that moment, and nothing waits.
pub proof fn law_new_schedules_wait_for_nothing(schedule: ScheduleConfig, now_ms: i64)
    ensures
        activated(schedule, now_ms) is Ok <==> schedule.next_after(now_ms) is Ok,
        activated(schedule, now_ms) is Ok ==> {
            let runtime = activated(schedule, now_ms)->Ok_0;
            &&& runtime.next_due_at_ms == Some(schedule.next_after(now_ms)->Ok_0)
            &&& runtime.last_evaluated_at_ms == Some(now_ms)
            &&& runtime.catch_up_pending == false
            &&& runtime.catch_up_since_ms is None
        },
{
}

/// Looking at a schedule changes nothing before it is due, and from then on the mirror waits since the
/// earliest due moment unless a run of it is in flight, in which case that due moment is passed over.
pub proof fn law_due_schedules_wait_or_are_passed_over(
    schedule: ScheduleConfig,
    runtime: ScheduleRuntime,
    now_ms: i64,
    active: bool,
)
    requires
        evaluated(schedule, runtime, now_ms, active) is Ok,
    ensures
        ({
            let found = evaluated(schedule, runtime, now_ms, active)->Ok_0;
            let due = runtime.next_due_at_ms;
            &&& due is None || due->0 > now_ms ==> found.runtime == runtime && !found.became_due
                && !found.skipped_while_active
            &&& due is Some && due->0 <= now_ms ==> {
                &&& found.became_due == !active
                &&& found.skipped_while_active == active
                &&& found.runtime.last_evaluated_at_ms == Some(now_ms)
                &&& found.runtime.catch_up_pending == !active
                &&& active ==> found.runtime.catch_up_since_ms is None
                &&& !active ==> found.runtime.catch_up_since_ms is Some && found.runtime.catch_up_since_ms->0 <= due->0
                &&& !active && runtime.catch_up_since_ms is None ==> found.runtime.catch_up_since_ms == due
                &&& !active && runtime.catch_up_since_ms is Some ==> found.runtime.catch_up_since_ms->0
                    <= runtime.catch_up_since_ms->0 && (found.runtime.catch_up_since_ms == due
                    || found.runtime.catch_up_since_ms == runtime.catch_up_since_ms)
                &&& schedule is Interval ==> found.runtime.next_due_at_ms is None
                &&& schedule is Cron ==> found.runtime.next_due_at_ms == Some(schedule.next_after(now_ms)->Ok_0)
            }
        }),
{
}

/// Only a schedule that is due and cannot be armed anew fails to be looked at.
pub proof fn law_looking_fails_only_without_a_next_moment(
    schedule: ScheduleConfig,
    runtime: ScheduleRuntime,
    now_ms: i64,
    active: bool,
)
    ensures
        evaluated(schedule, runtime, now_ms, active) is Err <==> schedule is Cron && runtime.next_due_at_ms is Some
            && runtime.next_due_at_ms->0 <= now_ms && schedule.next_after(now_ms) is Err,
{
}

/// Only an interval is armed by the end of a run, and then its own length after it.
pub proof fn law_ends_arm_intervals_only(schedule: ScheduleConfig, terminal_at_ms: i64)
    ensures
        schedule is Cron ==> rearmed(schedule, terminal_at_ms) == Ok::<Option<i64>, Seq<char>>(None),
        schedule is Interval && interval_outcome(schedule->interval@) is Ok && terminal_at_ms + 1000 * (interval_outcome(
            schedule->interval@,
        )->Ok_0) <= i64::MAX ==> rearmed(schedule, terminal_at_ms) is Ok && rearmed(schedule, terminal_at_ms)->Ok_0 is Some
            && rearmed(schedule, terminal_at_ms)->Ok_0->0 - terminal_at_ms == 1000 * (interval_outcome(
            schedule->interval@,
        )->Ok_0),
        schedule is Interval && rearmed(schedule, terminal_at_ms) is Ok ==> rearmed(schedule, terminal_at_ms)->Ok_0
            is Some,
{
}

proof fn lemma_no_word_fault(list: Seq<Seq<char>>)
    ensures
        word_fault(list) is None <==> forall|i: int|
            0 <= i < list.len() ==> calendar_names().contains(upper(#[trigger] list[i])),
    decreases list.len(),
{
    if list.len() > 0 {
        let rest = list.drop_first();
        lemma_no_word_fault(rest);
        assert forall|i: int| 0 <= i < rest.len() implies #[trigger] rest[i] == list[i + 1] by {}
        if calendar_names().contains(upper(list[0])) {
            if word_fault(rest) is None {
                assert forall|i: int| 0 <= i < list.len() implies calendar_names().contains(upper(#[trigger] list[i])) by {
                    if i > 0 {
                        assert(rest[i - 1] == list[i]);
                    }
                }
            } else {
                let i = choose|i: int| 0 <= i < rest.len() && !calendar_names().contains(upper(#[trigger] rest[i]));
                assert(rest[i] == list[i + 1]);
                assert(!calendar_names().contains(upper(list[i + 1])));
            }
        }
    }
}

/// A calendar expression is taken where it has five fields, uses none of the extended forms, names only months and days
/// of the week, and can be read, in a zone that is known.
pub proof fn law_calendar_expressions_are_plain(cron: String, timezone: String)
    ensures
        (ScheduleConfig::Cron { cron, timezone }).fault() is None <==> {
            &&& text::words(cron@, Separator::Space).len() == 5
            &&& !cron@.contains('@') && !cron@.contains('?') && !cron@.contains('#') && !cron@.contains('+')
            &&& forall|i: int|
                0 <= i < text::words(cron@, Separator::NonLetter).len() ==> calendar_names().contains(
                    upper(#[trigger] text::words(cron@, Separator::NonLetter)[i]),
                )
            &&& outside::cron_fault(cron@) is None
            &&& outside::iana_timezone(timezone@)
        },
        calendar_names().len() == 19,
{
    lemma_no_word_fault(text::words(cron@, Separator::NonLetter));
}

} // verus!
