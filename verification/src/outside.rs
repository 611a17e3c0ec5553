//! Calls into outside crates, each behind a function whose contract says what it returns.
use chrono::DateTime;
use chrono::Offset;
use chrono::Utc;
use chrono_tz::Tz;
use croner::parser::CronParser;
use croner::parser::Seconds;
use croner::parser::Year;
use rand_core::OsRng;
use rand_core::RngCore;
use sha2::Digest;
use sha2::Sha256;
use std::collections::BTreeMap;
use time::format_description::well_known::Rfc3339;
use time::OffsetDateTime;
use ulid::DecodeError;
use ulid::Ulid;
use vstd::prelude::*;
use vstd::string::StringSliceAdditionalSpecFns;

verus! {

/// The SHA-256 digest of a byte sequence.
pub uninterp spec fn sha256_digest(bytes: Seq<u8>) -> Seq<u8>;

/// `sha2::Sha256::digest`: the digest of `bytes`, which is always 32 bytes long.
#[verifier::external_body]
pub(crate) fn sha256(bytes: &[u8]) -> (digest: Vec<u8>)
    ensures
        digest@ == sha256_digest(bytes@),
        digest@.len() == 32,
{
    Sha256::digest(bytes).to_vec()
}

/// The lower-case hexadecimal digit of a number below sixteen.
pub open spec fn hex_digit(value: int) -> char {
    if value < 10 {
        (('0' as u32) + value) as char
    } else {
        (('a' as u32) + (value - 10)) as char
    }
}

/// Two lower-case hexadecimal digits for each byte, the high half first.
pub open spec fn hex_text(bytes: Seq<u8>) -> Seq<char> {
    Seq::new(
        2 * bytes.len(),
        |i: int|
            if i % 2 == 0 {
                hex_digit(bytes[i / 2] as int / 16)
            } else {
                hex_digit(bytes[i / 2] as int % 16)
            },
    )
}

/// `hex::encode`: two lower-case hexadecimal digits for each byte, the high half first.
#[verifier::external_body]
pub(crate) fn hex_encode(bytes: &[u8]) -> (text: String)
    ensures
        text@ == hex_text(bytes@),
{
    hex::encode(bytes)
}

/// `rand_core::OsRng`: so many bytes from the operating system's generator, or nothing when it fails.
/// Which bytes come back rests on chance and is left unsaid.
#[verifier::external_body]
pub(crate) fn random_bytes(count: usize) -> (bytes: Option<Vec<u8>>)
    ensures
        bytes is Some ==> bytes->0@.len() == count,
{
    let mut bytes = vec![0u8; count];
    match OsRng.try_fill_bytes(&mut bytes) {
        Ok(()) => Some(bytes),
        Err(_) => None,
    }
}

/// Why a text is no run identifier.
#[derive(Clone, Copy, Debug, PartialEq, Eq, Structural)]
pub enum RunIdError {
    /// Not 26 bytes long.
    InvalidLength,
    /// A byte outside the base-32 alphabet.
    InvalidChar,
}

/// The value of a Crockford base-32 digit in either case; I, L, O and U are none.
pub open spec fn base32_value(byte: u8) -> Option<nat> {
    let c = if 97 <= byte <= 122 {
        (byte - 32) as u8
    } else {
        byte
    };
    if 48 <= c <= 57 {
        Some((c - 48) as nat)
    } else if 65 <= c <= 72 {
        Some((c - 55) as nat)
    } else if 74 <= c <= 75 {
        Some((c - 56) as nat)
    } else if 77 <= c <= 78 {
        Some((c - 57) as nat)
    } else if 80 <= c <= 84 {
        Some((c - 58) as nat)
    } else if 86 <= c <= 90 {
        Some((c - 59) as nat)
    } else {
        None
    }
}

/// True when every byte is a base-32 digit.
pub open spec fn base32_digits(bytes: Seq<u8>) -> bool {
    forall|i: int| 0 <= i < bytes.len() ==> base32_value(#[trigger] bytes[i]) is Some
}

/// The base-32 digit, in upper case, of a number below thirty-two.
pub open spec fn base32_char(value: nat) -> char {
    "0123456789ABCDEFGHJKMNPQRSTVWXYZ"@[value as int]
}

/// The number that a run of base-32 digits writes, kept to 128 bits.
pub open spec fn base32_number(bytes: Seq<u8>) -> nat
    decreases bytes.len(),
{
    if bytes.len() == 0 {
        0
    } else {
        (base32_number(bytes.drop_last()) * 32 + base32_value(bytes.last())->0)
            % 0x1_0000_0000_0000_0000_0000_0000_0000_0000nat
    }
}

/// The low `digits` base-32 digits of a number, the highest first.
pub open spec fn base32_text(value: nat, digits: nat) -> Seq<char>
    decreases digits,
{
    if digits == 0 {
        Seq::empty()
    } else {
        base32_text(value / 32, (digits - 1) as nat).push(base32_char(value % 32))
    }
}

/// `ulid::Ulid::new`: a fresh identifier. Which one comes back rests on the clock and on chance
/// and is left unsaid.
#[verifier::external_body]
pub(crate) fn ulid_fresh() -> (value: u128) {
    Ulid::new().0
}

/// `ulid::Ulid::to_string`: the value in 26 upper-case base-32 digits, the highest first.
#[verifier::external_body]
pub(crate) fn ulid_format(value: u128) -> (text: String)
    ensures
        text@ == base32_text(value as nat, 26),
{
    Ulid(value).to_string()
}

/// `ulid::Ulid::from_string`: the number written by 26 base-32 digits in either case, kept to 128
/// bits; an error names a wrong length before a wrong digit.
#[verifier::external_body]
pub(crate) fn ulid_parse(text: &str) -> (value: Result<u128, RunIdError>)
    ensures
        match value {
            Err(RunIdError::InvalidLength) => text.spec_bytes().len() != 26,
            Err(RunIdError::InvalidChar) => text.spec_bytes().len() == 26 && !base32_digits(text.spec_bytes()),
            Ok(number) => text.spec_bytes().len() == 26 && base32_digits(text.spec_bytes()) && number
                == base32_number(text.spec_bytes()),
        },
{
    match Ulid::from_string(text) {
        Ok(id) => Ok(id.0),
        Err(DecodeError::InvalidLength) => Err(RunIdError::InvalidLength),
        Err(DecodeError::InvalidChar) => Err(RunIdError::InvalidChar),
    }
}

/// The upper-case form of a text under the Unicode mapping.
pub uninterp spec fn unicode_uppercase(text: Seq<char>) -> Seq<char>;

/// The upper-case form of an ASCII letter; any other character as it is.
pub open spec fn ascii_upper(c: char) -> char {
    if 'a' <= c && c <= 'z' {
        ((c as u32) - 32) as char
    } else {
        c
    }
}

/// `str::to_uppercase`: the Unicode upper-case mapping, which changes only the letters `a` to `z`
/// of an ASCII text, so that an ASCII text in upper case stays as it is.
#[verifier::external_body]
pub(crate) fn uppercase(text: &str) -> (upper: String)
    ensures
        upper@ == unicode_uppercase(text@),
        (forall|i: int| 0 <= i < text@.len() ==> (#[trigger] text@[i] as u32) < 128) ==> upper@ == text@.map_values(
            |c: char| ascii_upper(c),
        ) && unicode_uppercase(upper@) == upper@,
{
    text.to_uppercase()
}

/// The text as its `Debug` form prints it, between double quotes and with escapes.
pub uninterp spec fn debug_quoted(text: Seq<char>) -> Seq<char>;

/// The `Debug` form of `str`: the text between double quotes, with escapes where it needs them.
#[verifier::external_body]
pub(crate) fn quoted(text: &str) -> (shown: String)
    ensures
        shown@ == debug_quoted(text@),
{
    format!("{text:?}")
}

/// What a human-readable duration comes to, in whole seconds and nanoseconds, or why it is none.
pub uninterp spec fn human_duration(text: Seq<char>) -> Result<(u64, u32), Seq<char>>;

/// `humantime::parse_duration`: the duration that the text writes, or the message of its error. A
/// duration in seconds, written with the unit `s`, is read back as it is. The carry of a second that
/// is filled by parts below it is added unchecked to a `u64` of seconds, so texts that fill the last
/// one are left out.
#[verifier::external_body]
pub(crate) fn parse_duration(text: &str) -> (duration: Result<(u64, u32), String>)
    requires
        !crate::domain::duration::fills_last_second(text@),
    ensures
        match duration {
            Ok(value) => human_duration(text@) == Ok::<(u64, u32), Seq<char>>(value) && human_duration(
                crate::text::decimal(value.0 as nat) + "s"@,
            ) == Ok::<(u64, u32), Seq<char>>((value.0, 0)),
            Err(message) => human_duration(text@) == Err::<(u64, u32), Seq<char>>(message@),
        },
{
    match humantime::parse_duration(text) {
        Ok(value) => Ok((value.as_secs(), value.subsec_nanos())),
        Err(error) => Err(error.to_string()),
    }
}

/// True of the names in the IANA time zone database.
pub uninterp spec fn iana_timezone(name: Seq<char>) -> bool;

/// `chrono_tz::Tz`, parsed from its name: true when the database has a zone of that name.
#[verifier::external_body]
pub(crate) fn timezone_known(name: &str) -> (known: bool)
    ensures
        known == iana_timezone(name@),
{
    name.parse::<Tz>().is_ok()
}

/// Why a text is no five-field cron expression, or nothing where it is one.
pub uninterp spec fn cron_fault(expression: Seq<char>) -> Option<Seq<char>>;

/// `croner::parser::CronParser::parse`, without seconds and years: nothing for an expression that it
/// accepts, else the message of its error. It reads the fields in upper case and whatever blanks part
/// them, so that it accepts an expression's upper-case fields with single blanks as it does the
/// expression. It refuses any character that is not ASCII once it is in upper case. The letters that
/// become ASCII only then are the sharp s, the dotless i, the long s and the Latin ligatures; their
/// upper-case forms complete no month or weekday name next to runs of letters that are such names, so
/// that of the expressions in the supported form it accepts none with a field that is not ASCII.
#[verifier::external_body]
pub(crate) fn check_cron(expression: &str) -> (fault: Result<(), String>)
    ensures
        match fault {
            Ok(()) => cron_fault(expression@) is None && cron_fault(crate::domain::cron::tidied(expression@)) is None && (
            crate::domain::schedule::cron_form_fault(expression@) is None ==> crate::domain::cron::ascii_fields(
                expression@,
            )),
            Err(message) => cron_fault(expression@) == Some(message@),
        },
{
    match CronParser::builder().seconds(Seconds::Disallowed).year(Year::Disallowed).build().parse(expression) {
        Ok(_) => Ok(()),
        Err(error) => Err(error.to_string()),
    }
}

/// The first moment, in milliseconds since the epoch, that a cron expression names in a time zone
/// from a given moment on, or why none is found.
pub uninterp spec fn cron_occurrence(expression: Seq<char>, zone: Seq<char>, after_ms: i64) -> Result<i64, Seq<char>>;

/// The moments, in milliseconds, that chrono can hold, in UTC as in local time.
pub open spec fn representable(moment_ms: int) -> bool {
    -8_334_601_228_800_000 <= moment_ms <= 8_210_266_876_799_999
}

/// By how many seconds the local time of a zone is ahead of UTC at a moment given in milliseconds.
pub uninterp spec fn zone_offset(zone: Seq<char>, at_ms: i64) -> i32;

/// The offset that `chrono_tz::Tz` gives a moment: by how many seconds local time is ahead of UTC.
#[verifier::external_body]
pub(crate) fn local_offset(zone: &str, at_ms: i64) -> (seconds: i32)
    requires
        iana_timezone(zone@),
        representable(at_ms as int),
    ensures
        seconds == zone_offset(zone@, at_ms),
{
    let zone = zone.parse::<Tz>().expect("known zone");
    let moment = DateTime::<Utc>::from_timestamp_millis(at_ms).expect("moment in range");
    moment.with_timezone(&zone).offset().fix().local_minus_utc()
}

/// True when a search for an occurrence may begin at a moment: its local time can be held too.
pub open spec fn searchable(zone: Seq<char>, after_ms: i64) -> bool {
    representable(after_ms + zone_offset(zone, after_ms) * 1000)
}

/// `croner::Cron::find_next_occurrence` in the named zone, from the given moment on and without it:
/// the moment that it finds, or the message of its error. In the hour that a zone repeats when it
/// sets its clocks back, the moment found may lie before the one given, and no order is stated. The
/// search begins with the local time, which must be one that can be held.
#[verifier::external_body]
pub(crate) fn next_cron(expression: &str, zone: &str, after_ms: i64) -> (next: Result<i64, String>)
    requires
        iana_timezone(zone@),
        cron_fault(expression@) is None,
        representable(after_ms as int),
        searchable(zone@, after_ms),
    ensures
        match next {
            Ok(moment) => cron_occurrence(expression@, zone@, after_ms) == Ok::<i64, Seq<char>>(moment),
            Err(message) => cron_occurrence(expression@, zone@, after_ms) == Err::<i64, Seq<char>>(message@),
        },
{
    let zone = zone.parse::<Tz>().expect("known zone");
    let start = DateTime::<Utc>::from_timestamp_millis(after_ms).expect("moment in range").with_timezone(&zone);
    let parser = CronParser::builder().seconds(Seconds::Disallowed).year(Year::Disallowed).build();
    match parser.parse(expression).expect("accepted expression").find_next_occurrence(&start, false) {
        Ok(found) => Ok(found.timestamp_millis()),
        Err(error) => Err(error.to_string()),
    }
}

/// The TOML document of a table of strings, given as its keys and values in key order.
pub uninterp spec fn toml_strings(pairs: Seq<(Seq<char>, Seq<char>)>) -> Seq<char>;

/// `toml::to_string` on a table of strings with one key.
#[verifier::external_body]
pub(crate) fn toml_one(key: &str, value: &str) -> (document: String)
    ensures
        document@ == toml_strings(seq![(key@, value@)]),
{
    toml::to_string(&BTreeMap::from([(key, value)])).expect("a table of strings has a TOML form")
}

/// `toml::to_string` on a table of strings with two keys, in their order.
#[verifier::external_body]
pub(crate) fn toml_two(key: &str, value: &str, next_key: &str, next_value: &str) -> (document: String)
    requires
        crate::text::lex_less(key@, next_key@),
    ensures
        document@ == toml_strings(seq![(key@, value@), (next_key@, next_value@)]),
{
    toml::to_string(&BTreeMap::from([(key, value), (next_key, next_value)])).expect("a table of strings has a TOML form")
}

/// The moments, in nanoseconds since the epoch, of the years 0 to 9999.
pub open spec fn four_digit_year(nanos: i128) -> bool {
    -62_167_219_200_000_000_000 <= nanos < 253_402_300_800_000_000_000
}

/// The RFC 3339 form, in UTC, of a moment given in nanoseconds since the epoch.
pub uninterp spec fn rfc3339_text(nanos: i128) -> Seq<char>;

/// `time::OffsetDateTime::format` with `Rfc3339`, in UTC; years outside 0 to 9999 have no such form.
/// The form keeps every nanosecond, so that it reads back as the moment it was made of.
#[verifier::external_body]
pub(crate) fn format_rfc3339(nanos: i128) -> (text: String)
    requires
        four_digit_year(nanos),
    ensures
        text@ == rfc3339_text(nanos),
        rfc3339_nanos(text@) == Some(nanos),
{
    let moment = OffsetDateTime::from_unix_timestamp_nanos(nanos).expect("year in range");
    moment.format(&Rfc3339).expect("year in range")
}

/// The moment, in nanoseconds since the epoch, that an RFC 3339 text names.
pub uninterp spec fn rfc3339_nanos(text: Seq<char>) -> Option<i128>;

/// `time::OffsetDateTime::parse` with `Rfc3339`: the moment named, whose year has four digits in its
/// own offset, so that it lies well within thirteen thousand years of the epoch, or nothing.
#[verifier::external_body]
pub(crate) fn parse_rfc3339(text: &str) -> (nanos: Option<i128>)
    ensures
        nanos == rfc3339_nanos(text@),
        nanos is Some ==> -400_000_000_000_000_000_000 < nanos->0 < 400_000_000_000_000_000_000,
{
    match OffsetDateTime::parse(text, &Rfc3339) {
        Ok(moment) => Some(moment.unix_timestamp_nanos()),
        Err(_) => None,
    }
}

/// The texts of pairs.
pub open spec fn pair_views(pairs: Seq<(String, String)>) -> Seq<(Seq<char>, Seq<char>)> {
    pairs.map_values(|pair: (String, String)| (pair.0@, pair.1@))
}

/// How many characters pairs hold.
pub open spec fn pairs_length(pairs: Seq<(Seq<char>, Seq<char>)>) -> nat
    decreases pairs.len(),
{
    if pairs.len() == 0 {
        0
    } else {
        pairs_length(pairs.drop_last()) + pairs.last().0.len() + pairs.last().1.len()
    }
}

/// An address with pairs as its query, or why it is no address.
pub uninterp spec fn queried_address(address: Seq<char>, pairs: Seq<(Seq<char>, Seq<char>)>) -> Result<
    Seq<char>,
    Seq<char>,
>;

/// `reqwest::Url`: the address parsed, the pairs appended to its query in form encoding, and the
/// whole written out again; an address that does not parse gives the parser's message. Places in an
/// address are numbers of 32 bits, and a text that could outgrow them is left out.
#[verifier::external_body]
pub(crate) fn query_address(address: &str, pairs: &Vec<(String, String)>) -> (r: Result<String, String>)
    requires
        address@.len() + pairs_length(pair_views(pairs@)) < 0x1000_0000,
    ensures
        match r {
            Ok(url) => queried_address(address@, pair_views(pairs@)) is Ok && queried_address(
                address@,
                pair_views(pairs@),
            )->Ok_0 == url@,
            Err(error) => queried_address(address@, pair_views(pairs@)) is Err && queried_address(
                address@,
                pair_views(pairs@),
            )->Err_0 == error@,
        },
{
    let mut url = match reqwest::Url::parse(address) {
        Ok(url) => url,
        Err(error) => return Err(error.to_string()),
    };
    url.query_pairs_mut().extend_pairs(pairs);
    Ok(url.to_string())
}

/// A value of a JSON document: a text as it is, anything else as it is written without white space.
#[derive(Debug, PartialEq, Eq)]
pub enum JsonCell {
    Plain(String),
    Encoded(String),
}

/// What a JSON document is at its top.
#[derive(Debug, PartialEq, Eq)]
pub enum JsonShape {
    Rows(Vec<JsonCell>),
    Fields(Vec<(String, JsonCell)>),
    One(JsonCell),
}

/// What a value holds.
pub enum JsonCellView {
    Plain(Seq<char>),
    Encoded(Seq<char>),
}

/// What a document holds at its top.
pub enum JsonShapeView {
    Rows(Seq<JsonCellView>),
    Fields(Seq<(Seq<char>, JsonCellView)>),
    One(JsonCellView),
}

impl JsonCell {
    /// What the value holds.
    pub open spec fn view(&self) -> JsonCellView {
        match *self {
            JsonCell::Plain(text) => JsonCellView::Plain(text@),
            JsonCell::Encoded(text) => JsonCellView::Encoded(text@),
        }
    }
}

impl JsonShape {
    /// What the document holds at its top.
    pub open spec fn view(&self) -> JsonShapeView {
        match *self {
            JsonShape::Rows(rows) => JsonShapeView::Rows(rows@.map_values(|cell: JsonCell| cell@)),
            JsonShape::Fields(fields) => JsonShapeView::Fields(
                fields@.map_values(|field: (String, JsonCell)| (field.0@, field.1@)),
            ),
            JsonShape::One(cell) => JsonShapeView::One(cell@),
        }
    }
}

/// What a JSON document is at its top; none where the bytes are no JSON document.
pub uninterp spec fn json_document(bytes: Seq<u8>) -> Option<JsonShapeView>;

/// `serde_json::from_slice`: the document that the bytes write, with each value below its top either
/// the text it is or what `serde_json::Value` writes it as.
#[verifier::external_body]
pub(crate) fn json_shape(bytes: &[u8]) -> (r: Option<JsonShape>)
    ensures
        match r {
            Some(shape) => json_document(bytes@) == Some(shape@),
            None => json_document(bytes@) is None,
        },
{
    let value: serde_json::Value = serde_json::from_slice(bytes).ok()?;
    let cell = |value: serde_json::Value| match value {
        serde_json::Value::String(text) => JsonCell::Plain(text),
        other => JsonCell::Encoded(other.to_string()),
    };
    Some(match value {
        serde_json::Value::Array(rows) => JsonShape::Rows(rows.into_iter().map(cell).collect()),
        serde_json::Value::Object(fields) => {
            JsonShape::Fields(fields.into_iter().map(|(key, value)| (key, cell(value))).collect())
        },
        other => JsonShape::One(cell(other)),
    })
}

/// A JSON document written out over several lines; none where the bytes are no JSON document.
pub uninterp spec fn json_lines(bytes: Seq<u8>) -> Option<Seq<char>>;

/// `serde_json::to_string_pretty`: the document that the bytes write, written out over several lines.
#[verifier::external_body]
pub(crate) fn json_pretty(bytes: &[u8]) -> (r: Option<String>)
    ensures
        match r {
            Some(lines) => json_lines(bytes@) == Some(lines@),
            None => json_lines(bytes@) is None,
        },
{
    let value: serde_json::Value = serde_json::from_slice(bytes).ok()?;
    serde_json::to_string_pretty(&value).ok()
}

/// A text as a JSON document.
pub uninterp spec fn json_string(text: Seq<char>) -> Seq<char>;

/// `serde_json::Value`: a text, written as a JSON document.
#[verifier::external_body]
pub(crate) fn json_text(text: &str) -> (r: String)
    ensures
        r@ == json_string(text@),
{
    serde_json::Value::from(text).to_string()
}

/// The text that bytes write in UTF-8, with a mark for what is none.
pub uninterp spec fn lossy_text(bytes: Seq<u8>) -> Seq<char>;

/// `String::from_utf8_lossy`: the text that the bytes write in UTF-8, with the replacement character
/// for what is none.
#[verifier::external_body]
pub(crate) fn text_from_utf8(bytes: &[u8]) -> (r: String)
    ensures
        r@ == lossy_text(bytes@),
        vstd::utf8::valid_utf8(bytes@) ==> r@ == vstd::utf8::decode_utf8(bytes@),
{
    String::from_utf8_lossy(bytes).into_owned()
}

} // verus!
