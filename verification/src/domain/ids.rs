//! Identifiers that are safe in paths and in requests.
use crate::outside;
use crate::outside::RunIdError;
use crate::text;
use vstd::prelude::*;

verus! {

/// A text that is no identifier of its kind.
#[derive(Debug, PartialEq, Eq)]
pub struct InvalidIdentifier {
    pub kind: &'static str,
    pub value: String,
}

impl Clone for InvalidIdentifier {
    fn clone(&self) -> (r: Self)
        ensures
            r == *self,
    {
        InvalidIdentifier { kind: self.kind, value: self.value.clone() }
    }
}

impl InvalidIdentifier {
    /// The message for a reader: the kind and the quoted value.
    pub open spec fn message_text(self) -> Seq<char> {
        "invalid "@ + self.kind@ + ": "@ + outside::debug_quoted(self.value@)
    }

    /// The message for a reader: the kind and the quoted value.
    pub fn message(&self) -> (r: String)
        ensures
            r@ == self.message_text(),
    {
        text::join4("invalid ", self.kind, ": ", outside::quoted(self.value.as_str()).as_str())
    }
}

/// True of the characters that a name may hold.
pub open spec fn name_char(c: char) -> bool {
    text::is_alphanumeric(c) || c == '-' || c == '_' || c == '.'
}

/// A name is one to sixty-three ASCII letters, digits, hyphens, underscores and dots, and begins
/// with a letter or a digit.
pub open spec fn is_name(s: Seq<char>) -> bool {
    &&& 0 < s.len() <= 63
    &&& text::is_alphanumeric(s[0])
    &&& forall|i: int| 0 <= i < s.len() ==> name_char(#[trigger] s[i])
}

/// True of names.
pub fn valid_name(value: &str) -> (r: bool)
    ensures
        r == is_name(value@),
{
    let chars: Vec<char> = text::chars_of(value);
    if chars.len() == 0 || chars.len() > 63 {
        return false;
    }
    if !text::alphanumeric(chars[0]) {
        return false;
    }
    let mut i: usize = 0;
    while i < chars.len()
        invariant
            i <= chars.len(),
            chars@ == value@,
            forall|k: int| 0 <= k < i ==> name_char(#[trigger] value@[k]),
        decreases chars.len() - i,
    {
        let c: char = chars[i];
        if !(text::alphanumeric(c) || c == '-' || c == '_' || c == '.') {
            assert(!name_char(value@[i as int]));
            return false;
        }
        i = i + 1;
    }
    true
}

/// A name is one safe path component: it is not empty, holds no slash and is neither of the two
/// dot entries of a directory.
pub proof fn law_names_are_path_safe(s: Seq<char>)
    requires
        is_name(s),
    ensures
        s.len() > 0,
        !s.contains('/'),
        s != "."@,
        s != ".."@,
{
    reveal_strlit(".");
    reveal_strlit("..");
    assert(name_char(s[0]));
    if s.contains('/') {
        let i = choose|i: int| 0 <= i < s.len() && s[i] == '/';
        assert(name_char(s[i]));
    }
}

/// The name of a mirror.
#[derive(Debug, PartialEq, Eq, PartialOrd, Ord, Hash)]
pub struct MirrorName {
    text: String,
}

impl MirrorName {
    #[verifier::type_invariant]
    spec fn valid(self) -> bool {
        is_name(self.text@)
    }

    /// The name's characters.
    pub closed spec fn view(&self) -> Seq<char> {
        self.text@
    }

    /// Takes a valid name and refuses any other text.
    pub fn new(value: &str) -> (r: Result<MirrorName, InvalidIdentifier>)
        ensures
            match r {
                Ok(name) => is_name(value@) && name@ == value@,
                Err(error) => !is_name(value@) && error.kind@ == "mirror name"@ && error.value@ == value@,
            },
    {
        if valid_name(value) {
            Ok(MirrorName { text: value.to_owned() })
        } else {
            Err(InvalidIdentifier { kind: "mirror name", value: value.to_owned() })
        }
    }

    /// The name as text.
    pub fn as_str(&self) -> (r: &str)
        ensures
            r@ == self@,
            is_name(self@),
    {
        proof {
            use_type_invariant(self);
        }
        self.text.as_str()
    }
}

impl Clone for MirrorName {
    fn clone(&self) -> (r: Self)
        ensures
            r == *self,
    {
        proof {
            use_type_invariant(self);
        }
        MirrorName { text: self.text.clone() }
    }
}

/// The name of a node.
#[derive(Debug, PartialEq, Eq, PartialOrd, Ord, Hash)]
pub struct NodeName {
    text: String,
}

impl NodeName {
    #[verifier::type_invariant]
    spec fn valid(self) -> bool {
        is_name(self.text@)
    }

    /// The name's characters.
    pub closed spec fn view(&self) -> Seq<char> {
        self.text@
    }

    /// Takes a valid name and refuses any other text.
    pub fn new(value: &str) -> (r: Result<NodeName, InvalidIdentifier>)
        ensures
            match r {
                Ok(name) => is_name(value@) && name@ == value@,
                Err(error) => !is_name(value@) && error.kind@ == "node name"@ && error.value@ == value@,
            },
    {
        if valid_name(value) {
            Ok(NodeName { text: value.to_owned() })
        } else {
            Err(InvalidIdentifier { kind: "node name", value: value.to_owned() })
        }
    }

    /// The name as text.
    pub fn as_str(&self) -> (r: &str)
        ensures
            r@ == self@,
            is_name(self@),
    {
        proof {
            use_type_invariant(self);
        }
        self.text.as_str()
    }
}

impl Clone for NodeName {
    fn clone(&self) -> (r: Self)
        ensures
            r == *self,
    {
        proof {
            use_type_invariant(self);
        }
        NodeName { text: self.text.clone() }
    }
}

/// The identity of one agent installation.
#[derive(Debug, PartialEq, Eq, PartialOrd, Ord, Hash)]
pub struct AgentInstanceId {
    text: String,
}

impl AgentInstanceId {
    #[verifier::type_invariant]
    spec fn valid(self) -> bool {
        is_name(self.text@)
    }

    /// The identifier's characters.
    pub closed spec fn view(&self) -> Seq<char> {
        self.text@
    }

    /// Takes a valid identifier and refuses any other text.
    pub fn new(value: &str) -> (r: Result<AgentInstanceId, InvalidIdentifier>)
        ensures
            match r {
                Ok(name) => is_name(value@) && name@ == value@,
                Err(error) => !is_name(value@) && error.kind@ == "agent instance id"@ && error.value@ == value@,
            },
    {
        if valid_name(value) {
            Ok(AgentInstanceId { text: value.to_owned() })
        } else {
            Err(InvalidIdentifier { kind: "agent instance id", value: value.to_owned() })
        }
    }

    /// The identifier as text.
    pub fn as_str(&self) -> (r: &str)
        ensures
            r@ == self@,
            is_name(self@),
    {
        proof {
            use_type_invariant(self);
        }
        self.text.as_str()
    }
}

impl Clone for AgentInstanceId {
    fn clone(&self) -> (r: Self)
        ensures
            r == *self,
    {
        proof {
            use_type_invariant(self);
        }
        AgentInstanceId { text: self.text.clone() }
    }
}

/// The identifier under which a caller repeats a request.
#[derive(Debug, PartialEq, Eq, PartialOrd, Ord, Hash)]
pub struct RequestId {
    text: String,
}

impl RequestId {
    #[verifier::type_invariant]
    spec fn valid(self) -> bool {
        is_name(self.text@)
    }

    /// The identifier's characters.
    pub closed spec fn view(&self) -> Seq<char> {
        self.text@
    }

    /// Takes a valid identifier and refuses any other text.
    pub fn new(value: &str) -> (r: Result<RequestId, InvalidIdentifier>)
        ensures
            match r {
                Ok(name) => is_name(value@) && name@ == value@,
                Err(error) => !is_name(value@) && error.kind@ == "request id"@ && error.value@ == value@,
            },
    {
        if valid_name(value) {
            Ok(RequestId { text: value.to_owned() })
        } else {
            Err(InvalidIdentifier { kind: "request id", value: value.to_owned() })
        }
    }

    /// The identifier as text.
    pub fn as_str(&self) -> (r: &str)
        ensures
            r@ == self@,
            is_name(self@),
    {
        proof {
            use_type_invariant(self);
        }
        self.text.as_str()
    }
}

impl Clone for RequestId {
    fn clone(&self) -> (r: Self)
        ensures
            r == *self,
    {
        proof {
            use_type_invariant(self);
        }
        RequestId { text: self.text.clone() }
    }
}

/// The number of an attempt within its run, counted from one.
#[derive(Clone, Copy, Debug, PartialEq, Eq, PartialOrd, Ord, Hash)]
pub struct AttemptNo {
    number: u32,
}

impl AttemptNo {
    #[verifier::type_invariant]
    spec fn valid(self) -> bool {
        self.number > 0
    }

    /// The number.
    pub closed spec fn view(&self) -> u32 {
        self.number
    }

    /// Takes any number but zero.
    pub fn new(value: u32) -> (r: Result<AttemptNo, InvalidIdentifier>)
        ensures
            match r {
                Ok(attempt) => value != 0 && attempt@ == value,
                Err(error) => value == 0 && error.kind@ == "attempt number"@ && error.value@ == text::decimal(0),
            },
    {
        if value == 0 {
            Err(InvalidIdentifier { kind: "attempt number", value: text::decimal_text(0) })
        } else {
            Ok(AttemptNo { number: value })
        }
    }

    /// The number, which is never zero.
    pub fn get(self) -> (r: u32)
        ensures
            r == self@,
            r > 0,
    {
        proof {
            use_type_invariant(self);
        }
        self.number
    }
}

/// The identifier of a run.
#[derive(Clone, Copy, Debug, PartialEq, Eq, PartialOrd, Ord, Hash, Structural)]
pub struct RunId {
    pub value: u128,
}

impl RunId {
    /// A fresh identifier, made of the time and of chance.
    pub fn new() -> (r: RunId) {
        RunId { value: outside::ulid_fresh() }
    }

    /// The identifier in 26 base-32 digits.
    pub open spec fn text(self) -> Seq<char> {
        outside::base32_text(self.value as nat, 26)
    }

    /// The identifier in 26 base-32 digits.
    pub fn to_text(self) -> (r: String)
        ensures
            r@ == self.text(),
            r@.len() == 26,
    {
        proof {
            lemma_base32_text_length(self.value as nat, 26);
        }
        outside::ulid_format(self.value)
    }

    /// Reads an identifier from 26 base-32 digits in either case.
    pub fn parse(value: &str) -> (r: Result<RunId, RunIdError>)
        ensures
            match r {
                Err(RunIdError::InvalidLength) => vstd::utf8::encode_utf8(value@).len() != 26,
                Err(RunIdError::InvalidChar) => vstd::utf8::encode_utf8(value@).len() == 26 && !outside::base32_digits(
                    vstd::utf8::encode_utf8(value@),
                ),
                Ok(id) => vstd::utf8::encode_utf8(value@).len() == 26 && outside::base32_digits(
                    vstd::utf8::encode_utf8(value@),
                ) && id.value == outside::base32_number(vstd::utf8::encode_utf8(value@)),
            },
    {
        match outside::ulid_parse(value) {
            Ok(number) => Ok(RunId { value: number }),
            Err(error) => Err(error),
        }
    }
}

impl Default for RunId {
    /// A fresh identifier.
    fn default() -> (r: Self) {
        RunId::new()
    }
}

/// A base-32 text has as many characters as digits were asked for.
pub proof fn lemma_base32_text_length(value: nat, digits: nat)
    ensures
        outside::base32_text(value, digits).len() == digits,
    decreases digits,
{
    if digits > 0 {
        lemma_base32_text_length(value / 32, (digits - 1) as nat);
    }
}

/// A digit below thirty-two is written as an ASCII character whose value is the digit.
proof fn lemma_base32_char(value: nat)
    requires
        value < 32,
    ensures
        outside::base32_char(value) <= '\u{7f}',
        outside::base32_value(outside::base32_char(value) as u8) == Some(value),
{
    reveal_strlit("0123456789ABCDEFGHJKMNPQRSTVWXYZ");
}

/// The low base-32 digits of a number below the power of their count write the number.
proof fn lemma_base32_reads_back(value: nat, digits: nat, bound: nat)
    requires
        bound == vstd::arithmetic::power::pow(32, digits),
        value < bound,
        value < 0x1_0000_0000_0000_0000_0000_0000_0000_0000nat,
    ensures
        vstd::utf8::is_ascii_chars(outside::base32_text(value, digits)),
        outside::base32_text(value, digits).len() == digits,
        outside::base32_digits(bytes_of(outside::base32_text(value, digits))),
        outside::base32_number(bytes_of(outside::base32_text(value, digits))) == value,
    decreases digits,
{
    let text = outside::base32_text(value, digits);
    vstd::arithmetic::power::lemma_pow0(32);
    if digits > 0 {
        let rest = outside::base32_text(value / 32, (digits - 1) as nat);
        vstd::arithmetic::power::lemma_pow_positive(32, (digits - 1) as nat);
        let less = vstd::arithmetic::power::pow(32, (digits - 1) as nat) as nat;
        assert(bound == 32 * less) by {
            reveal(vstd::arithmetic::power::pow);
        }
        lemma_base32_reads_back(value / 32, (digits - 1) as nat, less);
        lemma_base32_char(value % 32);
        assert(bytes_of(text).drop_last() == bytes_of(rest));
        assert(bytes_of(text).last() == outside::base32_char(value % 32) as u8);
        assert forall|i: int| 0 <= i < bytes_of(text).len() implies outside::base32_value(
            #[trigger] bytes_of(text)[i],
        ) is Some by {
            if i < bytes_of(rest).len() {
                assert(bytes_of(text)[i] == bytes_of(rest)[i]);
            }
        }
        assert forall|i: int| 0 <= i < text.len() implies '\0' <= #[trigger] text[i] <= '\u{7f}' by {
            if i < rest.len() {
                assert(text[i] == rest[i]);
            }
        }
    }
}

/// A text of ASCII characters as bytes.
spec fn bytes_of(text: Seq<char>) -> Seq<u8> {
    text.map_values(|c: char| c as u8)
}

/// A run identifier that is written reads back as itself: its text has the length and the digits of
/// an identifier, and writes its value.
pub proof fn law_run_ids_read_back(id: RunId)
    ensures
        vstd::utf8::is_ascii_chars(id.text()),
        vstd::utf8::encode_utf8(id.text()).len() == 26,
        outside::base32_digits(vstd::utf8::encode_utf8(id.text())),
        id.value == outside::base32_number(vstd::utf8::encode_utf8(id.text())),
{
    let bound = vstd::arithmetic::power::pow(32, 26) as nat;
    assert(vstd::arithmetic::power::pow(32, 26) == 0x4_0000_0000_0000_0000_0000_0000_0000_0000int * 1) by {
        reveal_with_fuel(vstd::arithmetic::power::pow, 27);
    }
    lemma_base32_reads_back(id.value as nat, 26, bound);
    vstd::utf8::is_ascii_chars_encode_utf8(id.text());
    assert(vstd::utf8::encode_utf8(id.text()) == bytes_of(id.text()));
}

/// A name has one to sixty-three characters: letters, digits, dots, dashes and low lines, and it begins with a letter
/// or a digit. What is a name stays one when it goes on alike, as long as it is not too long.
pub proof fn law_names_are_short_and_plain(s: Seq<char>, c: char)
    ensures
        is_name(s) ==> 1 <= s.len() <= 63,
        is_name(s) ==> forall|i: int|
            0 <= i < s.len() ==> ('a' <= #[trigger] s[i] && s[i] <= 'z') || ('A' <= s[i] && s[i] <= 'Z') || ('0' <= s[i] && s[i]
                <= '9') || ((s[i] == '-' || s[i] == '_' || s[i] == '.') && i > 0),
        is_name(s) && s.len() < 63 && (text::is_alphanumeric(c) || c == '-' || c == '_' || c == '.') ==> is_name(s.push(c)),
        text::is_alphanumeric(c) ==> is_name(seq![c]),
        is_name(s.push(c)) && s.len() > 0 ==> is_name(s),
{
    if is_name(s) {
        assert forall|i: int| 0 <= i < s.len() implies ('a' <= #[trigger] s[i] && s[i] <= 'z') || ('A' <= s[i] && s[i] <= 'Z')
            || ('0' <= s[i] && s[i] <= '9') || ((s[i] == '-' || s[i] == '_' || s[i] == '.') && i > 0) by {
            assert(name_char(s[i]));
        }
        if s.len() < 63 && name_char(c) {
            assert forall|i: int| 0 <= i < s.push(c).len() implies name_char(#[trigger] s.push(c)[i]) by {
                if i < s.len() {
                    assert(name_char(s[i]));
                }
            }
        }
    }
    if is_name(s.push(c)) && s.len() > 0 {
        assert forall|i: int| 0 <= i < s.len() implies name_char(#[trigger] s[i]) by {
            assert(name_char(s.push(c)[i]));
        }
        assert(s.push(c)[0] == s[0]);
    }
}

} // verus!
