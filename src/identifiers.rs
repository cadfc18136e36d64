use vstd::prelude::*;
use vstd::string::StringExecFns;

verus! {

#[verifier::external_type_specification]
#[verifier::external_body]
pub struct ExUuidError(uuid::Error);

/// A text that is not a UUID.
#[derive(Debug, Clone, Copy, PartialEq, Eq, Structural)]
pub struct ParseError;

/// The lowercase hexadecimal digit of `d`, for `0 <= d < 16`.
pub open spec fn hex_char(d: int) -> char {
    seq!['0', '1', '2', '3', '4', '5', '6', '7', '8', '9', 'a', 'b', 'c', 'd', 'e', 'f'][d]
}

/// The `n` lowest hexadecimal digits of `v`, the most significant first.
pub open spec fn hex_digits(v: nat, n: nat) -> Seq<char>
    decreases n,
{
    if n == 0 {
        Seq::empty()
    } else {
        hex_digits(v / 16, (n - 1) as nat).push(hex_char((v % 16) as int))
    }
}

/// The hyphenated form of a UUID: its 32 hexadecimal digits in groups of
/// 8, 4, 4, 4 and 12.
pub open spec fn hyphenated(v: u128) -> Seq<char> {
    let d = hex_digits(v as nat, 32);
    d.subrange(0, 8) + seq!['-'] + d.subrange(8, 12) + seq!['-'] + d.subrange(12, 16) + seq!['-']
        + d.subrange(16, 20) + seq!['-'] + d.subrange(20, 32)
}

/// The value that uuid's parser reads from a text, or `None` where it
/// refuses the text.
pub uninterp spec fn parsed_uuid(s: Seq<char>) -> Option<u128>;

/// Relies on `uuid::Uuid::parse_str` and `Uuid::as_u128`: whether a text is
/// accepted, and the value read, depend on the text alone.
#[verifier::external_body]
fn parse_uuid(input: &str) -> (r: Result<u128, uuid::Error>)
    ensures
        match r {
            Ok(v) => parsed_uuid(input@) == Some(v),
            Err(_) => parsed_uuid(input@) is None,
        },
{
    match uuid::Uuid::parse_str(input) {
        Ok(u) => Ok(u.as_u128()),
        Err(e) => Err(e),
    }
}

/// Relies on `uuid::Uuid::from_u128` and uuid's `Display`: the value's 16
/// bytes, most significant first, as lowercase hexadecimal in hyphenated form.
#[verifier::external_body]
fn uuid_text(v: u128) -> (r: String)
    ensures
        r@ == hyphenated(v),
{
    uuid::Uuid::from_u128(v).to_string()
}

/// Reads a UUID from a text.
fn parse_id(input: &str) -> (r: Result<u128, ParseError>)
    ensures
        r == match parsed_uuid(input@) {
            Some(v) => Ok::<u128, ParseError>(v),
            None => Err::<u128, ParseError>(ParseError),
        },
{
    match parse_uuid(input) {
        Ok(v) => Ok(v),
        Err(_) => Err(ParseError),
    }
}

/// `name=<uuid>`, the form in which an id travels in a query string.
fn query_parameter(name: &str, id: u128) -> (r: String)
    ensures
        r@ == name@ + seq!['='] + hyphenated(id),
{
    let mut s = String::from_str(name);
    s.append("=");
    let text = uuid_text(id);
    s.append(text.as_str());
    proof { reveal_strlit("="); }
    assert(s@ =~= name@ + seq!['='] + hyphenated(id));
    s
}

/// The key of a chat.
#[derive(Debug, Clone, Copy, PartialEq, Eq, Structural, Hash, Default)]
pub struct ChatUuid(pub u128);

impl ChatUuid {
    /// The key in hyphenated form.
    pub fn to_string(self) -> (r: String)
        ensures
            r@ == hyphenated(self.0),
    {
        uuid_text(self.0)
    }

    /// `chat_uuid=<uuid>`.
    pub fn to_query_parameter(self) -> (r: String)
        ensures
            r@ == "chat_uuid"@ + seq!['='] + hyphenated(self.0),
    {
        query_parameter("chat_uuid", self.0)
    }

    /// Reads a chat key from a UUID text.
    pub fn parse_str(input: &str) -> (r: Result<ChatUuid, ParseError>)
        ensures
            r == match parsed_uuid(input@) {
                Some(v) => Ok::<ChatUuid, ParseError>(ChatUuid(v)),
                None => Err::<ChatUuid, ParseError>(ParseError),
            },
    {
        match parse_id(input) {
            Ok(v) => Ok(ChatUuid(v)),
            Err(e) => Err(e),
        }
    }
}

/// The key of a forum thread.
#[derive(Debug, Clone, Copy, PartialEq, Eq, Structural, Hash, Default)]
pub struct ThreadUuid(pub u128);

impl ThreadUuid {
    /// The key in hyphenated form.
    pub fn to_string(self) -> (r: String)
        ensures
            r@ == hyphenated(self.0),
    {
        uuid_text(self.0)
    }

    /// `thread_uuid=<uuid>`.
    pub fn to_query_parameter(self) -> (r: String)
        ensures
            r@ == "thread_uuid"@ + seq!['='] + hyphenated(self.0),
    {
        query_parameter("thread_uuid", self.0)
    }

    /// Reads a thread key from a UUID text.
    pub fn parse_str(input: &str) -> (r: Result<ThreadUuid, ParseError>)
        ensures
            r == match parsed_uuid(input@) {
                Some(v) => Ok::<ThreadUuid, ParseError>(ThreadUuid(v)),
                None => Err::<ThreadUuid, ParseError>(ParseError),
            },
    {
        match parse_id(input) {
            Ok(v) => Ok(ThreadUuid(v)),
            Err(e) => Err(e),
        }
    }
}

} // verus!
