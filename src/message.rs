//! Room messages: the length rule, the inbound frame reader and the outbound
//! frame writer.
use vstd::prelude::*;

verus! {

/// The longest message, in characters, that a room accepts.
pub const MAX_MESSAGE_CHARS: usize = 128;

/// A message of at most `MAX_MESSAGE_CHARS` characters may be published.
pub open spec fn fits(text: Seq<char>) -> bool {
    text.len() <= MAX_MESSAGE_CHARS
}

/// Tells whether `text` is short enough to be published to a room.
pub fn message_allowed(text: &str) -> (r: bool)
    ensures
        r == fits(text@),
{
    text.unicode_len() <= MAX_MESSAGE_CHARS
}

/// A message as a room hands it to every member: who sent it, and what.
#[derive(Clone, Debug)]
pub struct RoomMessage {
    pub user: String,
    pub message: String,
}

/// A message as a client sends it to its room.
#[derive(Clone, Debug)]
pub struct UserMessage {
    pub message: String,
}

/// A lowercase hexadecimal digit.
pub open spec fn hex_digit(n: u32) -> char {
    seq!['0', '1', '2', '3', '4', '5', '6', '7', '8', '9', 'a', 'b', 'c', 'd', 'e', 'f'][n as int]
}

/// How one character is written inside a JSON string: `"` and `\` behind
/// a backslash, control characters below U+0020 as a short escape or as
/// `\u00xx`, every other character as itself.
pub open spec fn escaped_char(c: char) -> Seq<char> {
    if c == '"' {
        seq!['\\', '"']
    } else if c == '\\' {
        seq!['\\', '\\']
    } else if c == '\u{8}' {
        seq!['\\', 'b']
    } else if c == '\t' {
        seq!['\\', 't']
    } else if c == '\n' {
        seq!['\\', 'n']
    } else if c == '\u{c}' {
        seq!['\\', 'f']
    } else if c == '\r' {
        seq!['\\', 'r']
    } else if (c as u32) < 0x20 {
        seq!['\\', 'u', '0', '0', hex_digit((c as u32) / 16), hex_digit((c as u32) % 16)]
    } else {
        seq![c]
    }
}

/// The characters of `s`, each written as inside a JSON string.
pub open spec fn escaped(s: Seq<char>) -> Seq<char>
    decreases s.len(),
{
    if s.len() == 0 {
        Seq::empty()
    } else {
        escaped(s.drop_last()) + escaped_char(s.last())
    }
}

/// The text of `s` written as one JSON string literal.
pub open spec fn json_string(s: Seq<char>) -> Seq<char> {
    seq!['"'] + escaped(s) + seq!['"']
}

/// The `message` member of a frame, when the frame is a JSON object whose
/// `message` member is a string; `None` for any other frame.
pub uninterp spec fn message_field_of(frame: Seq<char>) -> Option<Seq<char>>;

/// Relies on `serde_json::to_string` for a `str`, which writes `s` between
/// quotes with the escapes of its `ESCAPE` table and `write_char_escape`. For
/// a string it does not fail (it writes into a `Vec<u8>`).
#[verifier::external_body]
fn json_quote(s: &str) -> (r: String)
    ensures
        r@ == json_string(s@),
{
    match serde_json::to_string(s) {
        Ok(quoted) => quoted,
        Err(_) => String::new(),
    }
}

/// Relies on `serde_json::from_str::<serde_json::Value>` to read the frame and
/// on `serde_json::Map::remove` to take its `message` member out.
#[verifier::external_body]
fn message_field(frame: &str) -> (r: Option<String>)
    ensures
        match r {
            Some(m) => message_field_of(frame@) == Some(m@),
            None => message_field_of(frame@) is None,
        },
{
    match serde_json::from_str::<serde_json::Value>(frame) {
        Ok(serde_json::Value::Object(mut fields)) => match fields.remove("message") {
            Some(serde_json::Value::String(m)) => Some(m),
            _ => None,
        },
        _ => None,
    }
}

/// The frame that carries a room message to a client:
/// `{"user":<user>,"message":<message>}`.
pub open spec fn room_frame(user: Seq<char>, message: Seq<char>) -> Seq<char> {
    "{\"user\":"@ + json_string(user) + ",\"message\":"@ + json_string(message) + "}"@
}

impl RoomMessage {
    /// Writes this message as the text frame that every room member receives.
    pub fn to_frame(&self) -> (r: String)
        ensures
            r@ == room_frame(self.user@, self.message@),
    {
        let mut out = String::from_str("{\"user\":");
        let user = json_quote(self.user.as_str());
        out.append(user.as_str());
        out.append(",\"message\":");
        let message = json_quote(self.message.as_str());
        out.append(message.as_str());
        out.append("}");
        out
    }
}

impl UserMessage {
    /// Reads a client frame `{"message": <text>}`; `None` where the frame is
    /// not such an object.
    pub fn from_frame(frame: &str) -> (r: Option<UserMessage>)
        ensures
            match r {
                Some(m) => message_field_of(frame@) == Some(m.message@),
                None => message_field_of(frame@) is None,
            },
    {
        match message_field(frame) {
            Some(message) => Some(UserMessage { message }),
            None => None,
        }
    }
}

} // verus!
