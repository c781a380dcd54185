//! The command protocol: inbound text frames are JSON objects with a
//! `command` string and an optional `message` string; replies are JSON text.
use vstd::prelude::*;
use crate::channel::texts;

verus! {

/// Whether a text parses as one JSON value.
pub uninterp spec fn is_json(text: Seq<char>) -> bool;

/// The string member `key` of the JSON object in `text`: `None` when the
/// value is no object, has no such member, or the member is no string.
pub uninterp spec fn json_str_member(text: Seq<char>, key: Seq<char>) -> Option<Seq<char>>;

/// The lowercase hexadecimal digits.
pub open spec fn hex_digits() -> Seq<char> {
    seq!['0', '1', '2', '3', '4', '5', '6', '7', '8', '9', 'a', 'b', 'c', 'd', 'e', 'f']
}

/// How one character stands inside a JSON string: `"` and `\` are escaped,
/// backspace, tab, line feed, form feed and carriage return take their
/// short escapes, other characters below 0x20 are written `\u00XX`, and
/// every other character stands as it is.
pub open spec fn escaped_char(c: char) -> Seq<char> {
    if c == '"' {
        seq!['\\', '"']
    } else if c == '\\' {
        seq!['\\', '\\']
    } else if c == '\u{8}' {
        seq!['\\', 'b']
    } else if c == '\t' {
        seq!['\\', 't']
    } else if c == '\n' {
        seq!['\\', 'n']
    } else if c == '\u{c}' {
        seq!['\\', 'f']
    } else if c == '\r' {
        seq!['\\', 'r']
    } else if (c as u32) < 0x20 {
        seq!['\\', 'u', '0', '0', hex_digits()[(c as u32) as int / 16], hex_digits()[(c as u32) as int % 16]]
    } else {
        seq![c]
    }
}

/// The characters of `s`, each as it stands inside a JSON string.
pub open spec fn escaped(s: Seq<char>) -> Seq<char>
    decreases s.len(),
{
    if s.len() == 0 {
        Seq::empty()
    } else {
        escaped(s.drop_last()) + escaped_char(s.last())
    }
}

/// The JSON string literal that encodes `s`: its escaped characters
/// between double quotes.
pub open spec fn json_quoted(s: Seq<char>) -> Seq<char> {
    seq!['"'] + escaped(s) + seq!['"']
}

/// The views of an optional string.
pub open spec fn opt_text(o: Option<String>) -> Option<Seq<char>> {
    match o {
        Some(s) => Some(s@),
        None => None,
    }
}

/// Relies on serde_json::from_str::<serde_json::Value>, then on Value::get
/// and Value::as_str for each of the two keys: the two string members of
/// the JSON text, or `None` when the text is not JSON.
#[verifier::external_body]
fn json_str_members(text: &str, first: &str, second: &str) -> (r: Option<(Option<String>, Option<String>)>)
    ensures
        r is Some <==> is_json(text@),
        r matches Some((a, b)) ==> opt_text(a) == json_str_member(text@, first@) && opt_text(b)
            == json_str_member(text@, second@),
{
    match serde_json::from_str::<serde_json::Value>(text) {
        Ok(v) => Some((
            v.get(first).and_then(serde_json::Value::as_str).map(String::from),
            v.get(second).and_then(serde_json::Value::as_str).map(String::from),
        )),
        Err(_) => None,
    }
}

/// Relies on serde_json::to_string on a `str`: the string between double
/// quotes, each character escaped by serde_json's escape table as
/// `escaped_char` states it. Serialising a string into memory does not
/// fail; the error arm only converts the type.
#[verifier::external_body]
fn json_quote(s: &str) -> (r: String)
    ensures
        r@ == json_quoted(s@),
{
    match serde_json::to_string(s) {
        Ok(t) => t,
        Err(_) => String::new(),
    }
}

/// A decoded command frame.
pub enum Command {
    List,
    Whois,
    /// A broadcast; without a `message` it does nothing.
    Broadcast(Option<String>),
}

/// Why a frame was answered with an error reply. The session stays open.
#[derive(PartialEq, Eq, Structural, Clone, Copy, Debug)]
pub enum FrameError {
    InvalidJson,
    InvalidCommandFormat,
    UnknownCommand,
}

/// What the two members of a frame decode to.
pub open spec fn classified(
    fields: Option<(Option<Seq<char>>, Option<Seq<char>>)>,
    r: Result<Command, FrameError>,
) -> bool {
    match fields {
        None => r == Err::<Command, FrameError>(FrameError::InvalidJson),
        Some((None, _)) => r == Err::<Command, FrameError>(FrameError::InvalidCommandFormat),
        Some((Some(c), m)) => if c == "list"@ {
            r is Ok && r->Ok_0 is List
        } else if c == "whois"@ {
            r is Ok && r->Ok_0 is Whois
        } else if c == "broadcast"@ {
            r matches Ok(Command::Broadcast(msg)) && opt_text(msg) == m
        } else {
            r == Err::<Command, FrameError>(FrameError::UnknownCommand)
        },
    }
}

/// The views of the members that the JSON decoder handed back.
pub open spec fn fields_view(fields: Option<(Option<String>, Option<String>)>) -> Option<
    (Option<Seq<char>>, Option<Seq<char>>),
> {
    match fields {
        Some((c, m)) => Some((opt_text(c), opt_text(m))),
        None => None,
    }
}

/// What a text frame decodes to, over the JSON decoder's results.
pub open spec fn frame_fields(text: Seq<char>) -> Option<(Option<Seq<char>>, Option<Seq<char>>)> {
    if is_json(text) {
        Some((json_str_member(text, "command"@), json_str_member(text, "message"@)))
    } else {
        None
    }
}

/// The three command names are distinct.
pub proof fn lemma_command_names_distinct()
    ensures
        "list"@ != "whois"@,
        "list"@ != "broadcast"@,
        "whois"@ != "broadcast"@,
{
    reveal_strlit("list");
    reveal_strlit("whois");
    reveal_strlit("broadcast");
    assert("list"@.len() != "whois"@.len());
    assert("list"@.len() != "broadcast"@.len());
    assert("whois"@.len() != "broadcast"@.len());
}

/// Decides the command from the `command` and `message` members of a
/// frame (`None`: the frame was not JSON).
pub fn classify(fields: Option<(Option<String>, Option<String>)>) -> (r: Result<Command, FrameError>)
    ensures
        classified(fields_view(fields), r),
{
    proof {
        reveal_strlit("list");
        reveal_strlit("whois");
        reveal_strlit("broadcast");
    }
    match fields {
        None => Err(FrameError::InvalidJson),
        Some((None, _)) => Err(FrameError::InvalidCommandFormat),
        Some((Some(c), m)) => {
            if c == "list".to_owned() {
                Ok(Command::List)
            } else if c == "whois".to_owned() {
                Ok(Command::Whois)
            } else if c == "broadcast".to_owned() {
                Ok(Command::Broadcast(m))
            } else {
                Err(FrameError::UnknownCommand)
            }
        },
    }
}

/// Decodes one inbound text frame.
pub fn decode_frame(text: &str) -> (r: Result<Command, FrameError>)
    ensures
        classified(frame_fields(text@), r),
{
    let fields = json_str_members(text, "command", "message");
    proof {
        reveal_strlit("command");
        reveal_strlit("message");
    }
    classify(fields)
}

/// The reply text of a frame error.
pub open spec fn error_text(e: FrameError) -> Seq<char> {
    match e {
        FrameError::InvalidJson => "{\"error\":\"Invalid JSON\"}"@,
        FrameError::InvalidCommandFormat => "{\"error\":\"Invalid command format\"}"@,
        FrameError::UnknownCommand => "{\"error\":\"Unknown command\"}"@,
    }
}

impl FrameError {
    /// The JSON error reply for this error.
    pub fn reply(&self) -> (r: String)
        ensures
            r@ == error_text(*self),
    {
        match self {
            FrameError::InvalidJson => "{\"error\":\"Invalid JSON\"}".to_owned(),
            FrameError::InvalidCommandFormat => "{\"error\":\"Invalid command format\"}".to_owned(),
            FrameError::UnknownCommand => "{\"error\":\"Unknown command\"}".to_owned(),
        }
    }
}

/// The comma-separated JSON strings of `items`.
pub open spec fn quoted_list(items: Seq<Seq<char>>) -> Seq<char>
    decreases items.len(),
{
    if items.len() == 0 {
        Seq::empty()
    } else if items.len() == 1 {
        json_quoted(items[0])
    } else {
        quoted_list(items.drop_last()) + ","@ + json_quoted(items.last())
    }
}

/// The JSON array of the strings `items`.
pub open spec fn json_array(items: Seq<Seq<char>>) -> Seq<char> {
    "["@ + quoted_list(items) + "]"@
}

/// The reply to `whois`: an object naming the sender's identity.
pub open spec fn whois_text(identity: Seq<char>) -> Seq<char> {
    "{\"identity\":"@ + json_quoted(identity) + "}"@
}

/// The acknowledgment sent on a successful join to a symmetric channel
/// or as a primary.
pub open spec fn ack_text(identity: Seq<char>, channel: Seq<char>) -> Seq<char> {
    "Connected as "@ + identity + " to "@ + channel
}

/// The acknowledgment sent to a secondary that joined a primary's channel.
pub open spec fn secondary_ack_text(identity: Seq<char>, primary: Seq<char>) -> Seq<char> {
    "Connected as Watcher: "@ + identity + " to Streamer: "@ + primary
}

/// Encodes a list of identities as a JSON array of strings.
pub fn list_reply(items: &Vec<String>) -> (r: String)
    ensures
        r@ == json_array(texts(items@)),
{
    let mut body = String::new();
    let mut i: usize = 0;
    while i < items.len()
        invariant
            i <= items@.len(),
            body@ == quoted_list(texts(items@).take(i as int)),
        decreases items@.len() - i,
    {
        let q = json_quote(items[i].as_str());
        proof {
            let t = texts(items@).take(i as int + 1);
            assert(t.drop_last() =~= texts(items@).take(i as int));
            assert(t.last() == items@[i as int]@);
        }
        if i > 0 {
            body.append(",");
        }
        body.append(q.as_str());
        proof {
            reveal_strlit(",");
            let t = texts(items@).take(i as int + 1);
            assert(body@ =~= quoted_list(t));
        }
        i = i + 1;
    }
    proof {
        assert(texts(items@).take(items@.len() as int) =~= texts(items@));
    }
    let mut r = "[".to_owned();
    r.append(body.as_str());
    r.append("]");
    r
}

/// Encodes the reply to `whois`.
pub fn whois_reply(identity: &str) -> (r: String)
    ensures
        r@ == whois_text(identity@),
{
    let mut r = "{\"identity\":".to_owned();
    let q = json_quote(identity);
    r.append(q.as_str());
    r.append("}");
    r
}

/// Encodes the join acknowledgment.
pub fn ack_reply(identity: &str, channel: &str) -> (r: String)
    ensures
        r@ == ack_text(identity@, channel@),
{
    let mut r = "Connected as ".to_owned();
    r.append(identity);
    r.append(" to ");
    r.append(channel);
    r
}

/// Encodes the acknowledgment of a secondary's join.
pub fn secondary_ack_reply(identity: &str, primary: &str) -> (r: String)
    ensures
        r@ == secondary_ack_text(identity@, primary@),
{
    let mut r = "Connected as Watcher: ".to_owned();
    r.append(identity);
    r.append(" to Streamer: ");
    r.append(primary);
    r
}

} // verus!
