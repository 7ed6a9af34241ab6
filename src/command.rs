use vstd::prelude::*;
use crate::choice::{Choice, choice_named, choice_from_lowered, lower_of, lowercase};

verus! {

/// An inbound message as the room understands it.
#[derive(Clone, Copy, Debug, PartialEq, Eq, Structural)]
pub enum Command {
    /// Start a game.
    Start,
    /// Submit a move.
    Move(Choice),
    /// A move whose token is none of the three.
    InvalidChoice,
    /// A JSON message whose action is not known.
    Unknown,
    /// Text that is not JSON: relayed to the whole room as it is.
    Text,
}

/// The command that an action and a choice, both lower case, make.
pub open spec fn command_named(action: Seq<char>, choice: Seq<char>) -> Command {
    if action == "start"@ || action == "start_game"@ {
        Command::Start
    } else if action == "move"@ {
        match choice_named(choice) {
            Some(c) => Command::Move(c),
            None => Command::InvalidChoice,
        }
    } else {
        Command::Unknown
    }
}

/// A field's text, or the empty text when it is missing.
pub open spec fn or_empty(f: Option<Seq<char>>) -> Seq<char> {
    match f {
        Some(t) => t,
        None => Seq::empty(),
    }
}

/// The command that the string fields `action` and `choice` of a JSON
/// message make, ignoring case.
pub open spec fn command_of_fields(action: Option<Seq<char>>, choice: Option<Seq<char>>) -> Command {
    command_named(lower_of(or_empty(action)), lower_of(or_empty(choice)))
}

/// What `serde_json` reads from `text` for `key`: `None` when `text` is not
/// JSON; else the key's value when it is a string at the top level of an
/// object, `None` within when it is not.
pub uninterp spec fn json_str_field(text: Seq<char>, key: Seq<char>) -> Option<Option<Seq<char>>>;

/// The view of a string field as read.
pub open spec fn field_view(f: Option<String>) -> Option<Seq<char>> {
    match f {
        Some(s) => Some(s@),
        None => None,
    }
}

/// Relies on `serde_json::from_str` into a `serde_json::Value`, with
/// `Value::get` and `Value::as_str`: a function of the text and key alone.
#[verifier::external_body]
fn json_field(text: &str, key: &str) -> (r: Option<Option<String>>)
    ensures
        match r {
            None => json_str_field(text@, key@) is None,
            Some(f) => json_str_field(text@, key@) == Some(field_view(f)),
        },
{
    match serde_json::from_str::<serde_json::Value>(text) {
        Ok(v) => Some(v.get(key).and_then(serde_json::Value::as_str).map(String::from)),
        Err(_) => None,
    }
}

/// The command that an action and a choice, both already lower case, make.
pub fn command_from_lowered(action: &str, choice: &str) -> (r: Command)
    ensures
        r == command_named(action@, choice@),
{
    let a = String::from_str(action);
    if a == String::from_str("start") || a == String::from_str("start_game") {
        Command::Start
    } else if a == String::from_str("move") {
        match choice_from_lowered(choice) {
            Some(c) => Command::Move(c),
            None => Command::InvalidChoice,
        }
    } else {
        Command::Unknown
    }
}

/// The text of a field, or the empty text.
fn text_or_empty(f: Option<String>) -> (r: String)
    ensures
        r@ == or_empty(field_view(f)),
{
    match f {
        Some(s) => s,
        None => String::new(),
    }
}

/// The command that the fields `action` and `choice` make, ignoring case.
pub fn command_from_fields(action: Option<String>, choice: Option<String>) -> (r: Command)
    ensures
        r == command_of_fields(field_view(action), field_view(choice)),
{
    let a = lowercase(text_or_empty(action).as_str());
    let c = lowercase(text_or_empty(choice).as_str());
    command_from_lowered(a.as_str(), c.as_str())
}

/// The command that an inbound text makes.
pub open spec fn decoded(text: Seq<char>) -> Command {
    match json_str_field(text, "action"@) {
        None => Command::Text,
        Some(a) => command_of_fields(a, or_none(json_str_field(text, "choice"@))),
    }
}

/// Decodes an inbound text: text that is not JSON is relayed as it is; a
/// JSON message is read by its `action` and `choice` fields.
pub fn decode_command(text: &str) -> (r: Command)
    ensures
        r == decoded(text@),
{
    match json_field(text, "action") {
        None => Command::Text,
        Some(action) => {
            let choice = match json_field(text, "choice") {
                Some(c) => c,
                None => None,
            };
            command_from_fields(action, choice)
        },
    }
}

/// The inner field of a read, or `None`.
pub open spec fn or_none(f: Option<Option<Seq<char>>>) -> Option<Seq<char>> {
    match f {
        Some(x) => x,
        None => None,
    }
}

} // verus!
