//! What is sent to the server: commands, and the requests that carry them.

use vstd::prelude::*;

verus! {

/// A value as it is stored in a field of a hash.
pub enum Value {
    Text(String),
    Number(usize),
    /// A number of seconds, with three decimal places, given in milliseconds.
    Seconds { millis: i64 },
}

/// What a [`Value`] stands for.
pub enum ValueView {
    Text(Seq<char>),
    Number(usize),
    Seconds { millis: i64 },
}

impl View for Value {
    type V = ValueView;

    open spec fn view(&self) -> ValueView {
        match self {
            Value::Text(text) => ValueView::Text(text@),
            Value::Number(number) => ValueView::Number(*number),
            Value::Seconds { millis } => ValueView::Seconds { millis: *millis },
        }
    }
}

/// A field of a hash with the value to store in it.
pub struct Field {
    pub name: String,
    pub value: Value,
}

/// What a [`Field`] stands for.
pub struct FieldView {
    pub name: Seq<char>,
    pub value: ValueView,
}

impl View for Field {
    type V = FieldView;

    open spec fn view(&self) -> FieldView {
        FieldView { name: self.name@, value: self.value@ }
    }
}

/// A command of the server.
pub enum Command {
    /// `HSET key field value ...`
    HashSet { key: String, fields: Vec<Field> },
    /// `EXPIRE key seconds`
    Expire { key: String, seconds: i64 },
    /// `SADD set member`
    SetAdd { set: String, member: String },
    /// `SREM set member`
    SetRemove { set: String, member: String },
    /// `UNLINK key`
    Unlink { key: String },
}

/// What a [`Command`] stands for.
pub enum CommandView {
    HashSet { key: Seq<char>, fields: Seq<FieldView> },
    Expire { key: Seq<char>, seconds: int },
    SetAdd { set: Seq<char>, member: Seq<char> },
    SetRemove { set: Seq<char>, member: Seq<char> },
    Unlink { key: Seq<char> },
}

impl View for Command {
    type V = CommandView;

    open spec fn view(&self) -> CommandView {
        match self {
            Command::HashSet { key, fields } => CommandView::HashSet {
                key: key@,
                fields: Seq::new(fields@.len(), |i: int| fields@[i]@),
            },
            Command::Expire { key, seconds } => CommandView::Expire {
                key: key@,
                seconds: *seconds as int,
            },
            Command::SetAdd { set, member } => CommandView::SetAdd { set: set@, member: member@ },
            Command::SetRemove { set, member } => CommandView::SetRemove {
                set: set@,
                member: member@,
            },
            Command::Unlink { key } => CommandView::Unlink { key: key@ },
        }
    }
}

/// Commands that travel to the server and back together: they are pipelined in
/// one round trip, and the reply is awaited before the next request is sent.
pub struct Request {
    pub commands: Vec<Command>,
}

impl View for Request {
    type V = Seq<CommandView>;

    open spec fn view(&self) -> Seq<CommandView> {
        Seq::new(self.commands@.len(), |i: int| self.commands@[i]@)
    }
}

/// What a row of requests stands for.
pub open spec fn requests_view(requests: Seq<Request>) -> Seq<Seq<CommandView>> {
    Seq::new(requests.len(), |i: int| requests[i]@)
}

} // verus!
