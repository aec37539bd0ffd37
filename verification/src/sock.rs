//! The socket server that puts a user interface in touch with the core: one connection at a
//! time, and what each does in turn. A caller moves messages; what is here says which.

use vstd::prelude::*;
use vstd::utf8::*;

use crate::text::text_from_utf8;

verus! {

/// The configuration file that is read unless the environment names another.
pub fn default_config_file() -> (r: &'static str)
    ensures
        r@ == "../config.yaml"@,
{
    "../config.yaml"
}

/// The runtime configuration of a core behind a socket: replies carry the ids of their
/// messages, and come by one channel.
pub fn runtime_config() -> (r: &'static str)
    ensures
        r@ == "{\"messaging\":{\"reqres_append_mid\":false}}"@,
{
    "{\"messaging\":{\"reqres_append_mid\":false}}"
}

/// The address that the server listens on.
pub fn address() -> (r: &'static str)
    ensures
        r@ == "127.0.0.1:7472"@,
{
    "127.0.0.1:7472"
}

/// The first that a new connection sends into the core: the core stops to sync.
pub open spec fn shutdown_greeting() -> Seq<char> {
    "[\"0\",\"sync:shutdown\",false]"@
}

/// The second that a new connection sends into the core: the core forgets about the user
/// before.
pub open spec fn logout_greeting() -> Seq<char> {
    "[\"0\",\"user:logout\",false]"@
}

/// What a new connection sends into the core before anything else, in order.
pub fn greetings() -> (r: (&'static str, &'static str))
    ensures
        r.0@ == shutdown_greeting(),
        r.1@ == logout_greeting(),
        r.0@ == "[\"0\",\"sync:shutdown\",false]"@,
        r.1@ == "[\"0\",\"user:logout\",false]"@,
{
    ("[\"0\",\"sync:shutdown\",false]", "[\"0\",\"user:logout\",false]")
}

/// The id of the connection after the one with this id.
pub fn next_conn_id(id: u32) -> (r: u32)
    requires
        id < u32::MAX,
    ensures
        r == id + 1,
{
    id + 1
}

/// The rest between two rounds, in milliseconds.
pub const REST: u64 = 10;

/// What came from the user interface.
pub enum FromUi {
    /// The connection is closed.
    Close,
    Binary(Vec<u8>),
    Text(String),
    /// Anything else, and that nothing came.
    Other,
}

/// What a connection does next.
pub enum Turn {
    /// Sends this greeting into the core, the first of two.
    Greet(String),
    /// Sends this greeting into the core, the second of two.
    GreetAgain(String),
    /// Asks for the id of the latest connection.
    AskLatest,
    /// Reads from the user interface, without a wait.
    ReadUi,
    /// Sends this into the core.
    ToCore(String),
    /// Receives a message from the core, without a wait.
    ReadMessage,
    /// Sends this message to the user interface.
    MessageToUi(String),
    /// Receives an event from the core, without a wait.
    ReadEvent,
    /// Sends this event to the user interface.
    EventToUi(String),
    /// Rests before the next round.
    Rest,
    /// Panics: what came from the user interface is not text.
    Fail,
    /// Nothing: the connection has ended.
    End,
}

/// What a turn gave.
pub enum Gave {
    Latest(u32),
    Ui(FromUi),
    Core(Option<String>),
    Done,
}

/// What is made of what came from the user interface.
pub open spec fn after_ui(got: FromUi, r: Turn) -> bool {
    match got {
        FromUi::Close => r is End,
        FromUi::Binary(bytes) => if valid_utf8(bytes@) {
            r matches Turn::ToCore(s) && s@ == decode_utf8(bytes@)
        } else {
            r is Fail
        },
        FromUi::Text(s) => r == Turn::ToCore(s),
        FromUi::Other => r is ReadMessage,
    }
}

/// What comes after a turn of the connection with this id, for what the turn gave. What a
/// turn cannot give changes nothing.
pub open spec fn follows(id: u32, turn: Turn, gave: Gave, r: Turn) -> bool {
    match (turn, gave) {
        (Turn::Greet(_), Gave::Done) => r matches Turn::GreetAgain(s) && s@ == logout_greeting(),
        (Turn::GreetAgain(_), Gave::Done) => r is AskLatest,
        (Turn::AskLatest, Gave::Latest(latest)) => if latest == id {
            r is ReadUi
        } else {
            r is End
        },
        (Turn::ReadUi, Gave::Ui(got)) => after_ui(got, r),
        (Turn::ToCore(_), Gave::Done) => r is ReadMessage,
        (Turn::ReadMessage, Gave::Core(Some(s))) => r == Turn::MessageToUi(s),
        (Turn::ReadMessage, Gave::Core(None)) => r is ReadEvent,
        (Turn::MessageToUi(_), Gave::Done) => r is ReadEvent,
        (Turn::ReadEvent, Gave::Core(Some(s))) => r == Turn::EventToUi(s),
        (Turn::ReadEvent, Gave::Core(None)) => r is Rest,
        (Turn::EventToUi(_), Gave::Done) => r is Rest,
        (Turn::Rest, Gave::Done) => r is AskLatest,
        _ => r == turn,
    }
}

/// A connection: its id, and what it does next.
pub struct Connection {
    pub id: u32,
    pub turn: Turn,
}

impl Connection {
    /// A new connection: the greetings come first.
    pub fn new(id: u32) -> (r: Connection)
        ensures
            r.id == id,
            r.turn matches Turn::Greet(s) && s@ == shutdown_greeting(),
            r.turn->Greet_0@ == "[\"0\",\"sync:shutdown\",false]"@,
    {
        Connection { id, turn: Turn::Greet(greetings().0.to_owned()) }
    }

    /// Goes on, for what the turn gave.
    pub fn next(self, gave: Gave) -> (r: Connection)
        ensures
            r.id == self.id,
            follows(self.id, self.turn, gave, r.turn),
    {
        let id = self.id;
        let turn = match (self.turn, gave) {
            (Turn::Greet(_), Gave::Done) => Turn::GreetAgain(greetings().1.to_owned()),
            (Turn::GreetAgain(_), Gave::Done) => Turn::AskLatest,
            (Turn::AskLatest, Gave::Latest(latest)) => if latest == id {
                Turn::ReadUi
            } else {
                Turn::End
            },
            (Turn::ReadUi, Gave::Ui(got)) => match got {
                FromUi::Close => Turn::End,
                FromUi::Binary(bytes) => match text_from_utf8(bytes) {
                    Some(s) => Turn::ToCore(s),
                    None => Turn::Fail,
                },
                FromUi::Text(s) => Turn::ToCore(s),
                FromUi::Other => Turn::ReadMessage,
            },
            (Turn::ToCore(_), Gave::Done) => Turn::ReadMessage,
            (Turn::ReadMessage, Gave::Core(got)) => match got {
                Some(s) => Turn::MessageToUi(s),
                None => Turn::ReadEvent,
            },
            (Turn::MessageToUi(_), Gave::Done) => Turn::ReadEvent,
            (Turn::ReadEvent, Gave::Core(got)) => match got {
                Some(s) => Turn::EventToUi(s),
                None => Turn::Rest,
            },
            (Turn::EventToUi(_), Gave::Done) => Turn::Rest,
            (Turn::Rest, Gave::Done) => Turn::AskLatest,
            (turn, _) => turn,
        };
        Connection { id, turn }
    }
}

/// A run of a connection: each turn follows the one before, for what that gave.
pub open spec fn run(id: u32, turns: Seq<Turn>, gave: Seq<Gave>) -> bool {
    &&& turns.len() == gave.len() + 1
    &&& turns[0] matches Turn::Greet(s) && s@ == shutdown_greeting()
    &&& forall|i: int|
        0 <= i < gave.len() ==> follows(id, turns[i], #[trigger] gave[i], turns[i + 1])
}

/// The first greeting was sent before this turn.
pub open spec fn greeted_once(turns: Seq<Turn>, gave: Seq<Gave>, j: int) -> bool {
    exists|i: int|
        0 <= i < j && (#[trigger] turns[i]) is Greet && turns[i]->Greet_0@ == shutdown_greeting()
            && gave[i] is Done
}

/// Both greetings were sent before this turn, in order.
pub open spec fn greeted_twice(turns: Seq<Turn>, gave: Seq<Gave>, j: int) -> bool {
    exists|i: int|
        0 <= i < j && (#[trigger] turns[i]) is GreetAgain && turns[i]->GreetAgain_0@
            == logout_greeting() && gave[i] is Done && greeted_once(turns, gave, i)
}

/// Nothing comes before the greetings: whatever a connection does, it has sent the first
/// greeting and then the second one before, unless it is about to.
pub proof fn greetings_come_first(id: u32, turns: Seq<Turn>, gave: Seq<Gave>, j: int)
    requires
        run(id, turns, gave),
        0 <= j < turns.len(),
    ensures
        match turns[j] {
            Turn::Greet(s) => s@ == shutdown_greeting(),
            Turn::GreetAgain(s) => s@ == logout_greeting() && greeted_once(turns, gave, j),
            _ => greeted_twice(turns, gave, j),
        },
    decreases j,
{
    if j > 0 {
        greetings_come_first(id, turns, gave, j - 1);
        assert(follows(id, turns[j - 1], gave[j - 1], turns[j - 1 + 1]));
        if !(turns[j - 1] is Greet) && !(turns[j - 1] is GreetAgain) {
            let i = choose|i: int|
                0 <= i < j - 1 && (#[trigger] turns[i]) is GreetAgain && turns[i]->GreetAgain_0@
                    == logout_greeting() && gave[i] is Done && greeted_once(turns, gave, i);
            assert(turns[i] is GreetAgain);
        }
    }
}

/// A connection that was left behind is forgotten: once it has heard of another connection it
/// is ended, and stays so.
pub proof fn left_behind_is_forgotten(id: u32, turns: Seq<Turn>, gave: Seq<Gave>, i: int, j: int)
    requires
        run(id, turns, gave),
        0 <= i < j < turns.len(),
        turns[i] is AskLatest,
        gave[i] matches Gave::Latest(latest) && latest != id,
    ensures
        turns[j] is End,
    decreases j,
{
    if j == i + 1 {
        assert(follows(id, turns[i], gave[i], turns[i + 1]));
    } else {
        left_behind_is_forgotten(id, turns, gave, i, j - 1);
        assert(follows(id, turns[j - 1], gave[j - 1], turns[j - 1 + 1]));
    }
}

/// A connection reads from the user interface only when it has just heard that it is the
/// latest.
pub proof fn only_the_latest_reads(id: u32, turns: Seq<Turn>, gave: Seq<Gave>, i: int)
    requires
        run(id, turns, gave),
        0 <= i < gave.len(),
        turns[i + 1] != turns[i],
        turns[i + 1] is ReadUi,
    ensures
        turns[i] is AskLatest,
        gave[i] == Gave::Latest(id),
{
    assert(follows(id, turns[i], gave[i], turns[i + 1]));
}

/// Nothing is altered or made up on the way: what a connection sends into the core came
/// from the user interface at the turn before, and what it sends to the user interface came from
/// the core at the turn before, unless a turn was repeated because what it gave was not on it.
pub proof fn messages_pass_unaltered(id: u32, turns: Seq<Turn>, gave: Seq<Gave>, i: int)
    requires
        run(id, turns, gave),
        0 <= i < gave.len(),
        turns[i + 1] != turns[i],
    ensures
        turns[i + 1] matches Turn::ToCore(s) ==> (gave[i] == Gave::Ui(FromUi::Text(s)) || (
        gave[i] matches Gave::Ui(FromUi::Binary(b)) && valid_utf8(b@) && decode_utf8(b@) == s@)),
        turns[i + 1] matches Turn::MessageToUi(s) ==> turns[i] is ReadMessage && gave[i]
            == Gave::Core(Some(s)),
        turns[i + 1] matches Turn::EventToUi(s) ==> turns[i] is ReadEvent && gave[i] == Gave::Core(
            Some(s),
        ),
{
    assert(follows(id, turns[i], gave[i], turns[i + 1]));
}

/// The latest connection is served, whatever its id: when it hears its own id it goes on to read
/// from the user interface; what it reads goes into the core; then it reads a message and an event
/// from the core, hands each to the user interface, rests, and asks again. When it hears another
/// id it ends.
pub proof fn latest_is_served(
    id: u32,
    latest: u32,
    r: Turn,
    text: String,
    bytes: Vec<u8>,
    turn: Turn,
)
    ensures
        follows(id, Turn::AskLatest, Gave::Latest(id), r) <==> r == Turn::ReadUi,
        latest != id ==> (follows(id, Turn::AskLatest, Gave::Latest(latest), r) <==> r
            == Turn::End),
        follows(id, Turn::ReadUi, Gave::Ui(FromUi::Text(text)), r) <==> r == Turn::ToCore(text),
        follows(id, Turn::ReadUi, Gave::Ui(FromUi::Binary(bytes)), r) && valid_utf8(bytes@)
            ==> r is ToCore && encode_utf8(r->ToCore_0@) == bytes@,
        follows(id, Turn::ReadUi, Gave::Ui(FromUi::Binary(bytes)), r) && !valid_utf8(bytes@) ==> r
            == Turn::Fail,
        follows(id, Turn::ReadUi, Gave::Ui(FromUi::Other), r) <==> r == Turn::ReadMessage,
        follows(id, Turn::ReadUi, Gave::Ui(FromUi::Close), r) <==> r == Turn::End,
        follows(id, Turn::ToCore(text), Gave::Done, r) <==> r == Turn::ReadMessage,
        follows(id, Turn::ReadMessage, Gave::Core(Some(text)), r) <==> r == Turn::MessageToUi(text),
        follows(id, Turn::ReadMessage, Gave::Core(None), r) <==> r == Turn::ReadEvent,
        follows(id, Turn::MessageToUi(text), Gave::Done, r) <==> r == Turn::ReadEvent,
        follows(id, Turn::ReadEvent, Gave::Core(Some(text)), r) <==> r == Turn::EventToUi(text),
        follows(id, Turn::ReadEvent, Gave::Core(None), r) <==> r == Turn::Rest,
        follows(id, Turn::EventToUi(text), Gave::Done, r) <==> r == Turn::Rest,
        follows(id, Turn::Rest, Gave::Done, r) <==> r == Turn::AskLatest,
        follows(id, Turn::GreetAgain(text), Gave::Done, r) <==> r == Turn::AskLatest,
        follows(id, Turn::Greet(text), Gave::Done, r) ==> r is GreetAgain && r->GreetAgain_0@
            == "[\"0\",\"user:logout\",false]"@,
{
    if valid_utf8(bytes@) {
        decode_utf8_encode_utf8(bytes@);
    }
}

/// A connection is ended only by hearing the id of another connection or by a close from the user
/// interface, and fails only by bytes from there that are no text.
pub proof fn only_a_close_or_another_ends(id: u32, turns: Seq<Turn>, gave: Seq<Gave>, i: int)
    requires
        run(id, turns, gave),
        0 <= i < gave.len(),
        !(turns[i] is End),
        !(turns[i] is Fail),
    ensures
        turns[i + 1] is End ==> ((turns[i] is AskLatest && gave[i] is Latest && gave[i]->Latest_0
            != id) || (turns[i] is ReadUi && gave[i] == Gave::Ui(FromUi::Close))),
        turns[i + 1] is Fail ==> turns[i] is ReadUi && gave[i] is Ui && gave[i]->Ui_0 is Binary
            && !valid_utf8(gave[i]->Ui_0->Binary_0@),
{
    assert(follows(id, turns[i], gave[i], turns[i + 1]));
}

/// What a turn cannot give leaves the connection where it is, and so does anything after its
/// end.
pub proof fn other_answers_change_nothing(id: u32, turn: Turn, gave: Gave, r: Turn)
    requires
        follows(id, turn, gave, r),
    ensures
        turn is End || turn is Fail ==> r == turn,
        turn is AskLatest && !(gave is Latest) ==> r == turn,
        turn is ReadUi && !(gave is Ui) ==> r == turn,
        (turn is ReadMessage || turn is ReadEvent) && !(gave is Core) ==> r == turn,
        (turn is Greet || turn is GreetAgain || turn is ToCore || turn is MessageToUi
            || turn is EventToUi || turn is Rest) && !(gave is Done) ==> r == turn,
{
}

} // verus!
