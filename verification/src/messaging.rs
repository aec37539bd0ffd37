//! The channels between the core and its user interface: what is sent where, and what is
//! received from where. A caller reads the configuration and moves the bytes; what is here
//! says which entry to read, which channel to use, and what to make of the reply.

use vstd::prelude::*;
use vstd::string::*;
use vstd::utf8::*;

use crate::error::{ErrorView, TError, TResult};
use crate::models::model;
use crate::text::{join2, join3, text_from_utf8};

verus! {

/// The entry of the configuration, under `messaging`, that names the channel of events or
/// of messages.
pub open spec fn switch(event: bool) -> Seq<char> {
    if event {
        "events"@
    } else {
        "reqres"@
    }
}

/// The channel by which messages go into the core.
pub open spec fn in_channel(configured: Seq<char>) -> Seq<char> {
    configured + "-core-in"@
}

/// The channel by which messages or events come out of the core. The reply to a message
/// with an id has a channel of its own.
pub open spec fn out_channel(configured: Seq<char>, event: bool, id: Option<Seq<char>>) -> Seq<
    char,
> {
    match id {
        Some(id) => configured + "-core-out:"@ + id,
        None => if event {
            configured
        } else {
            configured + "-core-out"@
        },
    }
}

/// A message on its way into the core.
pub struct Sending {
    pub message: String,
}

/// A wait for a message or an event out of the core.
pub struct Receiving {
    /// An event is awaited, not a message.
    pub event: bool,
    /// The id of the message whose reply is awaited, if it is one reply alone.
    pub id: Option<String>,
    /// The wait lasts until something comes.
    pub blocking: bool,
}

/// Sends a message into the core.
pub fn send(msg: String) -> (r: Sending)
    ensures
        r.message@ == msg@,
{
    Sending { message: msg }
}

impl Sending {
    /// The entry of the configuration that names the channel.
    pub fn config_path(&self) -> (r: (&'static str, &'static str))
        ensures
            r.0@ == "messaging"@,
            r.1@ == switch(false),
            r.1@ == "reqres"@,
    {
        ("messaging", "reqres")
    }

    /// The channel to send by, for what the configuration gave.
    pub fn channel(&self, configured: TResult<String>) -> (r: TResult<String>)
        ensures
            match configured {
                Ok(c) => r is Ok && r->Ok_0@ == in_channel(c@) && r->Ok_0@ == c@ + "-core-in"@,
                Err(e) => r == Err::<String, TError>(e),
            },
    {
        match configured {
            Ok(c) => Ok(join2(c.as_str(), "-core-in")),
            Err(e) => Err(e),
        }
    }
}

/// Receives a message or an event (blocking).
pub fn recv_impl(event: bool, msg_id: Option<&str>) -> (r: Receiving)
    ensures
        r.event == event,
        r.blocking,
        model::text_view(r.id) == text_view(msg_id),
        r.id is Some <==> msg_id is Some,
        msg_id matches Some(id) ==> r.id->0@ == id@,
{
    Receiving { event, id: owned(msg_id), blocking: true }
}

/// Receives a message or an event (non-blocking).
pub fn recv_nb_impl(event: bool, msg_id: Option<&str>) -> (r: Receiving)
    ensures
        r.event == event,
        !r.blocking,
        model::text_view(r.id) == text_view(msg_id),
        r.id is Some <==> msg_id is Some,
        msg_id matches Some(id) ==> r.id->0@ == id@,
{
    Receiving { event, id: owned(msg_id), blocking: false }
}

/// The text of a string that may be absent.
pub open spec fn text_view(text: Option<&str>) -> Option<Seq<char>> {
    match text {
        Some(s) => Some(s@),
        None => None,
    }
}

fn owned(text: Option<&str>) -> (r: Option<String>)
    ensures
        model::text_view(r) == text_view(text),
{
    match text {
        Some(s) => Some(s.to_owned()),
        None => None,
    }
}

/// Receives a message (blocking).
pub fn recv(msg_id: Option<&str>) -> (r: Receiving)
    ensures
        !r.event,
        r.blocking,
        model::text_view(r.id) == text_view(msg_id),
        r.id is Some <==> msg_id is Some,
        msg_id matches Some(id) ==> r.id->0@ == id@,
{
    recv_impl(false, msg_id)
}

/// Receives an event (blocking).
pub fn recv_event() -> (r: Receiving)
    ensures
        r.event,
        r.blocking,
        r.id is None,
{
    recv_impl(true, None)
}

/// Receives a message (non-blocking).
pub fn recv_nb(msg_id: Option<&str>) -> (r: Receiving)
    ensures
        !r.event,
        !r.blocking,
        model::text_view(r.id) == text_view(msg_id),
        r.id is Some <==> msg_id is Some,
        msg_id matches Some(id) ==> r.id->0@ == id@,
{
    recv_nb_impl(false, msg_id)
}

/// Receives an event (non-blocking).
pub fn recv_event_nb() -> (r: Receiving)
    ensures
        r.event,
        !r.blocking,
        r.id is None,
{
    recv_nb_impl(true, None)
}

/// What is made of the bytes that a channel gave.
pub open spec fn received(bytes: Seq<u8>) -> Result<Seq<char>, ErrorView> {
    if valid_utf8(bytes) {
        Ok(decode_utf8(bytes))
    } else {
        Err(ErrorView::Utf8)
    }
}

/// What is made of the bytes that a channel gave without a wait, if it gave any.
pub open spec fn received_nb(bytes: Option<Seq<u8>>) -> Result<Option<Seq<char>>, ErrorView> {
    match bytes {
        Some(b) => match received(b) {
            Ok(s) => Ok(Some(s)),
            Err(e) => Err(e),
        },
        None => Ok(None),
    }
}

impl Receiving {
    /// The entry of the configuration that names the channel.
    pub fn config_path(&self) -> (r: (&'static str, &'static str))
        ensures
            r.0@ == "messaging"@,
            r.1@ == switch(self.event),
            self.event ==> r.1@ == "events"@,
            !self.event ==> r.1@ == "reqres"@,
    {
        if self.event {
            ("messaging", "events")
        } else {
            ("messaging", "reqres")
        }
    }

    /// The channel to receive from, for what the configuration gave.
    pub fn channel(&self, configured: TResult<String>) -> (r: TResult<String>)
        ensures
            match configured {
                Ok(c) => {
                    &&& r is Ok
                    &&& r->Ok_0@ == out_channel(c@, self.event, model::text_view(self.id))
                    &&& self.id matches Some(id) ==> r->Ok_0@ == c@ + "-core-out:"@ + id@
                    &&& self.id is None && self.event ==> r->Ok_0@ == c@
                    &&& self.id is None && !self.event ==> r->Ok_0@ == c@ + "-core-out"@
                },
                Err(e) => r == Err::<String, TError>(e),
            },
    {
        match configured {
            Ok(c) => Ok(
                match &self.id {
                    Some(id) => join3(c.as_str(), "-core-out:", id.as_str()),
                    None => if self.event {
                        c
                    } else {
                        join2(c.as_str(), "-core-out")
                    },
                },
            ),
            Err(e) => Err(e),
        }
    }

    /// The message, for what the channel gave: bytes or an error.
    pub fn message(&self, got: TResult<Vec<u8>>) -> (r: TResult<String>)
        ensures
            match got {
                Ok(bytes) => match r {
                    Ok(s) => received(bytes@) == Ok::<Seq<char>, ErrorView>(s@),
                    Err(e) => received(bytes@) == Err::<Seq<char>, ErrorView>(e@),
                },
                Err(e) => r == Err::<String, TError>(e),
            },
            got matches Ok(bytes) ==> {
                &&& valid_utf8(bytes@) ==> r is Ok && r->Ok_0@ == decode_utf8(bytes@)
                &&& !valid_utf8(bytes@) ==> r is Err && r->Err_0@ == ErrorView::Utf8
            },
    {
        match got {
            Ok(bytes) => match text_from_utf8(bytes) {
                Some(s) => Ok(s),
                None => Err(TError::Utf8),
            },
            Err(e) => Err(e),
        }
    }

    /// The message, for what the channel gave without a wait: bytes, nothing as yet, or an
    /// error.
    pub fn message_nb(&self, got: TResult<Option<Vec<u8>>>) -> (r: TResult<Option<String>>)
        ensures
            match got {
                Ok(bytes) => match r {
                    Ok(s) => received_nb(model::key_view(bytes)) == Ok::<
                        Option<Seq<char>>,
                        ErrorView,
                    >(model::text_view(s)),
                    Err(e) => received_nb(model::key_view(bytes)) == Err::<
                        Option<Seq<char>>,
                        ErrorView,
                    >(e@),
                },
                Err(e) => r == Err::<Option<String>, TError>(e),
            },
            got matches Ok(None) ==> r == Ok::<Option<String>, TError>(None),
            got matches Ok(Some(bytes)) ==> {
                &&& valid_utf8(bytes@) ==> r is Ok && r->Ok_0 is Some && r->Ok_0->0@
                    == decode_utf8(bytes@)
                &&& !valid_utf8(bytes@) ==> r is Err && r->Err_0@ == ErrorView::Utf8
            },
    {
        match got {
            Ok(Some(bytes)) => match self.message(Ok(bytes)) {
                Ok(s) => Ok(Some(s)),
                Err(e) => Err(e),
            },
            Ok(None) => Ok(None),
            Err(e) => Err(e),
        }
    }
}

/// Waits for different replies use different channels: for messages with different ids, also
/// where one is empty, and for one with an id and those without.
pub proof fn replies_do_not_mix(
    configured: Seq<char>,
    a: Option<Seq<char>>,
    b: Option<Seq<char>>,
)
    requires
        a != b,
    ensures
        out_channel(configured, false, a) != out_channel(configured, false, b),
{
    let n = (configured + "-core-out:"@).len() as int;
    let x = out_channel(configured, false, a);
    let y = out_channel(configured, false, b);
    reveal_strlit("-core-out:");
    reveal_strlit("-core-out");
    match (a, b) {
        (Some(i), Some(j)) => {
            assert(x.skip(n) =~= i);
            assert(y.skip(n) =~= j);
        },
        (Some(_), None) => {
            assert(x.len() > y.len());
        },
        (None, Some(_)) => {
            assert(x.len() < y.len());
        },
        (None, None) => {},
    }
}

/// Whether a receiver waits or not makes no other difference: for the same thing awaited, the
/// channel is the same, the bytes that it holds give the same message or the same error, and
/// without a wait there may be nothing as yet.
pub proof fn waiting_makes_no_difference(
    wait: Receiving,
    no_wait: Receiving,
    configured: Seq<char>,
    bytes: Seq<u8>,
)
    requires
        no_wait.event == wait.event,
        model::text_view(no_wait.id) == model::text_view(wait.id),
    ensures
        switch(no_wait.event) == switch(wait.event),
        out_channel(configured, no_wait.event, model::text_view(no_wait.id)) == out_channel(
            configured,
            wait.event,
            model::text_view(wait.id),
        ),
        forall|s: Seq<char>|
            received_nb(Some(bytes)) == Ok::<Option<Seq<char>>, ErrorView>(Some(s)) <==> received(
                bytes,
            ) == Ok::<Seq<char>, ErrorView>(s),
        forall|e: ErrorView|
            received_nb(Some(bytes)) == Err::<Option<Seq<char>>, ErrorView>(e) <==> received(bytes)
                == Err::<Seq<char>, ErrorView>(e),
        received_nb(Some(bytes)) != Ok::<Option<Seq<char>>, ErrorView>(None),
        received_nb(None) == Ok::<Option<Seq<char>>, ErrorView>(None),
{
}

/// What comes out of the core does not go into it: with one configured name, none of the
/// channels out is the channel in, and events do not come by the channels of messages.
pub proof fn directions_do_not_mix(configured: Seq<char>, event: bool, id: Option<Seq<char>>)
    ensures
        out_channel(configured, event, id) != in_channel(configured),
        out_channel(configured, true, None) != out_channel(configured, false, id),
{
    let n = configured.len() as int;
    let into = in_channel(configured);
    let out = out_channel(configured, event, id);
    reveal_strlit("-core-out:");
    reveal_strlit("-core-out");
    reveal_strlit("-core-in");
    assert(into.len() == n + 8);
    assert(into[n + 6] == 'i');
    match id {
        Some(id) => {
            assert(out[n + 6] == 'o');
        },
        None => {
            if !event {
                assert(out[n + 6] == 'o');
            }
        },
    }
}

/// A text that was sent as bytes is received as the text.
pub proof fn texts_arrive(text: Seq<char>)
    ensures
        received(encode_utf8(text)) == Ok::<Seq<char>, ErrorView>(text),
{
    encode_utf8_valid_utf8(text);
    encode_utf8_decode_utf8(text);
}

/// The channel of the reply to a message is the channel without an id, a colon, and the id
/// character by character; nothing follows. The channel without an id is the configured name
/// and nine characters, that of events the configured name itself, and the channel into the
/// core the configured name and eight characters.
pub proof fn channels_spell_their_parts(configured: Seq<char>, event: bool, id: Seq<char>)
    ensures
        ({
            let n = configured.len() as int;
            let reply = out_channel(configured, event, Some(id));
            let any = out_channel(configured, false, None);
            let into = in_channel(configured);
            &&& reply.len() == n + 10 + id.len()
            &&& forall|i: int| 0 <= i < n ==> #[trigger] reply[i] == configured[i]
            &&& reply.subrange(n, n + 10) == seq!['-', 'c', 'o', 'r', 'e', '-', 'o', 'u', 't', ':']
            &&& forall|i: int| 0 <= i < id.len() ==> reply[n + 10 + i] == #[trigger] id[i]
            &&& reply == any + seq![':'] + id
            &&& any == reply.take(n + 9)
            &&& out_channel(configured, true, None) == configured
            &&& into.len() == n + 8
            &&& forall|i: int| 0 <= i < n ==> #[trigger] into[i] == configured[i]
            &&& into.skip(n) == seq!['-', 'c', 'o', 'r', 'e', '-', 'i', 'n']
        }),
{
    reveal_strlit("-core-out:");
    reveal_strlit("-core-out");
    reveal_strlit("-core-in");
    let n = configured.len() as int;
    let reply = out_channel(configured, event, Some(id));
    let any = out_channel(configured, false, None);
    let into = in_channel(configured);
    assert(reply =~= any + seq![':'] + id);
    assert(any =~= reply.take(n + 9));
    assert(reply.subrange(n, n + 10) =~= "-core-out:"@);
    assert("-core-out:"@ =~= seq!['-', 'c', 'o', 'r', 'e', '-', 'o', 'u', 't', ':']);
    assert(into.skip(n) =~= "-core-in"@);
    assert("-core-in"@ =~= seq!['-', 'c', 'o', 'r', 'e', '-', 'i', 'n']);
}

/// Events and messages are configured under different entries.
pub proof fn switches_differ()
    ensures
        switch(true) == seq!['e', 'v', 'e', 'n', 't', 's'],
        switch(false) == seq!['r', 'e', 'q', 'r', 'e', 's'],
{
    reveal_strlit("events");
    reveal_strlit("reqres");
    assert(switch(true) =~= seq!['e', 'v', 'e', 'n', 't', 's']);
    assert(switch(false) =~= seq!['r', 'e', 'q', 'r', 'e', 's']);
}

/// Bytes are received as the text whose bytes they are, and only if there is one.
pub proof fn only_texts_arrive(bytes: Seq<u8>)
    ensures
        received(bytes) is Ok <==> exists|text: Seq<char>| #[trigger] encode_utf8(text) == bytes,
        received(bytes) matches Ok(text) ==> encode_utf8(text) == bytes,
        received(bytes) is Err ==> received(bytes) == Err::<Seq<char>, ErrorView>(ErrorView::Utf8),
        received_nb(Some(bytes)) is Ok <==> received(bytes) is Ok,
        received(bytes) matches Ok(text) ==> received_nb(Some(bytes)) == Ok::<
            Option<Seq<char>>,
            ErrorView,
        >(Some(text)),
{
    if valid_utf8(bytes) {
        decode_utf8_encode_utf8(bytes);
        assert(encode_utf8(decode_utf8(bytes)) == bytes);
    }
    assert forall|text: Seq<char>| #[trigger] encode_utf8(text) == bytes implies valid_utf8(
        bytes,
    ) by {
        encode_utf8_valid_utf8(text);
    }
}

} // verus!
