//! The interface to C programs: what its functions make of their arguments, and which codes
//! they return. A caller turns pointers into bytes and does what touches the machine.

use vstd::prelude::*;
use vstd::string::*;
use vstd::utf8::*;

use crate::error::TResult;
use crate::messaging;
use crate::models::model;
use crate::text;
use crate::text::{contains_nul, join2, join3, text_from_utf8};

verus! {

/// The code for all is well.
pub const DONE: i32 = 0;

/// The code for a null pointer in place of a configuration.
pub const NO_CONFIG: i32 = -1;

/// The code for a configuration that is not text, and for what could not be brought up.
pub const NOT_UP: i32 = -3;

/// The code for a core that panicked while it was waited for.
pub const NOT_JOINED: i32 = -4;

/// The code for a panic on the way up.
pub const PANICKED: i32 = -5;

/// The code for a channel that the configuration does not name.
pub const NO_CHANNEL: i32 = -5;

/// The code for a channel whose name cannot be a C string.
pub const BAD_CHANNEL: i32 = -6;

/// What C gets of a send for which no channel can be had: the configuration does not name
/// one, or the name cannot be a C string.
pub open spec fn send_error(configured: Option<Seq<char>>) -> Option<i32> {
    match configured {
        None => Some(NO_CHANNEL),
        Some(c) => if text::has_nul(messaging::in_channel(c)) {
            Some(BAD_CHANNEL)
        } else {
            None
        },
    }
}

/// The text of a result, if it is one.
pub open spec fn ok_text(r: TResult<String>) -> Option<Seq<char>> {
    match r {
        Ok(s) => Some(s@),
        Err(_) => None,
    }
}

/// The entry of the configuration that names the channel to send by.
pub fn send_config_path() -> (r: (&'static str, &'static str))
    ensures
        r.0@ == "messaging"@,
        r.1@ == messaging::switch(false),
        r.1@ == "reqres"@,
{
    ("messaging", "reqres")
}

/// The channel to send by, for what the configuration gave, or the code to return.
pub fn turtlc_send(configured: TResult<String>) -> (r: Result<String, i32>)
    ensures
        match r {
            Ok(channel) => {
                &&& send_error(ok_text(configured)) is None
                &&& channel@ == messaging::in_channel(configured->Ok_0@)
            },
            Err(code) => send_error(ok_text(configured)) == Some(code),
        },
        match configured {
            Err(_) => r is Err && r->Err_0 as int == -5,
            Ok(c) => if c@.contains('\0') {
                r is Err && r->Err_0 as int == -6
            } else {
                r is Ok && r->Ok_0@ == c@ + "-core-in"@
            },
        },
{
    let channel = match configured {
        Ok(c) => join2(c.as_str(), "-core-in"),
        Err(_) => return Err(NO_CHANNEL),
    };
    proof {
        nul_in_sending(configured->Ok_0@);
    }
    if contains_nul(channel.as_str()) {
        return Err(BAD_CHANNEL);
    }
    Ok(channel)
}

/// A wait for a message or an event, as C asks for it.
pub struct Wait {
    /// An event is awaited, not a message.
    pub event: bool,
    /// The bytes of the id of a message whose reply is awaited, unless the pointer is null.
    pub msgid: Option<Vec<u8>>,
    /// The wait lasts until something comes.
    pub blocking: bool,
}

/// The id that the bytes of one stand for: none where there are none, and nothing at all
/// where they are not text.
pub open spec fn id_of(msgid: Option<Seq<u8>>) -> Option<Option<Seq<char>>> {
    match msgid {
        None => Some(None),
        Some(bytes) => if !valid_utf8(bytes) {
            None
        } else if decode_utf8(bytes).len() == 0 {
            Some(None)
        } else {
            Some(Some(decode_utf8(bytes)))
        },
    }
}

/// The channel by which C receives: the replies to a message with an id have a channel of
/// their own.
pub open spec fn wait_channel(configured: Seq<char>, event: bool, id: Option<Seq<char>>) -> Seq<
    char,
> {
    let start = configured + (if event {
        ""@
    } else {
        "-core-out"@
    });
    match id {
        Some(id) => start + ":"@ + id,
        None => start,
    }
}

/// A wait for a message or an event.
pub fn turtlc_recv_any(non_block: u8, event: u8, msgid: Option<Vec<u8>>) -> (r: Wait)
    ensures
        r.event == (event == 1),
        r.blocking == (non_block != 1),
        r.msgid == msgid,
{
    Wait { event: event == 1, msgid, blocking: non_block != 1 }
}

/// A wait for a message.
pub fn turtlc_recv(non_block: u8, msgid: Option<Vec<u8>>) -> (r: Wait)
    ensures
        !r.event,
        r.blocking == (non_block != 1),
        r.msgid == msgid,
{
    turtlc_recv_any(non_block, 0, msgid)
}

/// A wait for an event.
pub fn turtlc_recv_event(non_block: u8) -> (r: Wait)
    ensures
        r.event,
        r.blocking == (non_block != 1),
        r.msgid is None,
{
    turtlc_recv_any(non_block, 1, None)
}

/// The channel that a wait is for, if there is one that can be a C string.
pub open spec fn wait_outcome(
    configured: Option<Seq<char>>,
    event: bool,
    msgid: Option<Seq<u8>>,
) -> Option<Seq<char>> {
    match (configured, id_of(msgid)) {
        (Some(c), Some(id)) => if text::has_nul(wait_channel(c, event, id)) {
            None
        } else {
            Some(wait_channel(c, event, id))
        },
        _ => None,
    }
}

impl Wait {
    /// The entry of the configuration that names the channel.
    pub fn config_path(&self) -> (r: (&'static str, &'static str))
        ensures
            r.0@ == "messaging"@,
            r.1@ == messaging::switch(self.event),
            self.event ==> r.1@ == "events"@,
            !self.event ==> r.1@ == "reqres"@,
    {
        if self.event {
            ("messaging", "events")
        } else {
            ("messaging", "reqres")
        }
    }

    /// The channel to receive from, for what the configuration gave; C gets a null pointer
    /// where there is none.
    pub fn channel(&self, configured: TResult<String>) -> (r: Option<String>)
        ensures
            model::text_view(r) == wait_outcome(
                ok_text(configured),
                self.event,
                model::key_view(self.msgid),
            ),
            configured is Err ==> r is None,
            self.msgid matches Some(bytes) ==> !valid_utf8(bytes@) ==> r is None,
            configured matches Ok(c) ==> (match self.msgid {
                Some(bytes) => valid_utf8(bytes@) ==> (if bytes@.len() == 0 {
                    match r {
                        Some(s) => s@ == c@ + (if self.event {
                            ""@
                        } else {
                            "-core-out"@
                        }),
                        None => c@.contains('\0'),
                    }
                } else {
                    match r {
                        Some(s) => s@ == c@ + (if self.event {
                            ""@
                        } else {
                            "-core-out"@
                        }) + ":"@ + decode_utf8(bytes@),
                        None => c@.contains('\0') || decode_utf8(bytes@).contains('\0'),
                    }
                }),
                None => match r {
                    Some(s) => s@ == c@ + (if self.event {
                        ""@
                    } else {
                        "-core-out"@
                    }),
                    None => c@.contains('\0'),
                },
            }),
    {
        let configured = match configured {
            Ok(c) => c,
            Err(_) => return None,
        };
        let suffix = match &self.msgid {
            None => "".to_owned(),
            Some(bytes) => {
                let copy = bytes.clone();
                assert(copy@ =~= bytes@);
                match text_from_utf8(copy) {
                    Some(s) => s,
                    None => return None,
                }
            },
        };
        proof {
            reveal_strlit("");
        }
        let append = if self.event {
            ""
        } else {
            "-core-out"
        };
        let mut channel = join2(configured.as_str(), append);
        if suffix.as_str().unicode_len() > 0 {
            channel = join3(channel.as_str(), ":", suffix.as_str());
        }
        proof {
            match &self.msgid {
                Some(bytes) => {
                    decode_utf8_encode_utf8(bytes@);
                    nul_in_channel(configured@, self.event, id_of(Some(bytes@))->0);
                },
                None => {
                    nul_in_channel(configured@, self.event, None);
                },
            }
        }
        if contains_nul(channel.as_str()) {
            return None;
        }
        Some(channel)
    }
}

/// C and Rust programs meet on the same channels: for messages without an id, for the reply to
/// a message with an id that is not empty, and for events.
pub proof fn both_interfaces_meet(configured: Seq<char>, id: Seq<char>)
    ensures
        wait_channel(configured, false, None) == messaging::out_channel(configured, false, None),
        wait_channel(configured, false, Some(id)) == messaging::out_channel(
            configured,
            false,
            Some(id),
        ),
        wait_channel(configured, true, None) == messaging::out_channel(configured, true, None),
        id.len() > 0 ==> id_of(Some(encode_utf8(id))) == Some(Some(id)),
        id_of(None) == Some(None::<Seq<char>>),
{
    reveal_strlit("");
    reveal_strlit(":");
    reveal_strlit("-core-out");
    reveal_strlit("-core-out:");
    assert("-core-out:"@ =~= "-core-out"@ + ":"@);
    assert(wait_channel(configured, false, Some(id)) =~= messaging::out_channel(
        configured,
        false,
        Some(id),
    ));
    assert(wait_channel(configured, true, None) =~= configured);
    encode_utf8_valid_utf8(id);
    encode_utf8_decode_utf8(id);
}

/// What starting the core from C does next.
pub enum Launch {
    /// Brings up what the program needs.
    Init { config: String, threaded: u8 },
    /// Starts the core with this runtime configuration.
    Start { config: String, threaded: u8 },
    /// Waits for the core to end.
    Join,
    /// Nothing: this code is returned to C.
    Return(i32),
}

/// How a step of starting the core went.
pub enum Launched {
    /// What the program needs is up, or could not be brought up.
    Initialized(TResult<()>),
    Started,
    /// The thread of the core ended in order, or it panicked.
    Joined(bool),
    /// The step panicked.
    Panicked,
}

/// Starts the core from C: with a runtime configuration, unless the pointer is null, and with
/// or without a wait for it to end.
pub fn turtlc_start(config: Option<Vec<u8>>, threaded: u8) -> (r: Launch)
    ensures
        match config {
            None => r == Launch::Return(NO_CONFIG),
            Some(bytes) => if valid_utf8(bytes@) {
                r matches Launch::Init { config, threaded: t } && config@ == decode_utf8(bytes@)
                    && t == threaded
            } else {
                r == Launch::Return(NOT_UP)
            },
        },
{
    match config {
        None => Launch::Return(NO_CONFIG),
        Some(bytes) => match text_from_utf8(bytes) {
            Some(config) => Launch::Init { config, threaded },
            None => Launch::Return(NOT_UP),
        },
    }
}

/// What comes after a step, for how it went. A report that is not on the step at hand changes
/// nothing.
pub open spec fn launch_next(step: Launch, how: Launched) -> Launch {
    match (step, how) {
        (Launch::Return(code), _) => Launch::Return(code),
        (_, Launched::Panicked) => Launch::Return(PANICKED),
        (Launch::Init { config, threaded }, Launched::Initialized(Ok(_))) => Launch::Start {
            config,
            threaded,
        },
        (Launch::Init { .. }, Launched::Initialized(Err(_))) => Launch::Return(NOT_UP),
        (Launch::Start { threaded, .. }, Launched::Started) => if threaded == 0 {
            Launch::Join
        } else {
            Launch::Return(DONE)
        },
        (Launch::Join, Launched::Joined(in_order)) => if in_order {
            Launch::Return(DONE)
        } else {
            Launch::Return(NOT_JOINED)
        },
        _ => step,
    }
}

impl Launch {
    /// What comes after a step, for how it went.
    pub fn next(self, how: Launched) -> (r: Launch)
        ensures
            r == launch_next(self, how),
    {
        match (self, how) {
            (Launch::Return(code), _) => Launch::Return(code),
            (_, Launched::Panicked) => Launch::Return(PANICKED),
            (Launch::Init { config, threaded }, Launched::Initialized(done)) => match done {
                Ok(_) => Launch::Start { config, threaded },
                Err(_) => Launch::Return(NOT_UP),
            },
            (Launch::Start { config: _, threaded }, Launched::Started) => if threaded == 0 {
                Launch::Join
            } else {
                Launch::Return(DONE)
            },
            (Launch::Join, Launched::Joined(in_order)) => if in_order {
                Launch::Return(DONE)
            } else {
                Launch::Return(NOT_JOINED)
            },
            (step, _) => step,
        }
    }
}

/// Starting the core from C gives zero exactly when everything that is done goes well; whether
/// the core ends in order matters only where that is waited for.
pub proof fn launch_succeeds_when_all_goes_well(
    config: String,
    threaded: u8,
    init: TResult<()>,
    in_order: bool,
)
    ensures
        ({
            let step = Launch::Init { config, threaded };
            let step = launch_next(step, Launched::Initialized(init));
            let step = launch_next(step, Launched::Started);
            let step = launch_next(step, Launched::Joined(in_order));
            &&& step is Return
            &&& step == Launch::Return(DONE) <==> init is Ok && (threaded != 0 || in_order)
        }),
{
}

/// The channel by which C waits for the reply to a message is the channel without an id, a colon,
/// and the id character by character. Without an id it is the configured name, followed by nine
/// characters unless it is for events.
pub proof fn wait_channels_spell_their_parts(configured: Seq<char>, id: Seq<char>)
    ensures
        ({
            let n = configured.len() as int;
            let reply = wait_channel(configured, false, Some(id));
            let any = wait_channel(configured, false, None);
            let event = wait_channel(configured, true, Some(id));
            &&& any.len() == n + 9
            &&& any.take(n) == configured
            &&& any.skip(n) == seq!['-', 'c', 'o', 'r', 'e', '-', 'o', 'u', 't']
            &&& reply.len() == n + 10 + id.len()
            &&& reply.take(n + 9) == any
            &&& reply[n + 9] == ':'
            &&& forall|i: int| 0 <= i < id.len() ==> reply[n + 10 + i] == #[trigger] id[i]
            &&& wait_channel(configured, true, None) == configured
            &&& event.len() == n + 1 + id.len()
            &&& event.take(n) == configured
            &&& event[n] == ':'
            &&& event.skip(n + 1) == id
        }),
{
    reveal_strlit("");
    reveal_strlit(":");
    reveal_strlit("-core-out");
    let n = configured.len() as int;
    let reply = wait_channel(configured, false, Some(id));
    let any = wait_channel(configured, false, None);
    let event = wait_channel(configured, true, Some(id));
    assert(any.take(n) =~= configured);
    assert(any.skip(n) =~= "-core-out"@);
    assert("-core-out"@ =~= seq!['-', 'c', 'o', 'r', 'e', '-', 'o', 'u', 't']);
    assert(reply.take(n + 9) =~= any);
    assert(wait_channel(configured, true, None) =~= configured);
    assert(event.take(n) =~= configured);
    assert(event.skip(n + 1) =~= id);
}

/// A wait has a channel exactly when the configuration names one, the bytes of the id are those of
/// a text, and neither has the character NUL; an id without a byte is as good as none.
pub proof fn waits_have_channels(configured: Seq<char>, event: bool, id: Seq<char>, bytes: Seq<u8>)
    ensures
        ({
            let got = wait_outcome(Some(configured), event, Some(encode_utf8(id)));
            let none = wait_outcome(Some(configured), event, None);
            &&& id.len() > 0 ==> (got is None <==> configured.contains('\0') || id.contains('\0'))
            &&& got matches Some(channel) ==> id.len() > 0 ==> channel == wait_channel(
                configured,
                event,
                Some(id),
            )
            &&& id.len() == 0 ==> got == none
            &&& none is None <==> configured.contains('\0')
            &&& none matches Some(channel) ==> channel == wait_channel(configured, event, None)
            &&& wait_outcome(None, event, Some(bytes)) is None
            &&& wait_outcome(None, event, None) is None
            &&& !valid_utf8(bytes) ==> wait_outcome(Some(configured), event, Some(bytes)) is None
        }),
{
    encode_utf8_valid_utf8(id);
    encode_utf8_decode_utf8(id);
    nul_in_channel(configured, event, Some(id));
    nul_in_channel(configured, event, None);
}

/// The channel to send by has the character NUL exactly where the configured name has it.
proof fn nul_in_sending(configured: Seq<char>)
    ensures
        messaging::in_channel(configured).contains('\0') == configured.contains('\0'),
{
    reveal_strlit("-core-in");
    let channel = messaging::in_channel(configured);
    if configured.contains('\0') {
        let i = choose|i: int| 0 <= i < configured.len() && configured[i] == '\0';
        assert(channel[i] == '\0');
    }
    if channel.contains('\0') {
        let i = choose|i: int| 0 <= i < channel.len() && channel[i] == '\0';
        if i < configured.len() {
            assert(configured[i] == '\0');
        }
    }
}

/// A channel has the character NUL exactly where one of its parts has it.
proof fn nul_in_channel(configured: Seq<char>, event: bool, id: Option<Seq<char>>)
    ensures
        wait_channel(configured, event, id).contains('\0') == (configured.contains('\0') || (
        id is Some && id->0.contains('\0'))),
{
    reveal_strlit("");
    reveal_strlit(":");
    reveal_strlit("-core-out");
    let channel = wait_channel(configured, event, id);
    let n = configured.len() as int;
    let m: int = if event {
        n
    } else {
        n + 9
    };
    if configured.contains('\0') {
        let i = choose|i: int| 0 <= i < configured.len() && configured[i] == '\0';
        assert(channel[i] == '\0');
    }
    match id {
        Some(id) => {
            if id.contains('\0') {
                let i = choose|i: int| 0 <= i < id.len() && id[i] == '\0';
                assert(channel[m + 1 + i] == '\0');
            }
            if channel.contains('\0') {
                let i = choose|i: int| 0 <= i < channel.len() && channel[i] == '\0';
                if i < n {
                    assert(configured[i] == '\0');
                } else if i > m {
                    assert(id[i - m - 1] == '\0');
                }
            }
        },
        None => {
            if channel.contains('\0') {
                let i = choose|i: int| 0 <= i < channel.len() && channel[i] == '\0';
                if i < n {
                    assert(configured[i] == '\0');
                }
            }
        },
    }
}

/// The codes that C gets, and when: a null pointer, what could not be brought up, a panic at any
/// step, a core that ended by a panic while it was waited for, and zero for all else. The
/// configuration goes from step to step as it is.
pub proof fn codes_tell_what_happened(
    config: String,
    threaded: u8,
    e: crate::error::TError,
    code: i32,
    how: Launched,
)
    ensures
        NO_CONFIG as int == -1,
        NOT_UP as int == -3,
        NOT_JOINED as int == -4,
        PANICKED as int == -5,
        NO_CHANNEL as int == -5,
        BAD_CHANNEL as int == -6,
        DONE as int == 0,
        launch_next(Launch::Init { config, threaded }, Launched::Initialized(Ok(())))
            == (Launch::Start { config, threaded }),
        launch_next(Launch::Init { config, threaded }, Launched::Initialized(Err(e)))
            == Launch::Return(NOT_UP),
        threaded == 0 ==> launch_next(Launch::Start { config, threaded }, Launched::Started)
            == Launch::Join,
        threaded != 0 ==> launch_next(Launch::Start { config, threaded }, Launched::Started)
            == Launch::Return(DONE),
        launch_next(Launch::Join, Launched::Joined(true)) == Launch::Return(DONE),
        launch_next(Launch::Join, Launched::Joined(false)) == Launch::Return(NOT_JOINED),
        launch_next(Launch::Init { config, threaded }, Launched::Panicked) == Launch::Return(
            PANICKED,
        ),
        launch_next(Launch::Start { config, threaded }, Launched::Panicked) == Launch::Return(
            PANICKED,
        ),
        launch_next(Launch::Join, Launched::Panicked) == Launch::Return(PANICKED),
        launch_next(Launch::Return(code), how) == Launch::Return(code),
        !(how is Initialized) && !(how is Panicked) ==> launch_next(
            Launch::Init { config, threaded },
            how,
        ) == (Launch::Init { config, threaded }),
        !(how is Started) && !(how is Panicked) ==> launch_next(
            Launch::Start { config, threaded },
            how,
        ) == (Launch::Start { config, threaded }),
        !(how is Joined) && !(how is Panicked) ==> launch_next(Launch::Join, how) == Launch::Join,
{
}

} // verus!
