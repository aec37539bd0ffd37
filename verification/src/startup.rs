//! How the core is brought up. Each step that touches the machine is done by the caller,
//! which then reports how it went; what is here says which step comes next.

use vstd::prelude::*;

use crate::error::{TError, TResult};
use crate::json;
use crate::json::{Json, JsonView, Object};
use crate::text::same_text;

verus! {

/// Brings up what the program needs, for what setting the logger up gave: done, or why it
/// could not be.
pub fn init(logger: Result<(), String>) -> (r: TResult<()>)
    ensures
        match logger {
            Ok(_) => r is Ok,
            Err(e) => r == Err::<(), TError>(TError::Msg(e)),
        },
{
    match logger {
        Ok(_) => Ok(()),
        Err(e) => Err(TError::Msg(e)),
    }
}

/// What a runtime configuration says: a text that is not JSON says nothing.
pub open spec fn runtime_config(text: Seq<char>) -> JsonView {
    configured(json::json_read(text))
}

/// What was read of a runtime configuration, or nothing.
pub open spec fn configured(read: Option<JsonView>) -> JsonView {
    match read {
        Some(j) => j,
        None => JsonView::Object(Map::empty()),
    }
}

/// What to merge into the configuration of the program, for what was read of the runtime
/// configuration.
pub fn config_or_empty(read: Option<Json>) -> (r: Json)
    ensures
        r@ == configured(match read {
            Some(v) => Some(v@),
            None => None,
        }),
        read matches Some(v) ==> r@ == v@,
        read is None ==> r@ == JsonView::Object(Map::empty()),
{
    match read {
        Some(v) => v,
        None => Json::Object(Object::new()),
    }
}

/// What to merge into the configuration of the program, over what stands there.
pub fn process_runtime_config(config_str: &str) -> (r: Json)
    ensures
        r@ == runtime_config(config_str@),
        json::json_read(config_str@) matches Some(j) ==> r@ == j,
        json::json_read(config_str@) is None ==> r@ == JsonView::Object(Map::empty()),
{
    match json::parse(config_str) {
        Ok(v) => config_or_empty(Some(v)),
        Err(_) => config_or_empty(None),
    }
}

/// The entry of the configuration that names the data folder.
pub fn folder_config_path() -> (r: &'static str)
    ensures
        r@ == "data_folder"@,
{
    "data_folder"
}

/// The name of a data folder that is none: the data are kept in memory.
pub open spec fn in_memory(folder: Seq<char>) -> bool {
    folder == ":memory:"@
}

/// What the core does next while it is up.
pub enum Start {
    /// Merges this into the configuration, and goes on in a thread of its own.
    Configure(Json),
    /// Reads the entry of the configuration that names the data folder.
    ReadFolder,
    /// Creates this folder.
    CreateFolder(String),
    /// Creates the state that all messages are dispatched to.
    CreateTurtl,
    /// Receives messages, each dispatched by a thread of its own, until told to stop.
    Serve,
    /// Nothing: the core is down, after an error or in order.
    Down(TResult<()>),
}

/// How a step went.
pub enum Started {
    Configured,
    Folder(TResult<String>),
    FolderCreated(TResult<()>),
    TurtlCreated(TResult<()>),
    /// Receiving ended; if that was by an error, it is logged.
    Served(TResult<()>),
}

/// Starts the core.
pub fn start(config_str: &str) -> (r: Start)
    ensures
        r matches Start::Configure(v) && v@ == runtime_config(config_str@),
        json::json_read(config_str@) matches Some(j) ==> r->Configure_0@ == j,
        json::json_read(config_str@) is None ==> r->Configure_0@ == JsonView::Object(Map::empty()),
{
    Start::Configure(process_runtime_config(config_str))
}

/// What comes after a step, for how it went. A report that is not on the step at hand
/// changes nothing.
pub open spec fn next_step(step: Start, how: Started) -> Start {
    match (step, how) {
        (Start::Configure(_), Started::Configured) => Start::ReadFolder,
        (Start::ReadFolder, Started::Folder(Ok(folder))) => if in_memory(folder@) {
            Start::CreateTurtl
        } else {
            Start::CreateFolder(folder)
        },
        (Start::ReadFolder, Started::Folder(Err(e))) => Start::Down(Err(e)),
        (Start::CreateFolder(_), Started::FolderCreated(Ok(_))) => Start::CreateTurtl,
        (Start::CreateFolder(_), Started::FolderCreated(Err(e))) => Start::Down(Err(e)),
        (Start::CreateTurtl, Started::TurtlCreated(Ok(_))) => Start::Serve,
        (Start::CreateTurtl, Started::TurtlCreated(Err(e))) => Start::Down(Err(e)),
        (Start::Serve, Started::Served(_)) => Start::Down(Ok(())),
        _ => step,
    }
}

impl Start {
    /// What comes after a step, for how it went.
    pub fn next(self, how: Started) -> (r: Start)
        ensures
            r == next_step(self, how),
    {
        match (self, how) {
            (Start::Configure(_), Started::Configured) => Start::ReadFolder,
            (Start::ReadFolder, Started::Folder(folder)) => match folder {
                Ok(folder) => if same_text(folder.as_str(), ":memory:") {
                    Start::CreateTurtl
                } else {
                    Start::CreateFolder(folder)
                },
                Err(e) => Start::Down(Err(e)),
            },
            (Start::CreateFolder(_), Started::FolderCreated(done)) => match done {
                Ok(_) => Start::CreateTurtl,
                Err(e) => Start::Down(Err(e)),
            },
            (Start::CreateTurtl, Started::TurtlCreated(done)) => match done {
                Ok(_) => Start::Serve,
                Err(e) => Start::Down(Err(e)),
            },
            (Start::Serve, Started::Served(_)) => Start::Down(Ok(())),
            (step, _) => step,
        }
    }
}

/// Where the core is after reports in order.
pub open spec fn after(step: Start, reports: Seq<Started>) -> Start
    decreases reports.len(),
{
    if reports.len() == 0 {
        step
    } else {
        next_step(after(step, reports.drop_last()), reports.last())
    }
}

/// A core that is down stays down.
pub proof fn down_is_final(r: TResult<()>, reports: Seq<Started>)
    ensures
        after(Start::Down(r), reports) == Start::Down(r),
    decreases reports.len(),
{
    if reports.len() > 0 {
        down_is_final(r, reports.drop_last());
    }
}

/// The core ends with the first error on its way up, if there is one: of reading the folder,
/// of creating it (unless the data are kept in memory), or of creating the state. What ends
/// the receiving of messages is no such error.
pub proof fn core_ends_with_first_error(
    config: Json,
    folder: TResult<String>,
    created: TResult<()>,
    turtl: TResult<()>,
    served: TResult<()>,
)
    ensures
        after(
            Start::Configure(config),
            seq![
                Started::Configured,
                Started::Folder(folder),
                Started::FolderCreated(created),
                Started::TurtlCreated(turtl),
                Started::Served(served),
            ],
        ) == Start::Down(
            match folder {
                Err(e) => Err(e),
                Ok(f) => match (in_memory(f@), created, turtl) {
                    (false, Err(e), _) => Err(e),
                    (_, _, Err(e)) => Err(e),
                    _ => Ok(()),
                },
            },
        ),
{
    let all = seq![
        Started::Configured,
        Started::Folder(folder),
        Started::FolderCreated(created),
        Started::TurtlCreated(turtl),
        Started::Served(served),
    ];
    assert(all.drop_last() =~= all.take(4));
    assert(all.take(4).drop_last() =~= all.take(3));
    assert(all.take(3).drop_last() =~= all.take(2));
    assert(all.take(2).drop_last() =~= all.take(1));
    assert(all.take(1).drop_last() =~= all.take(0));
    let start = Start::Configure(config);
    assert(after(start, all.take(0)) == start);
    assert(after(start, all.take(1)) == Start::ReadFolder);
    assert(after(start, all.take(2)) == next_step(Start::ReadFolder, Started::Folder(folder)));
    assert(after(start, all.take(3)) == next_step(
        after(start, all.take(2)),
        Started::FolderCreated(created),
    ));
    assert(after(start, all.take(4)) == next_step(
        after(start, all.take(3)),
        Started::TurtlCreated(turtl),
    ));
}

/// What the runtime configuration says is merged as it is, with every entry of it: if the text
/// reads as a value, that value, and else an object without an entry.
pub proof fn config_is_merged_as_it_is(text: Seq<char>, j: JsonView, name: Seq<char>)
    ensures
        json::json_read(text) == Some(j) ==> runtime_config(text) == j,
        configured(Some(j)) == j,
        json::json_read(text) is None ==> runtime_config(text) is Object
            && !runtime_config(text)->Object_0.dom().contains(name),
        configured(None) == JsonView::Object(Map::empty()),
{
}

/// A value that was written as text, and that the text reads back as, is what the core is
/// configured with: different values configure differently.
pub proof fn written_config_is_merged(a: JsonView, b: JsonView)
    requires
        json::json_read(json::json_written(a)) == Some(a),
        json::json_read(json::json_written(b)) == Some(b),
    ensures
        runtime_config(json::json_written(a)) == a,
        runtime_config(json::json_written(a)) == runtime_config(json::json_written(b)) ==> a == b,
{
}

/// Which step follows which: the folder that was read is created as it is, unless the data are
/// kept in memory; every error ends the core with that error; and only the report on a step moves
/// it.
pub proof fn steps_follow(config: Json, folder: String, e: TError, how: Started)
    ensures
        next_step(Start::Configure(config), Started::Configured) == Start::ReadFolder,
        folder@ == seq![':', 'm', 'e', 'm', 'o', 'r', 'y', ':'] ==> next_step(
            Start::ReadFolder,
            Started::Folder(Ok(folder)),
        ) == Start::CreateTurtl,
        folder@ != seq![':', 'm', 'e', 'm', 'o', 'r', 'y', ':'] ==> next_step(
            Start::ReadFolder,
            Started::Folder(Ok(folder)),
        ) == Start::CreateFolder(folder),
        next_step(Start::ReadFolder, Started::Folder(Err(e))) == Start::Down(Err(e)),
        next_step(Start::CreateFolder(folder), Started::FolderCreated(Ok(())))
            == Start::CreateTurtl,
        next_step(Start::CreateFolder(folder), Started::FolderCreated(Err(e))) == Start::Down(
            Err(e),
        ),
        next_step(Start::CreateTurtl, Started::TurtlCreated(Ok(()))) == Start::Serve,
        next_step(Start::CreateTurtl, Started::TurtlCreated(Err(e))) == Start::Down(Err(e)),
        next_step(Start::Serve, Started::Served(Ok(()))) == Start::Down(Ok(())),
        next_step(Start::Serve, Started::Served(Err(e))) == Start::Down(Ok(())),
        !(how is Configured) ==> next_step(Start::Configure(config), how) == Start::Configure(
            config,
        ),
        !(how is Folder) ==> next_step(Start::ReadFolder, how) == Start::ReadFolder,
        !(how is FolderCreated) ==> next_step(Start::CreateFolder(folder), how)
            == Start::CreateFolder(folder),
        !(how is TurtlCreated) ==> next_step(Start::CreateTurtl, how) == Start::CreateTurtl,
        !(how is Served) ==> next_step(Start::Serve, how) == Start::Serve,
        next_step(Start::Down(Ok(())), how) == Start::Down(Ok(())),
        next_step(Start::Down(Err(e)), how) == Start::Down(Err(e)),
{
    reveal_strlit(":memory:");
    assert(":memory:"@ =~= seq![':', 'm', 'e', 'm', 'o', 'r', 'y', ':']);
}

} // verus!
