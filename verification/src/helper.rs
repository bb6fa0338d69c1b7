//! The privileged helper: its command line (`--listen <socket> --owner
//! <uid>` names the socket it serves and the user allowed to connect) and
//! the decisions it takes for each request on that socket.
use vstd::prelude::*;
use crate::flash::fat_names::chars_of;
use crate::platform::windows_executor::{parse_u32, parse_u32_exec};
use crate::models::str_eq;
use crate::text::strings_view;

verus! {

/// Where the helper listens, and for whom.
#[derive(Debug)]
pub struct ListenArgs {
    pub socket: String,
    pub owner: u32,
}

/// The index of the first argument equal to `flag`, or `args.len()`.
pub open spec fn flag_index(args: Seq<Seq<char>>, flag: Seq<char>, from: int) -> int
    decreases args.len() - from,
{
    if from < 0 || from >= args.len() {
        args.len() as int
    } else if args[from] == flag {
        from
    } else {
        flag_index(args, flag, from + 1)
    }
}

/// The argument after the first `flag`, if there is one.
pub open spec fn flag_value(args: Seq<Seq<char>>, flag: Seq<char>) -> Option<Seq<char>> {
    let i = flag_index(args, flag, 0);
    if i + 1 < args.len() {
        Some(args[i + 1])
    } else {
        None
    }
}

/// The usage message for a missing flag.
pub open spec fn usage_text(flag: Seq<char>) -> Seq<char> {
    "usage: moondisk-helper --listen <socket> --owner <uid> (missing "@ + flag + ")"@
}

/// What the command line asks for, or the message for what is wrong.
pub open spec fn spec_listen_args(args: Seq<Seq<char>>) -> Result<(Seq<char>, u32), Seq<char>> {
    match flag_value(args, "--listen"@) {
        None => Err(usage_text("--listen"@)),
        Some(path) => match flag_value(args, "--owner"@) {
            None => Err(usage_text("--owner"@)),
            Some(owner) => match parse_u32(owner) {
                None => Err("--owner must be a user id"@),
                Some(uid) => Ok((path, uid)),
            },
        },
    }
}

fn value_of<'a>(args: &'a Vec<String>, flag: &str) -> (r: Result<&'a String, String>)
    ensures
        match flag_value(strings_view(args@), flag@) {
            Some(v) => r matches Ok(s) && s@ == v,
            None => r matches Err(m) && m@ == usage_text(flag@),
        },
{
    let ghost view = strings_view(args@);
    let mut i: usize = 0;
    let mut found = false;
    while i < args.len() && !found
        invariant
            i <= args.len(),
            view == strings_view(args@),
            view.len() == args.len(),
            !found ==> flag_index(view, flag@, 0) == flag_index(view, flag@, i as int),
            found ==> i < args.len() && flag_index(view, flag@, 0) == i,
        decreases args.len() - i + (if found { 0int } else { 1int }),
    {
        assert(view[i as int] == args@[i as int]@);
        if str_eq(args[i].as_str(), flag) {
            found = true;
        } else {
            i = i + 1;
        }
    }
    if found && i + 1 < args.len() {
        assert(view[i + 1] == args@[i + 1]@);
        return Ok(&args[i + 1]);
    }
    let mut m = String::from_str("usage: moondisk-helper --listen <socket> --owner <uid> (missing ");
    m.append(flag);
    m.append(")");
    Err(m)
}

/// Reads `--listen <socket> --owner <uid>`.
pub fn run_from_args(args: &Vec<String>) -> (r: Result<ListenArgs, String>)
    ensures
        match spec_listen_args(strings_view(args@)) {
            Ok((path, uid)) => r matches Ok(a) && a.socket@ == path && a.owner == uid,
            Err(m) => r matches Err(x) && x@ == m,
        },
{
    let path = match value_of(args, "--listen") {
        Ok(p) => p,
        Err(m) => return Err(m),
    };
    let owner = match value_of(args, "--owner") {
        Ok(o) => o,
        Err(m) => return Err(m),
    };
    match parse_u32_exec(&chars_of(owner.as_str())) {
        Some(uid) => Ok(ListenArgs { socket: path.clone(), owner: uid }),
        None => Err(String::from_str("--owner must be a user id")),
    }
}

/// What a client asks the helper for, as far as the helper's own
/// decisions go.
#[derive(Debug, Clone, Copy, PartialEq, Eq, Structural)]
pub enum HelperRequest {
    Ping,
    ListDisks,
    Execute,
    ImageInfo,
    Flash,
    CancelFlash,
}

/// What happens on the helper's side of the connection.
#[derive(Debug, Clone, Copy, PartialEq, Eq, Structural)]
pub enum HelperEvent {
    /// A request arrived (a `Flash` only once its image could be opened).
    Request(HelperRequest),
    /// The running image write ended, whichever way.
    WriteFinished,
    /// The client closed the connection.
    ClientGone,
}

/// The helper's state between events: whether an image is being written.
#[derive(Debug, Clone, Copy, PartialEq, Eq, Structural)]
pub struct HelperState {
    pub writing: bool,
}

/// What the helper does next.
#[derive(Debug)]
pub enum HelperAction {
    /// Answer with the version, platform and whether it runs as root.
    Ping,
    /// Answer with the disks.
    ListDisks,
    /// Execute the request and answer with the outcome.
    Execute,
    /// Answer with what the image holds.
    ImageInfo,
    /// Clear the cancel flag and start writing the image in the background.
    StartWrite,
    /// Set the cancel flag and answer at once.
    Cancel,
    /// Answer with this error and do nothing else.
    Refuse(String),
    /// Nothing to answer.
    Nothing,
    /// Set the cancel flag, wait for a running write to end, and stop.
    Shutdown,
}

/// The answer to an operation while an image is being written.
pub open spec fn busy_execute_text() -> Seq<char> {
    "an image is being written to a USB drive \u{2014} wait until it finishes"@
}

/// The answer to a second write while one is running.
pub open spec fn busy_flash_text() -> Seq<char> {
    "another image is already being written"@
}

/// The state after `event`: a write starts on a `Flash` while none runs,
/// and ends with `WriteFinished`; nothing else changes it.
pub open spec fn next_state(state: HelperState, event: HelperEvent) -> HelperState {
    match event {
        HelperEvent::Request(HelperRequest::Flash) => HelperState { writing: true },
        HelperEvent::WriteFinished => HelperState { writing: false },
        _ => state,
    }
}

/// Decides what the helper does for `event` in `state`: disk operations
/// and a second write are refused while an image is being written, and
/// only one write runs at a time.
pub fn helper_step(state: HelperState, event: HelperEvent) -> (r: (HelperState, HelperAction))
    ensures
        match event {
            HelperEvent::Request(HelperRequest::Ping) => r.0 == state && r.1 is Ping,
            HelperEvent::Request(HelperRequest::ListDisks) => r.0 == state && r.1 is ListDisks,
            HelperEvent::Request(HelperRequest::ImageInfo) => r.0 == state && r.1 is ImageInfo,
            HelperEvent::Request(HelperRequest::Execute) => r.0 == state && if state.writing {
                (r.1 matches HelperAction::Refuse(m) && m@ == busy_execute_text())
            } else {
                r.1 is Execute
            },
            HelperEvent::Request(HelperRequest::Flash) => if state.writing {
                r.0 == state && (r.1 matches HelperAction::Refuse(m) && m@ == busy_flash_text())
            } else {
                r.0.writing && r.1 is StartWrite
            },
            HelperEvent::Request(HelperRequest::CancelFlash) => r.0 == state && r.1 is Cancel,
            HelperEvent::WriteFinished => !r.0.writing && r.1 is Nothing,
            HelperEvent::ClientGone => r.0 == state && r.1 is Shutdown,
        },
        r.0 == next_state(state, event),
        r.1 is StartWrite ==> !state.writing && r.0.writing,
{
    match event {
        HelperEvent::Request(req) => match req {
            HelperRequest::Ping => (state, HelperAction::Ping),
            HelperRequest::ListDisks => (state, HelperAction::ListDisks),
            HelperRequest::ImageInfo => (state, HelperAction::ImageInfo),
            HelperRequest::Execute => {
                if state.writing {
                    (
                        state,
                        HelperAction::Refuse(
                            String::from_str(
                                "an image is being written to a USB drive \u{2014} wait until it finishes",
                            ),
                        ),
                    )
                } else {
                    (state, HelperAction::Execute)
                }
            },
            HelperRequest::Flash => {
                if state.writing {
                    (
                        state,
                        HelperAction::Refuse(
                            String::from_str("another image is already being written"),
                        ),
                    )
                } else {
                    (HelperState { writing: true }, HelperAction::StartWrite)
                }
            },
            HelperRequest::CancelFlash => (state, HelperAction::Cancel),
        },
        HelperEvent::WriteFinished => (HelperState { writing: false }, HelperAction::Nothing),
        HelperEvent::ClientGone => (state, HelperAction::Shutdown),
    }
}

/// Once a write runs, only its end clears the state: whatever else
/// arrives meanwhile, the helper stays writing (and so refuses a second
/// write and every disk operation).
pub proof fn lemma_writing_until_finished(state: HelperState, event: HelperEvent)
    requires
        state.writing,
        event != HelperEvent::WriteFinished,
    ensures
        next_state(state, event).writing,
{
}

} // verus!
