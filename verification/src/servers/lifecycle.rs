//! The course of the server and of each connection: what is done after what.

use vstd::prelude::*;

use crate::servers::http::{
    framing_of, goes_on, keeps_alive, connection_continues, Framing, Request, RequestView,
};
use crate::text::{contains, lower};

verus! {

// ---------------------------------------------------------------------------
// The server
// ---------------------------------------------------------------------------

/// A step in the course of the server.
#[derive(Debug, Clone, Copy, PartialEq, Eq, Structural)]
pub enum RunStep {
    /// The settings are checked.
    Check,
    /// The port is taken, and the certificate is found.
    Bind,
    /// Root takes on another user.
    DropPrivileges,
    /// Signals are listened to.
    InstallHandlers,
    /// The logs are opened, and the server is announced.
    OpenLogs,
    /// The development server is started.
    StartChild,
    /// Requests are served.
    Serve,
    /// The development server is stopped.
    StopChild,
    /// The server has ended.
    Stopped,
    /// The server could not be started.
    Failed,
}

/// The step after another one, which did what it should or did not. Logs that
/// cannot be opened and a development server that does not start are no reason
/// to stop.
pub open spec fn step_after(s: RunStep, done: bool) -> RunStep {
    match s {
        RunStep::Check => if done {
            RunStep::Bind
        } else {
            RunStep::Failed
        },
        RunStep::Bind => if done {
            RunStep::DropPrivileges
        } else {
            RunStep::Failed
        },
        RunStep::DropPrivileges => if done {
            RunStep::InstallHandlers
        } else {
            RunStep::Failed
        },
        RunStep::InstallHandlers => if done {
            RunStep::OpenLogs
        } else {
            RunStep::Failed
        },
        RunStep::OpenLogs => RunStep::StartChild,
        RunStep::StartChild => RunStep::Serve,
        RunStep::Serve => RunStep::StopChild,
        RunStep::StopChild => RunStep::Stopped,
        RunStep::Stopped => RunStep::Stopped,
        RunStep::Failed => RunStep::Failed,
    }
}

impl RunStep {
    /// The step after this one, which did what it should or did not.
    pub fn after(self, done: bool) -> (r: RunStep)
        ensures
            r == step_after(self, done),
    {
        match self {
            RunStep::Check => if done {
                RunStep::Bind
            } else {
                RunStep::Failed
            },
            RunStep::Bind => if done {
                RunStep::DropPrivileges
            } else {
                RunStep::Failed
            },
            RunStep::DropPrivileges => if done {
                RunStep::InstallHandlers
            } else {
                RunStep::Failed
            },
            RunStep::InstallHandlers => if done {
                RunStep::OpenLogs
            } else {
                RunStep::Failed
            },
            RunStep::OpenLogs => RunStep::StartChild,
            RunStep::StartChild => RunStep::Serve,
            RunStep::Serve => RunStep::StopChild,
            RunStep::StopChild => RunStep::Stopped,
            RunStep::Stopped => RunStep::Stopped,
            RunStep::Failed => RunStep::Failed,
        }
    }
}

/// The step after several others, which did what they should or did not.
pub open spec fn step_after_all(s: RunStep, done: Seq<bool>) -> RunStep
    decreases done.len(),
{
    if done.len() == 0 {
        s
    } else {
        step_after(step_after_all(s, done.drop_last()), done.last())
    }
}

/// How long the server waits between two looks at its configuration, in
/// milliseconds.
pub const RELOAD_INTERVAL_MS: u64 = 1000;

/// How long the server waits for a connection before it looks around, in
/// milliseconds.
pub const ACCEPT_PAUSE_MS: u64 = 50;

/// What the server does next while it serves.
#[derive(Debug, Clone, Copy, PartialEq, Eq, Structural)]
pub enum Turn {
    /// It ends.
    Stop,
    /// It looks at its configuration, and then for a connection.
    CheckReload,
    /// It looks for a connection.
    Accept,
}

/// What the server does next, given whether it shall end and how long ago it
/// looked at its configuration.
pub open spec fn turn(shutdown: bool, since_check: u64) -> Turn {
    if shutdown {
        Turn::Stop
    } else if since_check >= RELOAD_INTERVAL_MS {
        Turn::CheckReload
    } else {
        Turn::Accept
    }
}

/// What the server does next while it serves.
pub fn next_turn(shutdown: bool, since_check: u64) -> (r: Turn)
    ensures
        r == turn(shutdown, since_check),
{
    if shutdown {
        Turn::Stop
    } else if since_check >= RELOAD_INTERVAL_MS {
        Turn::CheckReload
    } else {
        Turn::Accept
    }
}

/// What the log says of something that failed.
#[derive(Debug, Clone, Copy, PartialEq, Eq, Structural)]
pub enum Trouble {
    /// A secure connection could not be set up.
    Session,
    /// A connection broke.
    Connection,
    /// No connection could be taken.
    Accept,
    /// A request could not be answered.
    Request,
}

/// What the log says of something that failed for a client.
pub open spec fn trouble_text(t: Trouble, client: Seq<char>, err: Seq<char>) -> Seq<char> {
    match t {
        Trouble::Session => "TLS session setup failed for "@ + client + ": "@ + err,
        Trouble::Connection => "connection error from "@ + client + ": "@ + err,
        Trouble::Accept => "accept error: "@ + err,
        Trouble::Request => client + " request error: "@ + err,
    }
}

impl Trouble {
    /// What the log says of it.
    pub fn message(self, client: &str, err: &str) -> (r: String)
        ensures
            r@ == trouble_text(self, client@, err@),
    {
        let mut out = match self {
            Trouble::Session => {
                let mut s = "TLS session setup failed for ".to_owned();
                s.append(client);
                s.append(": ");
                s
            },
            Trouble::Connection => {
                let mut s = "connection error from ".to_owned();
                s.append(client);
                s.append(": ");
                s
            },
            Trouble::Accept => "accept error: ".to_owned(),
            Trouble::Request => {
                let mut s = client.to_owned();
                s.append(" request error: ");
                s
            },
        };
        out.append(err);
        out
    }
}

/// What the log says of a development server that could not be started.
pub fn child_failure(kind: &str, command: &str, err: &str) -> (r: String)
    ensures
        r@ == "failed to start framework dev-server ("@ + kind@ + " : "@ + command@ + "): "@ + err@,
{
    let mut s = "failed to start framework dev-server (".to_owned();
    s.append(kind);
    s.append(" : ");
    s.append(command);
    s.append("): ");
    s.append(err);
    s
}

// ---------------------------------------------------------------------------
// A connection
// ---------------------------------------------------------------------------

/// How long the server waits for a client, in seconds.
pub const READ_TIMEOUT_SECS: u64 = 30;

/// What a connection does next.
#[derive(Debug, Clone, Copy, PartialEq, Eq, Structural)]
pub enum Next {
    /// It reads the first lines of a request.
    Head,
    /// It reads a body in chunks.
    Chunks,
    /// It reads that many bytes of a body.
    Bytes(u64),
    /// It answers the request.
    Answer,
    /// It ends.
    Close,
}

/// A connection.
#[derive(Debug, Clone, Copy, PartialEq, Eq, Structural)]
pub struct Connection {
    /// What it does next.
    pub next: Next,
    /// Whether it shall go on after the request.
    pub keep_alive: bool,
}

/// A connection after the first lines of a request; none where they could not be
/// read.
pub open spec fn with_head(c: Connection, q: Option<RequestView>) -> Connection {
    match q {
        None => Connection { next: Next::Close, ..c },
        Some(q) => Connection {
            next: match framing_of(q) {
                Framing::Chunked => Next::Chunks,
                Framing::Length(n) => if n == 0 {
                    Next::Answer
                } else {
                    Next::Bytes(n)
                },
            },
            keep_alive: keeps_alive(q),
        },
    }
}

/// A connection after the body of a request, which came whole or did not.
pub open spec fn with_body(c: Connection, whole: bool) -> Connection {
    Connection {
        next: if whole {
            Next::Answer
        } else {
            Next::Close
        },
        ..c
    }
}

/// A connection after an answer with a status; none where it could not be given.
pub open spec fn with_answer(c: Connection, status: Option<u16>) -> Connection {
    Connection {
        next: match status {
            None => Next::Close,
            Some(s) => if goes_on(c.keep_alive, s) {
                Next::Head
            } else {
                Next::Close
            },
        },
        ..c
    }
}

impl Connection {
    /// A connection that has just been taken.
    pub fn new() -> (r: Self)
        ensures
            r == (Connection { next: Next::Head, keep_alive: false }),
    {
        Connection { next: Next::Head, keep_alive: false }
    }

    /// Takes the first lines of a request; none where they could not be read.
    pub fn head(&mut self, request: Option<&Request>)
        ensures
            *final(self) == with_head(
                *old(self),
                match request {
                    Some(q) => Some(q@),
                    None => None,
                },
            ),
    {
        match request {
            None => {
                self.next = Next::Close;
            },
            Some(q) => {
                self.keep_alive = q.keep_alive();
                self.next = match q.framing() {
                    Framing::Chunked => Next::Chunks,
                    Framing::Length(n) => if n == 0 {
                        Next::Answer
                    } else {
                        Next::Bytes(n)
                    },
                };
            },
        }
    }

    /// Takes the body of a request, which came whole or did not.
    pub fn body(&mut self, whole: bool)
        ensures
            *final(self) == with_body(*old(self), whole),
    {
        self.next = if whole {
            Next::Answer
        } else {
            Next::Close
        };
    }

    /// Takes the status of an answer; none where it could not be given.
    pub fn answered(&mut self, status: Option<u16>)
        ensures
            *final(self) == with_answer(*old(self), status),
    {
        self.next = match status {
            None => Next::Close,
            Some(s) => if connection_continues(self.keep_alive, s) {
                Next::Head
            } else {
                Next::Close
            },
        };
    }
}

// ---------------------------------------------------------------------------
// Laws
// ---------------------------------------------------------------------------

/// The steps that lead to serving, in order.
pub open spec fn course(i: int) -> RunStep {
    if i <= 0 {
        RunStep::Check
    } else if i == 1 {
        RunStep::Bind
    } else if i == 2 {
        RunStep::DropPrivileges
    } else if i == 3 {
        RunStep::InstallHandlers
    } else if i == 4 {
        RunStep::OpenLogs
    } else if i == 5 {
        RunStep::StartChild
    } else if i == 6 {
        RunStep::Serve
    } else if i == 7 {
        RunStep::StopChild
    } else {
        RunStep::Stopped
    }
}

/// The server serves only after its settings were found good, its port was taken
/// and its privileges were dropped, each in its turn.
pub proof fn privileges_are_dropped_before_serving(done: Seq<bool>)
    ensures
        step_after_all(RunStep::Check, done) == RunStep::Failed || step_after_all(
            RunStep::Check,
            done,
        ) == course(done.len() as int),
        step_after_all(RunStep::Check, done) == RunStep::Serve ==> done.len() == 6 && done[0]
            && done[1] && done[2] && done[3],
    decreases done.len(),
{
    if done.len() > 0 {
        privileges_are_dropped_before_serving(done.drop_last());
        let n = done.len() as int;
        if step_after_all(RunStep::Check, done) == RunStep::Serve {
            assert(n == 6);
            let d5 = done.drop_last();
            let d4 = d5.drop_last();
            let d3 = d4.drop_last();
            let d2 = d3.drop_last();
            let d1 = d2.drop_last();
            reveal_with_fuel(step_after_all, 7);
            assert(d1.drop_last() =~= Seq::<bool>::empty());
            assert(d4.last() == done[3] && d3.last() == done[2] && d2.last() == done[1] && d1.last()
                == done[0]);
        }
    }
}

/// Nothing is read from a client whose connection is to be closed, and after a
/// request that could not be understood it is.
pub proof fn bad_requests_end_the_connection(c: Connection)
    ensures
        with_answer(c, Some(400)).next == Next::Close,
        with_answer(c, None).next == Next::Close,
        with_body(c, false).next == Next::Close,
        with_head(c, None).next == Next::Close,
{
}

/// A request that names chunks is read in chunks, whatever length it names.
pub proof fn chunks_win(c: Connection, q: RequestView)
    requires
        q.headers.contains_key("transfer-encoding"@),
        contains(lower(q.headers["transfer-encoding"@]), "chunked"@),
    ensures
        with_head(c, Some(q)).next == Next::Chunks,
{
}

} // verus!
