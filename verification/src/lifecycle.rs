use vstd::prelude::*;

use crate::types::{ServerMessage, ServerState, ServerStatus};

verus! {

/// Owns the listening socket's lifetime: it decides, for each start or
/// stop request and for each outcome the runtime reports back, what the
/// next status is and which events the observer is told. The runtime
/// around it performs the binds, spawns and waits; this controller is
/// the single place that orders them.
pub struct LifecycleController {
    /// The last status the controller settled on.
    pub state: ServerState,
    /// Whether a serving task is currently alive. Exactly one listener
    /// is ever bound: a start request is refused while this holds.
    pub task_live: bool,
}

/// How the serving task ended: the shutdown signal won the race, or the
/// serve loop itself returned with an error.
#[derive(Clone, Debug, PartialEq)]
pub enum ServeOutcome {
    ShutdownRequested,
    ServeError(String),
}

impl LifecycleController {
    pub open spec fn spec_new() -> LifecycleController {
        LifecycleController { state: ServerState::Stopped, task_live: false }
    }

    /// No listener is bound before the first start request.
    pub fn new() -> (r: LifecycleController)
        ensures
            r == Self::spec_new(),
    {
        LifecycleController { state: ServerState::Stopped, task_live: false }
    }

    /// The state after a start request: unchanged while a task is live,
    /// `Starting` otherwise.
    pub open spec fn spec_begin_start(self) -> LifecycleController {
        if self.task_live {
            self
        } else {
            LifecycleController { state: ServerState::Starting, task_live: false }
        }
    }

    /// Accepts or refuses a start request. When a serving task is
    /// already live the request changes nothing: the caller is told not
    /// to proceed and the observer sees one log line noting the no-op.
    /// Otherwise the status becomes `Starting` and the caller may go on
    /// to resolve the address, load configuration and bind.
    pub fn begin_start(&mut self) -> (r: (bool, Vec<ServerMessage>))
        ensures
            *final(self) == old(self).spec_begin_start(),
            r.0 == !old(self).task_live,
            !r.0 ==> r.1@.len() == 1 && (r.1@[0] matches ServerMessage::Log(l) && l@
                == "Server is already running"@),
            r.0 ==> r.1@.len() == 2 && (r.1@[0] matches ServerMessage::StatusUpdate(s)
                && s.state == ServerState::Starting && s.nickname is None && s.ip is None
                && s.port is None) && (r.1@[1] matches ServerMessage::Log(l) && l@
                == "Starting server..."@),
    {
        let mut events: Vec<ServerMessage> = Vec::new();
        if self.task_live {
            events.push(ServerMessage::Log(String::from_str("Server is already running")));
            (false, events)
        } else {
            self.state = ServerState::Starting;
            events.push(
                ServerMessage::StatusUpdate(
                    ServerStatus {
                        state: ServerState::Starting,
                        nickname: None,
                        ip: None,
                        port: None,
                    },
                ),
            );
            events.push(ServerMessage::Log(String::from_str("Starting server...")));
            (true, events)
        }
    }

    /// A start attempt failed before any task was spawned: no local
    /// address, unreadable configuration, a store that would not open,
    /// or a bind refusal. The status becomes `Error(reason)`; nothing
    /// is live, so a later start request may try again.
    pub fn fail_start(
        &mut self,
        reason: String,
        nickname: Option<String>,
        ip: Option<String>,
        port: Option<u16>,
    ) -> (events: Vec<ServerMessage>)
        requires
            !old(self).task_live,
        ensures
            final(self).state == ServerState::Error(reason),
            !final(self).task_live,
            events@.len() == 2,
            events@[0] matches ServerMessage::Log(l) && l@ == reason@,
            events@[1] matches ServerMessage::StatusUpdate(s) && s.state == ServerState::Error(
                reason,
            ) && s.nickname == nickname && s.ip == ip && s.port == port,
    {
        let mut events: Vec<ServerMessage> = Vec::new();
        events.push(ServerMessage::Log(reason.clone()));
        self.state = ServerState::Error(reason.clone());
        events.push(
            ServerMessage::StatusUpdate(
                ServerStatus { state: ServerState::Error(reason), nickname, ip, port },
            ),
        );
        events
    }

    /// The bind succeeded and the serving task is being spawned: only
    /// now does the status become `Running`. Requires that no other
    /// task is live, which `begin_start` guarantees to the caller that
    /// followed its answer.
    pub fn complete_start(&mut self, nickname: String, ip: String, port: u16) -> (events: Vec<
        ServerMessage,
    >)
        requires
            !old(self).task_live,
        ensures
            final(self).state == ServerState::Running,
            final(self).task_live,
            events@.len() == 1,
            events@[0] matches ServerMessage::StatusUpdate(s) && s.state == ServerState::Running
                && s.nickname == Some(nickname) && s.ip == Some(ip) && s.port == Some(port),
    {
        self.state = ServerState::Running;
        self.task_live = true;
        let mut events: Vec<ServerMessage> = Vec::new();
        events.push(
            ServerMessage::StatusUpdate(
                ServerStatus {
                    state: ServerState::Running,
                    nickname: Some(nickname),
                    ip: Some(ip),
                    port: Some(port),
                },
            ),
        );
        events
    }

    /// A stop request. It signals the serving task when one is live;
    /// calling it with nothing running is safe and does nothing beyond
    /// the log line.
    pub fn request_stop(&mut self) -> (r: (bool, Vec<ServerMessage>))
        ensures
            *final(self) == *old(self),
            r.0 == old(self).task_live,
            r.0 ==> r.1@.len() == 1 && (r.1@[0] matches ServerMessage::Log(l) && l@
                == "Stopping server..."@),
            !r.0 ==> r.1@.len() == 1 && (r.1@[0] matches ServerMessage::Log(l) && l@
                == "Server stopped"@),
    {
        let mut events: Vec<ServerMessage> = Vec::new();
        if self.task_live {
            events.push(ServerMessage::Log(String::from_str("Stopping server...")));
            (true, events)
        } else {
            events.push(ServerMessage::Log(String::from_str("Server stopped")));
            (false, events)
        }
    }

    /// The state after the serving task ends: `Stopped` when the
    /// shutdown signal won the race, `Error(reason)` when the serve
    /// loop failed first. Either way nothing is live afterwards, so the
    /// port is free and a new start request may bind again.
    pub open spec fn spec_serve_ended(self, outcome: ServeOutcome) -> LifecycleController {
        match outcome {
            ServeOutcome::ShutdownRequested => LifecycleController {
                state: ServerState::Stopped,
                task_live: false,
            },
            ServeOutcome::ServeError(reason) => LifecycleController {
                state: ServerState::Error(reason),
                task_live: false,
            },
        }
    }

    /// The serving task ended. Whichever side of the race finished
    /// first decides the terminal status.
    pub fn serve_ended(
        &mut self,
        outcome: ServeOutcome,
        nickname: Option<String>,
        ip: Option<String>,
        port: Option<u16>,
    ) -> (events: Vec<ServerMessage>)
        ensures
            *final(self) == old(self).spec_serve_ended(outcome),
            events@.len() == 2,
            outcome matches ServeOutcome::ShutdownRequested ==> (events@[0]
                matches ServerMessage::Log(l) && l@ == "Server shutdown requested"@) && (events@[1]
                matches ServerMessage::StatusUpdate(s) && s.state == ServerState::Stopped
                && s.nickname == nickname && s.ip == ip && s.port == port),
            outcome matches ServeOutcome::ServeError(reason) ==> (events@[0]
                matches ServerMessage::Log(l) && l@ == reason@) && (events@[1]
                matches ServerMessage::StatusUpdate(s) && s.state == ServerState::Error(reason)
                && s.nickname == nickname && s.ip == ip && s.port == port),
    {
        let mut events: Vec<ServerMessage> = Vec::new();
        match outcome {
            ServeOutcome::ShutdownRequested => {
                events.push(ServerMessage::Log(String::from_str("Server shutdown requested")));
                self.state = ServerState::Stopped;
                self.task_live = false;
                events.push(
                    ServerMessage::StatusUpdate(
                        ServerStatus { state: ServerState::Stopped, nickname, ip, port },
                    ),
                );
            },
            ServeOutcome::ServeError(reason) => {
                events.push(ServerMessage::Log(reason.clone()));
                self.state = ServerState::Error(reason.clone());
                self.task_live = false;
                events.push(
                    ServerMessage::StatusUpdate(
                        ServerStatus { state: ServerState::Error(reason), nickname, ip, port },
                    ),
                );
            },
        }
        events
    }

    /// Forced termination: a terminal state the controller never leaves
    /// on its own.
    pub fn abort(&mut self)
        ensures
            final(self).state == ServerState::Aborted,
            final(self).task_live == old(self).task_live,
    {
        self.state = ServerState::Aborted;
    }
}

/// A second start request arriving while a serving task is live changes
/// nothing: the controller that accepted the first start refuses the
/// second, so at most one listener is ever bound.
pub proof fn lemma_second_start_is_noop(c: LifecycleController)
    requires
        c.task_live,
    ensures
        c.spec_begin_start() == c,
{
}

/// A stop request while the controller is `Running` ends in `Stopped`,
/// never in `Error`, and leaves nothing live: the next start request is
/// accepted again, so the port is immediately free for rebinding.
pub proof fn lemma_stop_while_running_stops(c: LifecycleController, outcome: ServeOutcome)
    requires
        c.state == ServerState::Running,
        c.task_live,
        outcome == ServeOutcome::ShutdownRequested,
    ensures
        c.spec_serve_ended(outcome).state == ServerState::Stopped,
        !c.spec_serve_ended(outcome).task_live,
        c.spec_serve_ended(outcome).spec_begin_start().state == ServerState::Starting,
{
}

} // verus!
