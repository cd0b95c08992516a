use vstd::prelude::*;

use crate::strutil::{dec_rep, eq_str, u64_to_string};
use crate::types::{HostInfo, PongResponse};

verus! {

/// What one probe attempt against a peer came back with: an HTTP answer
/// whose body parsed (or did not) as a pong, a transport failure, or no
/// answer within the timeout.
#[derive(Clone, Debug, PartialEq)]
pub enum ProbeReply {
    Answered { status: u16, pong: Option<PongResponse> },
    Failed(String),
    TimedOut,
}

/// An HTTP status that counts as success.
pub open spec fn is_success_status(status: u16) -> bool {
    200 <= status < 300
}

/// What the driver tells its caller after each attempt: the probe is
/// settled, or one more attempt should follow after the given backoff.
#[derive(Clone, Debug, PartialEq)]
pub enum ProbeStep {
    Done(HostInfo),
    Retry(u64),
}

/// How many attempts one probe gets before the peer counts as
/// unreachable.
pub const MAX_PROBE_ATTEMPTS: u64 = 2;

/// Milliseconds to wait after the failed attempt numbered `attempt`:
/// a linear backoff.
pub open spec fn spec_backoff_ms(attempt: u64) -> u64
    recommends
        attempt <= MAX_PROBE_ATTEMPTS,
{
    (200 * attempt) as u64
}

/// Classifies the replies of one peer's probe, attempt by attempt. The
/// caller performs each attempt and hands the reply back; the driver
/// decides retry against settle and builds the final status.
pub struct ProbeDriver {
    pub ip: String,
    pub port: u16,
    pub is_self: bool,
    /// The attempt whose reply is expected next, counted from 1.
    pub attempt: u64,
    /// The transport failure of the most recent failed attempt.
    pub last_error: Option<String>,
}

impl ProbeDriver {
    /// Starts a probe of `ip`. The peer is the caller itself exactly
    /// when the probed address equals the caller's own.
    pub fn new(ip: String, port: u16, local_ip: &str) -> (r: ProbeDriver)
        ensures
            r.ip@ == ip@,
            r.port == port,
            r.is_self == (ip@ == local_ip@),
            r.attempt == 1,
            r.last_error is None,
    {
        let is_self = eq_str(ip.as_str(), local_ip);
        ProbeDriver { ip, port, is_self, attempt: 1, last_error: None }
    }

    /// Takes the reply of the current attempt. An HTTP answer settles
    /// the probe at once: `active` when a success status carried a
    /// parseable pong, `unknown` when the body was not one, `error`
    /// with the status in the message otherwise. A transport failure or
    /// timeout is retried with linear backoff until the attempts are
    /// spent; then the peer is `unreachable` and the message carries
    /// the last transport error.
    pub fn on_reply(&mut self, reply: ProbeReply) -> (step: ProbeStep)
        requires
            old(self).attempt >= 1,
        ensures
            final(self).ip@ == old(self).ip@,
            final(self).port == old(self).port,
            final(self).is_self == old(self).is_self,
            match step {
                ProbeStep::Done(h) => {
                    &&& h.ip@ == old(self).ip@
                    &&& h.port == old(self).port
                    &&& h.is_self == old(self).is_self
                    &&& (h.status@ == "active"@ <==> (reply matches ProbeReply::Answered {
                        status,
                        pong,
                    } && is_success_status(status) && pong is Some))
                    &&& (match reply {
                        ProbeReply::Answered { status, pong: Some(p) } => if is_success_status(
                            status,
                        ) {
                            h.status@ == "active"@ && h.message@ == p.message@ && h.name@
                                == p.name@
                        } else {
                            h.status@ == "error"@ && h.message@ == "HTTP "@ + dec_rep(
                                status as nat,
                            ) && h.name@ == "unknown"@
                        },
                        ProbeReply::Answered { status, pong: None } => if is_success_status(
                            status,
                        ) {
                            h.status@ == "unknown"@ && h.message@ == "Invalid response"@ && h.name@
                                == "unknown"@
                        } else {
                            h.status@ == "error"@ && h.message@ == "HTTP "@ + dec_rep(
                                status as nat,
                            ) && h.name@ == "unknown"@
                        },
                        ProbeReply::Failed(e) => h.status@ == "unreachable"@ && h.message@
                            == "Request error: "@ + e@ && old(self).attempt
                            >= MAX_PROBE_ATTEMPTS,
                        ProbeReply::TimedOut => h.status@ == "unreachable"@ && h.message@
                            == "Timeout"@ && old(self).attempt >= MAX_PROBE_ATTEMPTS,
                    })
                },
                ProbeStep::Retry(delay) => {
                    &&& (reply is Failed || reply is TimedOut)
                    &&& old(self).attempt < MAX_PROBE_ATTEMPTS
                    &&& delay == spec_backoff_ms(old(self).attempt)
                    &&& final(self).attempt == old(self).attempt + 1
                },
            },
    {
        proof {
            reveal_strlit("active");
            reveal_strlit("error");
            reveal_strlit("unknown");
            reveal_strlit("unreachable");
            reveal_strlit("Timeout");
            assert("active"@.len() == 6);
            assert("error"@.len() == 5);
            assert("error"@ != "active"@);
            assert("unknown"@ != "active"@);
            assert("unreachable"@ != "active"@);
        }
        match reply {
            ProbeReply::Answered { status, pong } => {
                match pong {
                    Some(p) => {
                        if 200 <= status && status < 300 {
                            ProbeStep::Done(
                                HostInfo {
                                    ip: self.ip.clone(),
                                    port: self.port,
                                    status: String::from_str("active"),
                                    message: p.message,
                                    name: p.name,
                                    is_self: self.is_self,
                                },
                            )
                        } else {
                            let code = u64_to_string(status as u64);
                            let msg = String::from_str("HTTP ").concat(code.as_str());
                            ProbeStep::Done(
                                HostInfo {
                                    ip: self.ip.clone(),
                                    port: self.port,
                                    status: String::from_str("error"),
                                    message: msg,
                                    name: String::from_str("unknown"),
                                    is_self: self.is_self,
                                },
                            )
                        }
                    },
                    None => {
                        if 200 <= status && status < 300 {
                            ProbeStep::Done(
                                HostInfo {
                                    ip: self.ip.clone(),
                                    port: self.port,
                                    status: String::from_str("unknown"),
                                    message: String::from_str("Invalid response"),
                                    name: String::from_str("unknown"),
                                    is_self: self.is_self,
                                },
                            )
                        } else {
                            let code = u64_to_string(status as u64);
                            let msg = String::from_str("HTTP ").concat(code.as_str());
                            ProbeStep::Done(
                                HostInfo {
                                    ip: self.ip.clone(),
                                    port: self.port,
                                    status: String::from_str("error"),
                                    message: msg,
                                    name: String::from_str("unknown"),
                                    is_self: self.is_self,
                                },
                            )
                        }
                    },
                }
            },
            ProbeReply::Failed(e) => {
                let msg = String::from_str("Request error: ").concat(e.as_str());
                if self.attempt < MAX_PROBE_ATTEMPTS {
                    let delay = 200 * self.attempt;
                    self.last_error = Some(msg);
                    self.attempt = self.attempt + 1;
                    ProbeStep::Retry(delay)
                } else {
                    self.last_error = Some(msg.clone());
                    ProbeStep::Done(
                        HostInfo {
                            ip: self.ip.clone(),
                            port: self.port,
                            status: String::from_str("unreachable"),
                            message: msg,
                            name: String::from_str("unknown"),
                            is_self: self.is_self,
                        },
                    )
                }
            },
            ProbeReply::TimedOut => {
                let msg = String::from_str("Timeout");
                if self.attempt < MAX_PROBE_ATTEMPTS {
                    let delay = 200 * self.attempt;
                    self.last_error = Some(msg);
                    self.attempt = self.attempt + 1;
                    ProbeStep::Retry(delay)
                } else {
                    self.last_error = Some(msg.clone());
                    ProbeStep::Done(
                        HostInfo {
                            ip: self.ip.clone(),
                            port: self.port,
                            status: String::from_str("unreachable"),
                            message: msg,
                            name: String::from_str("unknown"),
                            is_self: self.is_self,
                        },
                    )
                }
            },
        }
    }
}

} // verus!
