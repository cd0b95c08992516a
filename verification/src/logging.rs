use vstd::prelude::*;

use crate::strutil::{dec_rep, eq_str, push_char, u64_to_string};

verus! {

/// The node's logging preferences: whether requests and responses are
/// logged, and which endpoints stay quiet even then.
#[derive(Clone, Debug, PartialEq)]
pub struct LogConfig {
    pub show_requests: bool,
    pub show_responses: bool,
    pub quiet_endpoints: Vec<String>,
}

impl LogConfig {
    /// Fresh preferences: everything logged, nothing quiet.
    pub fn new() -> (r: LogConfig)
        ensures
            r.show_requests,
            r.show_responses,
            r.quiet_endpoints@.len() == 0,
    {
        LogConfig { show_requests: true, show_responses: true, quiet_endpoints: Vec::new() }
    }

    /// The path is on the quiet list.
    pub open spec fn quiet(self, path: Seq<char>) -> bool {
        exists|i: int|
            0 <= i < self.quiet_endpoints@.len() && (#[trigger] self.quiet_endpoints@[i])@ == path
    }

    /// Should a request line for this path be logged?
    pub fn is_quiet(&self, path: &str) -> (r: bool)
        ensures
            r == self.quiet(path@),
    {
        let mut i: usize = 0;
        while i < self.quiet_endpoints.len()
            invariant
                i <= self.quiet_endpoints@.len(),
                forall|j: int| 0 <= j < i ==> (#[trigger] self.quiet_endpoints@[j])@ != path@,
            decreases self.quiet_endpoints@.len() - i,
        {
            if eq_str(self.quiet_endpoints[i].as_str(), path) {
                return true;
            }
            i += 1;
        }
        false
    }

    /// Flips request logging and says what it now is.
    pub fn toggle_request_logs(&mut self) -> (on: bool)
        ensures
            final(self).show_requests == !old(self).show_requests,
            on == final(self).show_requests,
            final(self).show_responses == old(self).show_responses,
            final(self).quiet_endpoints == old(self).quiet_endpoints,
    {
        self.show_requests = !self.show_requests;
        self.show_requests
    }

    /// Flips response logging and says what it now is.
    pub fn toggle_response_logs(&mut self) -> (on: bool)
        ensures
            final(self).show_responses == !old(self).show_responses,
            on == final(self).show_responses,
            final(self).show_requests == old(self).show_requests,
            final(self).quiet_endpoints == old(self).quiet_endpoints,
    {
        self.show_responses = !self.show_responses;
        self.show_responses
    }

    /// Flips quiet mode: turning it on silences the chatty endpoints —
    /// the liveness probe, the token check and the event stream —
    /// turning it off clears the list. Says whether it is now on.
    pub fn toggle_quiet_mode(&mut self) -> (on: bool)
        ensures
            final(self).show_requests == old(self).show_requests,
            final(self).show_responses == old(self).show_responses,
            on == (old(self).quiet_endpoints@.len() == 0),
            on ==> final(self).quiet_endpoints@.len() == 3 && final(self).quiet_endpoints@[0]@
                == "/ping"@ && final(self).quiet_endpoints@[1]@ == "/auth/verify"@
                && final(self).quiet_endpoints@[2]@ == "/events"@,
            !on ==> final(self).quiet_endpoints@.len() == 0,
    {
        if self.quiet_endpoints.len() == 0 {
            let mut quiet: Vec<String> = Vec::new();
            quiet.push(String::from_str("/ping"));
            quiet.push(String::from_str("/auth/verify"));
            quiet.push(String::from_str("/events"));
            self.quiet_endpoints = quiet;
            true
        } else {
            self.quiet_endpoints = Vec::new();
            false
        }
    }
}

/// The log line for an arriving request: the method and path, with the
/// query appended when there is one.
pub fn format_request_line(method: &str, path: &str, query: &str) -> (r: String)
    ensures
        query@.len() == 0 ==> r@ == seq!['-', '>', ' '] + method@ + seq![' '] + path@,
        query@.len() > 0 ==> r@ == seq!['-', '>', ' '] + method@ + seq![' '] + path@ + seq!['?']
            + query@,
{
    let mut r = String::new();
    push_char(&mut r, '-');
    push_char(&mut r, '>');
    push_char(&mut r, ' ');
    r.append(method);
    push_char(&mut r, ' ');
    r.append(path);
    if query.unicode_len() > 0 {
        push_char(&mut r, '?');
        r.append(query);
    }
    proof {
        if query@.len() == 0 {
            assert(r@ =~= seq!['-', '>', ' '] + method@ + seq![' '] + path@);
        } else {
            assert(r@ =~= seq!['-', '>', ' '] + method@ + seq![' '] + path@ + seq!['?'] + query@);
        }
    }
    r
}

/// The log line for a finished request: the method and path again, the
/// status code, and how many milliseconds it took.
pub fn format_response_line(method: &str, path: &str, status: u16, millis: u64) -> (r: String)
    ensures
        r@ == seq!['<', '-', ' '] + method@ + seq![' '] + path@ + seq![' ', '-', '>', ' ']
            + dec_rep(status as nat) + seq![' ', '('] + dec_rep(millis as nat) + seq![
            'm',
            's',
            ')',
        ],
{
    let mut r = String::new();
    push_char(&mut r, '<');
    push_char(&mut r, '-');
    push_char(&mut r, ' ');
    r.append(method);
    push_char(&mut r, ' ');
    r.append(path);
    push_char(&mut r, ' ');
    push_char(&mut r, '-');
    push_char(&mut r, '>');
    push_char(&mut r, ' ');
    let code = u64_to_string(status as u64);
    r.append(code.as_str());
    push_char(&mut r, ' ');
    push_char(&mut r, '(');
    let ms = u64_to_string(millis);
    r.append(ms.as_str());
    push_char(&mut r, 'm');
    push_char(&mut r, 's');
    push_char(&mut r, ')');
    proof {
        assert(r@ =~= seq!['<', '-', ' '] + method@ + seq![' '] + path@ + seq![' ', '-', '>', ' ']
            + dec_rep(status as nat) + seq![' ', '('] + dec_rep(millis as nat) + seq![
            'm',
            's',
            ')',
        ]);
    }
    r
}

/// The notice after a logging toggle.
pub fn toggle_notice(kind: &str, on: bool) -> (r: String)
    ensures
        on ==> r@ == kind@ + " logging enabled"@,
        !on ==> r@ == kind@ + " logging disabled"@,
{
    let mut r = String::new();
    r.append(kind);
    if on {
        r.append(" logging enabled");
    } else {
        r.append(" logging disabled");
    }
    proof {
        if on {
            assert(r@ =~= kind@ + " logging enabled"@);
        } else {
            assert(r@ =~= kind@ + " logging disabled"@);
        }
    }
    r
}

} // verus!
