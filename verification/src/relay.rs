use vstd::prelude::*;

use crate::strutil::{all_spaces, has_prefix, is_blank, strip_prefix_str};
use crate::types::{
    Attachment, HostInfo, PongResponse, ReceivedMessage, SendMessageResponse, message_eq_except_self,
};

verus! {

/// The token of an `Authorization: Bearer <token>` header value, when
/// the value has that shape.
pub fn parse_bearer(header: Option<&str>) -> (r: Option<String>)
    ensures
        match r {
            Some(t) => header matches Some(h) && h@ == "Bearer "@ + t@,
            None => match header {
                Some(h) => !has_prefix(h@, "Bearer "@),
                None => true,
            },
        },
{
    match header {
        None => None,
        Some(h) => strip_prefix_str(h, "Bearer "),
    }
}

/// A peer a broadcast goes to: it answered the last probe as `active`,
/// and it is not the sending node itself.
pub open spec fn is_broadcast_target(h: HostInfo) -> bool {
    h.status@ == "active"@ && !h.is_self
}

/// `ip` is the address of some broadcast-worthy peer in `peers`.
pub open spec fn target_of(peers: Seq<HostInfo>, ip: Seq<char>) -> bool {
    exists|i: int|
        0 <= i < peers.len() && is_broadcast_target(#[trigger] peers[i]) && peers[i].ip@ == ip
}

/// `ip` is among the resolved destinations `r`.
pub open spec fn sent_to(r: Seq<String>, ip: Seq<char>) -> bool {
    exists|j: int| 0 <= j < r.len() && (#[trigger] r[j])@ == ip
}

/// Resolves the destination set of a send. A non-blank `to` names the
/// one destination. A blank `to` is a broadcast: every peer of the last
/// scan that is `active` and not the node itself, in scan order — own
/// address and non-active peers are never broadcast to.
pub fn resolve_destinations(to: &str, peers: &Vec<HostInfo>, local_ip: &str) -> (r: Vec<String>)
    requires
        forall|i: int|
            0 <= i < peers@.len() && (#[trigger] peers@[i]).ip@ == local_ip@ ==> peers@[i].is_self,
    ensures
        !all_spaces(to@) ==> r@.len() == 1 && r@[0]@ == to@,
        all_spaces(to@) ==> {
            &&& forall|j: int| 0 <= j < r@.len() ==> target_of(peers@, (#[trigger] r@[j])@)
            &&& forall|i: int|
                0 <= i < peers@.len() && is_broadcast_target(#[trigger] peers@[i]) ==> sent_to(
                    r@,
                    peers@[i].ip@,
                )
            &&& forall|j: int| 0 <= j < r@.len() ==> (#[trigger] r@[j])@ != local_ip@
        },
{
    let mut r: Vec<String> = Vec::new();
    if !is_blank(to) {
        r.push(to.to_owned());
        return r;
    }
    let ghost mut src: Seq<int> = Seq::empty();
    let mut i: usize = 0;
    while i < peers.len()
        invariant
            i <= peers@.len(),
            forall|i2: int|
                0 <= i2 < peers@.len() && (#[trigger] peers@[i2]).ip@ == local_ip@
                    ==> peers@[i2].is_self,
            src.len() == r@.len(),
            forall|j: int| 0 <= j < src.len() ==> 0 <= #[trigger] src[j] < peers@.len(),
            forall|j: int| 0 <= j < src.len() ==> is_broadcast_target(peers@[#[trigger] src[j]]),
            forall|j: int|
                0 <= j < src.len() ==> peers@[#[trigger] src[j]].ip@ == (#[trigger] r@[j])@,
            forall|i2: int|
                0 <= i2 < i && is_broadcast_target(#[trigger] peers@[i2]) ==> exists|j: int|
                    0 <= j < src.len() && #[trigger] src[j] == i2,
        decreases peers@.len() - i,
    {
        let p = &peers[i];
        let active = crate::strutil::eq_str(p.status.as_str(), "active");
        if active && !p.is_self {
            r.push(p.ip.clone());
            proof {
                let src_prev = src;
                src = src.push(i as int);
                assert(is_broadcast_target(peers@[i as int]));
                assert(src[src.len() - 1] == i as int);
                assert forall|i2: int|
                    0 <= i2 < i + 1 && is_broadcast_target(#[trigger] peers@[i2]) implies exists|
                    j: int,
                |
                    0 <= j < src.len() && #[trigger] src[j] == i2 by {
                    if i2 < i {
                        let j0 = choose|j0: int|
                            0 <= j0 < src_prev.len() && #[trigger] src_prev[j0] == i2;
                        assert(src[j0] == i2);
                    } else {
                        assert(src[src.len() - 1] == i2);
                    }
                }
            }
        }
        i += 1;
    }
    proof {
        assert forall|j: int| 0 <= j < r@.len() implies target_of(peers@, (#[trigger] r@[j])@) by {
            assert(0 <= src[j] < peers@.len() && is_broadcast_target(peers@[src[j]])
                && peers@[src[j]].ip@ == r@[j]@);
        }
        assert forall|i2: int|
            0 <= i2 < peers@.len() && is_broadcast_target(#[trigger] peers@[i2]) implies sent_to(
            r@,
            peers@[i2].ip@,
        ) by {
            let j0 = choose|j0: int| 0 <= j0 < src.len() && #[trigger] src[j0] == i2;
            assert(0 <= j0 < r@.len() && r@[j0]@ == peers@[i2].ip@);
        }
        assert forall|j: int| 0 <= j < r@.len() implies (#[trigger] r@[j])@ != local_ip@ by {
            if r@[j]@ == local_ip@ {
                assert(peers@[src[j]].is_self);
            }
        }
    }
    r
}

/// The message a node records for a send it originated itself:
/// `is_self` is true in the sender's own frame of reference.
pub fn build_self_message(
    from_ip: String,
    from_name: String,
    message: String,
    message_type: String,
    attachments: Vec<Attachment>,
    timestamp: String,
) -> (m: ReceivedMessage)
    ensures
        m.from@ == from_ip@,
        m.from_name@ == from_name@,
        m.message@ == message@,
        m.message_type@ == message_type@,
        m.timestamp@ == timestamp@,
        m.is_self,
        m.attachments == attachments,
{
    ReceivedMessage {
        from: from_ip,
        from_name,
        message,
        message_type,
        timestamp,
        is_self: true,
        attachments,
    }
}

/// Normalizes an inbound message to the receiving node's own frame of
/// reference: every field is kept, except that `is_self` is recomputed
/// by comparing the sender address with the local address.
pub fn accept_inbound(payload: ReceivedMessage, local_ip: &str) -> (m: ReceivedMessage)
    ensures
        message_eq_except_self(m, payload),
        m.is_self == (payload.from@ == local_ip@),
        m.attachments == payload.attachments,
{
    let is_self = crate::strutil::eq_str(payload.from.as_str(), local_ip);
    let m = ReceivedMessage {
        from: payload.from,
        from_name: payload.from_name,
        message: payload.message,
        message_type: payload.message_type,
        timestamp: payload.timestamp,
        is_self,
        attachments: payload.attachments,
    };
    proof {
        assert(crate::types::attachments_eq(m.attachments@, m.attachments@));
    }
    m
}

/// The reply to a liveness ping: the node's nickname, and `is_self`
/// true because the answer describes the answering node itself.
pub fn pong_response(nickname: String) -> (r: PongResponse)
    ensures
        r.message@ == "Pong"@,
        r.name@ == nickname@,
        r.is_self,
{
    PongResponse { message: String::from_str("Pong"), name: nickname, is_self: true }
}

/// Summarizes a finished send. A broadcast succeeds when at least one
/// destination accepted the message: partial failure is not fatal. A
/// directed send's `accepted` is one or zero, mirroring its single
/// call. On failure the message carries the last transport error.
pub fn summarize_send(
    broadcast: bool,
    accepted: usize,
    last_error: Option<String>,
    timestamp: String,
) -> (r: SendMessageResponse)
    ensures
        r.success == (accepted > 0),
        r.timestamp@ == timestamp@,
        accepted > 0 && broadcast ==> r.message@ == "Message broadcast to all servers successfully"@,
        accepted > 0 && !broadcast ==> r.message@ == "Message sent successfully"@,
        accepted == 0 ==> r.message@ == "Failed to send message: "@ + (match last_error {
            Some(e) => e@,
            None => "no destination accepted the message"@,
        }),
{
    if accepted > 0 {
        let message = if broadcast {
            String::from_str("Message broadcast to all servers successfully")
        } else {
            String::from_str("Message sent successfully")
        };
        SendMessageResponse { success: true, message, timestamp }
    } else {
        let reason = match last_error {
            Some(e) => e,
            None => String::from_str("no destination accepted the message"),
        };
        let message = String::from_str("Failed to send message: ").concat(reason.as_str());
        SendMessageResponse { success: false, message, timestamp }
    }
}

/// The refusal a node answers when a send arrives without a usable
/// bearer token: one wording when no token came at all, another when
/// one came but is not recognized.
pub fn refuse_send(had_token: bool, timestamp: String) -> (r: SendMessageResponse)
    ensures
        !r.success,
        r.timestamp@ == timestamp@,
        had_token ==> r.message@ == "Invalid or expired token"@,
        !had_token ==> r.message@ == "Token required"@,
{
    let message = if had_token {
        String::from_str("Invalid or expired token")
    } else {
        String::from_str("Token required")
    };
    SendMessageResponse { success: false, message, timestamp }
}

} // verus!
