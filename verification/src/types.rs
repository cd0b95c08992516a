use vstd::prelude::*;

verus! {

/// One file carried along with a message: metadata plus the payload,
/// already transported as text.
#[derive(Clone, Debug, PartialEq)]
#[verifier::ext_equal]
pub struct Attachment {
    pub id: String,
    pub filename: String,
    pub mime_type: String,
    pub size: u64,
    pub data: String,
    pub thumbnail: Option<String>,
}

/// A message as a node keeps it: sender address and name, body, kind,
/// timestamp, whether this node itself sent it, and any attachments.
#[derive(Clone, Debug, PartialEq)]
#[verifier::ext_equal]
pub struct ReceivedMessage {
    pub from: String,
    pub from_name: String,
    pub message: String,
    pub message_type: String,
    pub timestamp: String,
    pub is_self: bool,
    pub attachments: Vec<Attachment>,
}

/// Reply to a liveness ping.
#[derive(Clone, Debug, PartialEq)]
pub struct PongResponse {
    pub message: String,
    pub name: String,
    pub is_self: bool,
}

/// Outcome of probing one address: its reachability state and, when it
/// answered, its advertised name and message.
#[derive(Clone, Debug, PartialEq)]
pub struct HostInfo {
    pub ip: String,
    pub port: u16,
    pub status: String,
    pub message: String,
    pub name: String,
    pub is_self: bool,
}

/// A request to send a message: empty `to` means broadcast.
#[derive(Clone, Debug, PartialEq)]
pub struct SendMessageRequest {
    pub to: String,
    pub message: String,
    pub message_type: String,
    pub attachments: Vec<Attachment>,
    pub from_name: String,
    pub from_ip: String,
}

#[derive(Clone, Debug, PartialEq)]
pub struct SendMessageResponse {
    pub success: bool,
    pub message: String,
    pub timestamp: String,
}

#[derive(Clone, Debug, PartialEq)]
pub struct AuthRequest {
    pub password: String,
    pub device_id: String,
}

#[derive(Clone, Debug, PartialEq)]
pub struct AuthResponse {
    pub success: bool,
    pub message: String,
    pub token: Option<String>,
}

#[derive(Clone, Debug, PartialEq)]
pub struct AuthorizeDeviceRequest {
    pub device_id: String,
    pub password: String,
}

#[derive(Clone, Debug, PartialEq)]
pub struct GetNicknameResponse {
    pub nickname: String,
}

#[derive(Clone, Debug, PartialEq)]
pub struct UpdateNicknameRequest {
    pub nickname: String,
}

#[derive(Clone, Debug, PartialEq)]
pub struct UpdateNicknameResponse {
    pub success: bool,
    pub message: String,
    pub old_nickname: String,
    pub new_nickname: String,
}

/// An event handed to the observer of the lifecycle controller.
#[derive(Clone, Debug, PartialEq)]
pub enum ServerMessage {
    Log(String),
    StatusUpdate(ServerStatus),
}

/// The single source of truth for whether the network surface is up.
#[derive(Clone, Debug, PartialEq)]
pub struct ServerStatus {
    pub state: ServerState,
    pub nickname: Option<String>,
    pub ip: Option<String>,
    pub port: Option<u16>,
}

#[derive(Clone, Debug, PartialEq)]
pub enum ServerState {
    Starting,
    Running,
    Stopped,
    Aborted,
    Error(String),
}

/// Request to start the background notification service.
#[derive(Clone, Debug, PartialEq)]
pub struct StartServiceRequest {
    pub server_url: String,
}

/// Reported state of the background notification service.
#[derive(Clone, Debug, PartialEq)]
pub struct ServiceStatusResponse {
    pub is_running: bool,
    pub last_check: Option<String>,
    pub message_count: u32,
    pub error_message: Option<String>,
}

#[derive(Clone, Debug, PartialEq)]
pub struct StopServiceRequest {}

#[derive(Clone, Debug, PartialEq)]
pub struct StopServiceResponse {
    pub success: bool,
}

/// The mathematical value of an attachment: each string as its
/// character sequence.
#[verifier::ext_equal]
pub ghost struct AttachmentView {
    pub id: Seq<char>,
    pub filename: Seq<char>,
    pub mime_type: Seq<char>,
    pub size: u64,
    pub data: Seq<char>,
    pub thumbnail: Option<Seq<char>>,
}

pub open spec fn aview(a: Attachment) -> AttachmentView {
    AttachmentView {
        id: a.id@,
        filename: a.filename@,
        mime_type: a.mime_type@,
        size: a.size,
        data: a.data@,
        thumbnail: match a.thumbnail {
            Some(t) => Some(t@),
            None => None,
        },
    }
}

/// The mathematical value of a message: each string as its character
/// sequence, each attachment as its view.
#[verifier::ext_equal]
pub ghost struct MessageView {
    pub from: Seq<char>,
    pub from_name: Seq<char>,
    pub message: Seq<char>,
    pub message_type: Seq<char>,
    pub timestamp: Seq<char>,
    pub is_self: bool,
    pub attachments: Seq<AttachmentView>,
}

pub open spec fn mview(m: ReceivedMessage) -> MessageView {
    MessageView {
        from: m.from@,
        from_name: m.from_name@,
        message: m.message@,
        message_type: m.message_type@,
        timestamp: m.timestamp@,
        is_self: m.is_self,
        attachments: m.attachments@.map_values(|a: Attachment| aview(a)),
    }
}

impl Attachment {
    /// A copy equal to the original in every field.
    pub fn duplicate(&self) -> (r: Attachment)
        ensures
            r == *self,
    {
        let thumbnail = match &self.thumbnail {
            Some(t) => Some(t.clone()),
            None => None,
        };
        proof {
            assert(thumbnail == self.thumbnail);
        }
        let r = Attachment {
            id: self.id.clone(),
            filename: self.filename.clone(),
            mime_type: self.mime_type.clone(),
            size: self.size,
            data: self.data.clone(),
            thumbnail,
        };
        proof {
            assert(r =~= *self);
        }
        r
    }
}

/// An element-wise copy of an attachment list.
pub fn duplicate_attachments(v: &Vec<Attachment>) -> (r: Vec<Attachment>)
    ensures
        r@ == v@,
{
    let mut r: Vec<Attachment> = Vec::new();
    let mut i: usize = 0;
    while i < v.len()
        invariant
            i <= v@.len(),
            r@ == v@.subrange(0, i as int),
        decreases v@.len() - i,
    {
        r.push(v[i].duplicate());
        i += 1;
        proof {
            assert(r@ =~= v@.subrange(0, i as int));
        }
    }
    proof {
        assert(r@ =~= v@);
    }
    r
}

impl ReceivedMessage {
    /// A copy with the same mathematical value.
    pub fn duplicate(&self) -> (r: ReceivedMessage)
        ensures
            mview(r) == mview(*self),
    {
        let r = ReceivedMessage {
            from: self.from.clone(),
            from_name: self.from_name.clone(),
            message: self.message.clone(),
            message_type: self.message_type.clone(),
            timestamp: self.timestamp.clone(),
            is_self: self.is_self,
            attachments: duplicate_attachments(&self.attachments),
        };
        proof {
            assert(r.attachments@ =~= self.attachments@);
            assert(mview(r) =~~= mview(*self));
        }
        r
    }
}

/// Field-wise equality of attachments, over the views of the strings.
pub open spec fn attachment_eq(x: Attachment, y: Attachment) -> bool {
    &&& x.id@ == y.id@
    &&& x.filename@ == y.filename@
    &&& x.mime_type@ == y.mime_type@
    &&& x.size == y.size
    &&& x.data@ == y.data@
    &&& match (x.thumbnail, y.thumbnail) {
        (Some(a), Some(b)) => a@ == b@,
        (None, None) => true,
        _ => false,
    }
}

pub open spec fn attachments_eq(x: Seq<Attachment>, y: Seq<Attachment>) -> bool {
    &&& x.len() == y.len()
    &&& forall|i: int| 0 <= i < x.len() ==> attachment_eq(x[i], y[i])
}

/// Equality in every field but `is_self`, which each node computes in
/// its own frame of reference.
pub open spec fn message_eq_except_self(x: ReceivedMessage, y: ReceivedMessage) -> bool {
    &&& x.from@ == y.from@
    &&& x.from_name@ == y.from_name@
    &&& x.message@ == y.message@
    &&& x.message_type@ == y.message_type@
    &&& x.timestamp@ == y.timestamp@
    &&& attachments_eq(x.attachments@, y.attachments@)
}

} // verus!
