//! Wire-facing types: the decoded inbound frame, the reply envelope the
//! relay answers with, and the side effects a handler asks the transport
//! layer to perform.
//!
//! The transport hands the router one decoded frame per inbound message:
//! the action verb plus whichever string fields the JSON object carried.
//! The router answers with at most one reply — a frame that cannot be
//! attributed to a known action is dropped, never answered — plus
//! push-style effects (fan-out deliveries, invite notifications,
//! subscription re-establishment) that the transport performs.

use vstd::prelude::*;

use crate::bus::{EntryV, LogEntry};

verus! {

/// The action verbs the relay understands.
#[derive(Clone, Copy, PartialEq, Eq, Structural, Debug)]
pub enum ActionKind {
    Register,
    ApproveGroup,
    Connect,
    CreateGroup,
    JoinGroup,
    InviteGroup,
    SendGroup,
    FetchGroup,
}

/// One decoded inbound frame.  A field the JSON object did not carry as a
/// string is `None`; the router treats an empty string the same way.
pub struct InboundFrame {
    pub action: String,
    pub username: Option<String>,
    pub public_key: Option<String>,
    pub signature: Option<String>,
    pub group_id: Option<String>,
    pub group_name: Option<String>,
    pub is_public: Option<bool>,
    pub is_discoverable: Option<bool>,
    pub ciphertext: Option<String>,
    pub last_seen_id: Option<String>,
}

/// Ghost image of an inbound frame.
pub struct FrameV {
    pub action: Seq<char>,
    pub username: Option<Seq<char>>,
    pub public_key: Option<Seq<char>>,
    pub signature: Option<Seq<char>>,
    pub group_id: Option<Seq<char>>,
    pub group_name: Option<Seq<char>>,
    pub is_public: Option<bool>,
    pub is_discoverable: Option<bool>,
    pub ciphertext: Option<Seq<char>>,
    pub last_seen_id: Option<Seq<char>>,
}

impl View for InboundFrame {
    type V = FrameV;

    open spec fn view(&self) -> FrameV {
        FrameV {
            action: self.action@,
            username: self.username.deep_view(),
            public_key: self.public_key.deep_view(),
            signature: self.signature.deep_view(),
            group_id: self.group_id.deep_view(),
            group_name: self.group_name.deep_view(),
            is_public: self.is_public,
            is_discoverable: self.is_discoverable,
            ciphertext: self.ciphertext.deep_view(),
            last_seen_id: self.last_seen_id.deep_view(),
        }
    }
}

/// A field that is absent or empty: the router rejects it the same way.
pub open spec fn field_bad(o: Option<Seq<char>>) -> bool {
    o is None || o.unwrap().len() == 0
}

/// The stable reply strings of the protocol.
#[derive(Clone, Copy, PartialEq, Eq, Structural, Debug)]
pub enum ReplyStatus {
    Success,
    Pending,
    ErrMissingUsername,
    ErrMissingPublicKey,
    ErrMissingSignature,
    ErrMissingGroupId,
    ErrMissingGroupName,
    ErrMissingCiphertext,
    ErrMalformedLastSeen,
    ErrBadSignature,
    ErrUnauthorized,
    ErrAlreadyRegistered,
    ErrApproveFailed,
    ErrNotRegistered,
    ErrFingerprintMismatch,
    ErrUnknownUser,
    ErrUnknownGroup,
    ErrGroupPrivate,
    ErrAlreadyMember,
    ErrNotMember,
    ErrNotAdmin,
    ErrNotInvited,
    ErrAlreadyInvited,
    ErrCreateFailed,
    ErrSendFailed,
}

/// The content of a reply: a stable status string, the fresh group id of
/// a successful `createGroup`, or the messages of a successful
/// `fetchGroup`.
pub enum ReplyBody {
    Status(ReplyStatus),
    GroupId(String),
    Messages(Vec<LogEntry>),
}

/// Ghost image of a reply body.
pub enum BodyV {
    Status(ReplyStatus),
    GroupId(Seq<char>),
    Messages(Seq<EntryV>),
}

impl View for ReplyBody {
    type V = BodyV;

    open spec fn view(&self) -> BodyV {
        match self {
            ReplyBody::Status(s) => BodyV::Status(*s),
            ReplyBody::GroupId(g) => BodyV::GroupId(g@),
            ReplyBody::Messages(m) => BodyV::Messages(m.deep_view()),
        }
    }
}

/// One reply envelope, still unsigned: the transport layer appends the
/// relay's detached signature over the rendered content and the action
/// name suffixed `Response` before sending.
pub struct OutboundReply {
    pub action: ActionKind,
    pub body: ReplyBody,
}

/// Ghost image of a reply envelope.
pub struct ReplyV {
    pub action: ActionKind,
    pub body: BodyV,
}

impl View for OutboundReply {
    type V = ReplyV;

    open spec fn view(&self) -> ReplyV {
        ReplyV { action: self.action, body: self.body@ }
    }
}

/// A push the transport layer performs after the reply: a fan-out
/// delivery of group ciphertext, a best-effort invite notification, or
/// the re-establishment of live forwarding for one group membership.
pub enum Effect {
    Deliver { tag: String, group_id: String, sender: String, ciphertext: String },
    Notify { tag: String, group_id: String, username: String },
    Subscribe { tag: String, group_id: String },
}

/// Ghost image of an effect.
pub enum EffectV {
    Deliver { tag: Seq<char>, group_id: Seq<char>, sender: Seq<char>, ciphertext: Seq<char> },
    Notify { tag: Seq<char>, group_id: Seq<char>, username: Seq<char> },
    Subscribe { tag: Seq<char>, group_id: Seq<char> },
}

impl View for Effect {
    type V = EffectV;

    open spec fn view(&self) -> EffectV {
        match self {
            Effect::Deliver { tag, group_id, sender, ciphertext } => EffectV::Deliver {
                tag: tag@,
                group_id: group_id@,
                sender: sender@,
                ciphertext: ciphertext@,
            },
            Effect::Notify { tag, group_id, username } => EffectV::Notify {
                tag: tag@,
                group_id: group_id@,
                username: username@,
            },
            Effect::Subscribe { tag, group_id } => EffectV::Subscribe {
                tag: tag@,
                group_id: group_id@,
            },
        }
    }
}

impl DeepView for Effect {
    type V = EffectV;

    open spec fn deep_view(&self) -> EffectV {
        self.view()
    }
}

/// What one inbound frame produced: at most one reply, plus the pushes
/// to perform.  A dropped frame produces neither.
pub struct ProcessOutcome {
    pub reply: Option<OutboundReply>,
    pub effects: Vec<Effect>,
}

/// Ghost image of an outcome.
pub struct OutcomeV {
    pub reply: Option<ReplyV>,
    pub effects: Seq<EffectV>,
}

impl View for ProcessOutcome {
    type V = OutcomeV;

    open spec fn view(&self) -> OutcomeV {
        OutcomeV {
            reply: match self.reply {
                Some(ref rep) => Some(rep@),
                None => None,
            },
            effects: self.effects.deep_view(),
        }
    }
}

/// The outcome that answers with one status string and performs nothing.
pub open spec fn status_outcome(a: ActionKind, s: ReplyStatus) -> OutcomeV {
    OutcomeV {
        reply: Some(ReplyV { action: a, body: BodyV::Status(s) }),
        effects: Seq::empty(),
    }
}

/// The wire text of a status.
pub open spec fn status_chars(s: ReplyStatus) -> Seq<char> {
    match s {
        ReplyStatus::Success => "success"@,
        ReplyStatus::Pending => "pending"@,
        ReplyStatus::ErrMissingUsername => "error: missing or invalid username"@,
        ReplyStatus::ErrMissingPublicKey => "error: missing or invalid publicKey"@,
        ReplyStatus::ErrMissingSignature => "error: missing or invalid signature"@,
        ReplyStatus::ErrMissingGroupId => "error: missing or invalid groupId"@,
        ReplyStatus::ErrMissingGroupName => "error: missing or invalid groupName"@,
        ReplyStatus::ErrMissingCiphertext => "error: missing ciphertext"@,
        ReplyStatus::ErrMalformedLastSeen => "error: malformed lastSeenId"@,
        ReplyStatus::ErrBadSignature => "error: bad signature"@,
        ReplyStatus::ErrUnauthorized => "error: unauthorized or bad signature"@,
        ReplyStatus::ErrAlreadyRegistered => "error: user already registered"@,
        ReplyStatus::ErrApproveFailed => "error: approve failed"@,
        ReplyStatus::ErrNotRegistered => "error: user not registered or not approved"@,
        ReplyStatus::ErrFingerprintMismatch => "error: public key fingerprint mismatch"@,
        ReplyStatus::ErrUnknownUser => "error: unknown user"@,
        ReplyStatus::ErrUnknownGroup => "error: unknown group"@,
        ReplyStatus::ErrGroupPrivate => "error: group is private"@,
        ReplyStatus::ErrAlreadyMember => "error: already a group member"@,
        ReplyStatus::ErrNotMember => "error: not a group member"@,
        ReplyStatus::ErrNotAdmin => "error: not group admin"@,
        ReplyStatus::ErrNotInvited => "error: user not invited"@,
        ReplyStatus::ErrAlreadyInvited => "error: user already invited"@,
        ReplyStatus::ErrCreateFailed => "error: create group failed"@,
        ReplyStatus::ErrSendFailed => "error: send failed"@,
    }
}

/// The wire name of the reply action: the verb suffixed `Response`.
pub open spec fn action_response_chars(a: ActionKind) -> Seq<char> {
    match a {
        ActionKind::Register => "registerResponse"@,
        ActionKind::ApproveGroup => "approveGroupResponse"@,
        ActionKind::Connect => "connectResponse"@,
        ActionKind::CreateGroup => "createGroupResponse"@,
        ActionKind::JoinGroup => "joinGroupResponse"@,
        ActionKind::InviteGroup => "inviteGroupResponse"@,
        ActionKind::SendGroup => "sendGroupResponse"@,
        ActionKind::FetchGroup => "fetchGroupResponse"@,
    }
}

/// Render a status in its wire text.
pub fn status_text(s: ReplyStatus) -> (r: String)
    ensures
        r@ == status_chars(s),
{
    match s {
        ReplyStatus::Success => "success".to_owned(),
        ReplyStatus::Pending => "pending".to_owned(),
        ReplyStatus::ErrMissingUsername => "error: missing or invalid username".to_owned(),
        ReplyStatus::ErrMissingPublicKey => "error: missing or invalid publicKey".to_owned(),
        ReplyStatus::ErrMissingSignature => "error: missing or invalid signature".to_owned(),
        ReplyStatus::ErrMissingGroupId => "error: missing or invalid groupId".to_owned(),
        ReplyStatus::ErrMissingGroupName => "error: missing or invalid groupName".to_owned(),
        ReplyStatus::ErrMissingCiphertext => "error: missing ciphertext".to_owned(),
        ReplyStatus::ErrMalformedLastSeen => "error: malformed lastSeenId".to_owned(),
        ReplyStatus::ErrBadSignature => "error: bad signature".to_owned(),
        ReplyStatus::ErrUnauthorized => "error: unauthorized or bad signature".to_owned(),
        ReplyStatus::ErrAlreadyRegistered => "error: user already registered".to_owned(),
        ReplyStatus::ErrApproveFailed => "error: approve failed".to_owned(),
        ReplyStatus::ErrNotRegistered => "error: user not registered or not approved".to_owned(),
        ReplyStatus::ErrFingerprintMismatch => "error: public key fingerprint mismatch".to_owned(),
        ReplyStatus::ErrUnknownUser => "error: unknown user".to_owned(),
        ReplyStatus::ErrUnknownGroup => "error: unknown group".to_owned(),
        ReplyStatus::ErrGroupPrivate => "error: group is private".to_owned(),
        ReplyStatus::ErrAlreadyMember => "error: already a group member".to_owned(),
        ReplyStatus::ErrNotMember => "error: not a group member".to_owned(),
        ReplyStatus::ErrNotAdmin => "error: not group admin".to_owned(),
        ReplyStatus::ErrNotInvited => "error: user not invited".to_owned(),
        ReplyStatus::ErrAlreadyInvited => "error: user already invited".to_owned(),
        ReplyStatus::ErrCreateFailed => "error: create group failed".to_owned(),
        ReplyStatus::ErrSendFailed => "error: send failed".to_owned(),
    }
}

/// Render the reply action name in its wire text.
pub fn action_response_text(a: ActionKind) -> (r: String)
    ensures
        r@ == action_response_chars(a),
{
    match a {
        ActionKind::Register => "registerResponse".to_owned(),
        ActionKind::ApproveGroup => "approveGroupResponse".to_owned(),
        ActionKind::Connect => "connectResponse".to_owned(),
        ActionKind::CreateGroup => "createGroupResponse".to_owned(),
        ActionKind::JoinGroup => "joinGroupResponse".to_owned(),
        ActionKind::InviteGroup => "inviteGroupResponse".to_owned(),
        ActionKind::SendGroup => "sendGroupResponse".to_owned(),
        ActionKind::FetchGroup => "fetchGroupResponse".to_owned(),
    }
}

} // verus!
