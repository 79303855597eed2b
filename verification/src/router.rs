//! The protocol router: decode/authorize/execute/reply, one inbound
//! frame at a time.
//!
//! Each handler validates its fields in a fixed order, consults the
//! identity store, and terminates in exactly one reply; a frame whose
//! action verb is unknown is dropped, never answered.  Signature checks
//! go through the OpenPGP layer, whose verdict depends on key validity
//! at the time of the call; every handler that rests on such a verdict
//! therefore comes in a `*_decide` form that takes the verdict as an
//! argument and is verified for both values of it, and
//! [`MessageUtils::process_received_message`] performs the check and
//! dispatches.

use vstd::prelude::*;

use crate::bus::{BusV, EntryV, FanoutBus, bus_wf};
use crate::crypto::{cert_fingerprint_of, same_key_fingerprint, verify_pgp_signature};
use crate::ids::{EntryId, dec_digits, lemma_dec_digits_value, parse_entry_id_chars, u64_to_dec};
use crate::store::{
    DbUtils, GroupV, MemberV, PendingV, StoreV, UserV, group_rec, groups_of, has_group,
    has_pending, has_tag, has_user, is_invited, is_member, member_at, members_of, pending_key,
    store_wf, tag_user, user_key, user_tag,
};
use crate::text::str_eq;
use crate::wire::{
    ActionKind, BodyV, Effect, EffectV, FrameV, InboundFrame, OutboundReply, OutcomeV,
    ProcessOutcome, ReplyBody, ReplyStatus, ReplyV, field_bad, status_outcome,
};

verus! {

/// The relay's protocol engine: the identity store, the durable fan-out
/// log, the group-id counter, and the configured administrator key.
pub struct MessageUtils {
    pub db: DbUtils,
    pub bus: FanoutBus,
    pub next_group: u64,
    pub admin_key: String,
}

/// Ghost image of the engine.
pub struct RouterV {
    pub store: StoreV,
    pub bus: BusV,
    pub next_group: u64,
    pub admin_key: Seq<char>,
}

impl View for MessageUtils {
    type V = RouterV;

    open spec fn view(&self) -> RouterV {
        RouterV {
            store: self.db@,
            bus: self.bus@,
            next_group: self.next_group,
            admin_key: self.admin_key@,
        }
    }
}

/// Engine well-formedness: the store and log are well-formed, group ids
/// at or above the counter are unassigned (so generated ids are fresh),
/// and every membership row names an existing group.
pub open spec fn router_wf(v: RouterV) -> bool {
    &&& store_wf(v.store)
    &&& bus_wf(v.bus)
    &&& 1 <= v.next_group
    &&& forall|k: nat| v.next_group <= k ==> !has_group(v.store.groups, #[trigger] dec_digits(k))
    &&& forall|i: int|
        0 <= i < v.store.members.len() ==> has_group(
            v.store.groups,
            #[trigger] v.store.members[i].group_id,
        )
}

/// The log, counter and configuration stay as they were.
pub open spec fn same_ancillary(pre: RouterV, post: RouterV) -> bool {
    post.bus == pre.bus && post.next_group == pre.next_group && post.admin_key == pre.admin_key
}

/// Every store table but the users stays as it was.
pub open spec fn same_store_except_users(a: StoreV, b: StoreV) -> bool {
    b.pending == a.pending && b.groups == a.groups && b.members == a.members && b.invites
        == a.invites
}

/// Every store table but the pending registrations stays as it was.
pub open spec fn same_store_except_pending(a: StoreV, b: StoreV) -> bool {
    b.users == a.users && b.groups == a.groups && b.members == a.members && b.invites == a.invites
}

/// Every store table but the memberships stays as it was.
pub open spec fn same_store_except_members(a: StoreV, b: StoreV) -> bool {
    b.users == a.users && b.pending == a.pending && b.groups == a.groups && b.invites == a.invites
}

/// Every store table but the invitations stays as it was.
pub open spec fn same_store_except_invites(a: StoreV, b: StoreV) -> bool {
    b.users == a.users && b.pending == a.pending && b.groups == a.groups && b.members == a.members
}

/// One `Subscribe` effect per group the user belongs to, in store order.
pub open spec fn subscribe_all(tag: Seq<char>, gs: Seq<Seq<char>>) -> Seq<EffectV> {
    gs.map_values(|g: Seq<char>| (EffectV::Subscribe { tag: tag, group_id: g }))
}

/// The fan-out deliveries for one published message: each listed member
/// that resolves to a currently bound tag receives the ciphertext; a
/// member with no live tag is skipped, not retried.
pub open spec fn deliver_list(
    users: Seq<UserV>,
    ws: Seq<Seq<char>>,
    g: Seq<char>,
    sender: Seq<char>,
    ciphertext: Seq<char>,
) -> Seq<EffectV>
    decreases ws.len(),
{
    if ws.len() == 0 {
        Seq::empty()
    } else {
        deliver_list(users, ws.drop_last(), g, sender, ciphertext) + if has_user(
            users,
            ws.last(),
        ) && user_tag(users, ws.last()) is Some {
            seq![
                (EffectV::Deliver {
                    tag: user_tag(users, ws.last()).unwrap(),
                    group_id: g,
                    sender: sender,
                    ciphertext: ciphertext,
                }),
            ]
        } else {
            Seq::empty()
        }
    }
}

// ---------------------------------------------------------------------
// One step predicate per action: the exact contract of the handler,
// with the signature-check verdict (where one is involved) as an
// explicit argument.
// ---------------------------------------------------------------------
/// `register(username, publicKey, signature)`: proof of possession is a
/// detached signature over the public key itself (verdict `ok`); a
/// duplicate username — registered or still pending — is rejected
/// idempotently; success records a pending registration.
pub open spec fn register_step(
    pre: RouterV,
    post: RouterV,
    frame: FrameV,
    ok: bool,
    out: OutcomeV,
) -> bool {
    if field_bad(frame.username) {
        post == pre && out == status_outcome(ActionKind::Register, ReplyStatus::ErrMissingUsername)
    } else if field_bad(frame.public_key) {
        post == pre && out == status_outcome(ActionKind::Register, ReplyStatus::ErrMissingPublicKey)
    } else if field_bad(frame.signature) {
        post == pre && out == status_outcome(ActionKind::Register, ReplyStatus::ErrMissingSignature)
    } else if !ok {
        post == pre && out == status_outcome(ActionKind::Register, ReplyStatus::ErrBadSignature)
    } else if has_user(pre.store.users, frame.username.unwrap()) || has_pending(
        pre.store.pending,
        frame.username.unwrap(),
    ) {
        post == pre && out == status_outcome(
            ActionKind::Register,
            ReplyStatus::ErrAlreadyRegistered,
        )
    } else {
        &&& out == status_outcome(ActionKind::Register, ReplyStatus::Pending)
        &&& post.store.pending == pre.store.pending.push(
            (PendingV {
                username: frame.username.unwrap(),
                public_key: frame.public_key.unwrap(),
            }),
        )
        &&& same_store_except_pending(pre.store, post.store)
        &&& same_ancillary(pre, post)
    }
}

/// `approveGroup(username, signature)`, the administrator user-approval
/// variant: the signature must verify over the username against the
/// relay-configured administrator key (verdict `ok`); success promotes
/// the pending registration to a user and removes the pending record,
/// with no state visible in between.
pub open spec fn approve_user_step(
    pre: RouterV,
    post: RouterV,
    frame: FrameV,
    ok: bool,
    out: OutcomeV,
) -> bool {
    if field_bad(frame.username) {
        post == pre && out == status_outcome(ActionKind::ApproveGroup, ReplyStatus::ErrUnauthorized)
    } else if field_bad(frame.signature) {
        post == pre && out == status_outcome(ActionKind::ApproveGroup, ReplyStatus::ErrUnauthorized)
    } else if !ok {
        post == pre && out == status_outcome(ActionKind::ApproveGroup, ReplyStatus::ErrUnauthorized)
    } else if !has_pending(pre.store.pending, frame.username.unwrap()) {
        post == pre && out == status_outcome(
            ActionKind::ApproveGroup,
            ReplyStatus::ErrApproveFailed,
        )
    } else if has_user(pre.store.users, frame.username.unwrap()) {
        post == pre && out == status_outcome(
            ActionKind::ApproveGroup,
            ReplyStatus::ErrApproveFailed,
        )
    } else {
        let u = frame.username.unwrap();
        &&& out == status_outcome(ActionKind::ApproveGroup, ReplyStatus::Success)
        &&& post.store.users == pre.store.users.push(
            (UserV {
                username: u,
                public_key: pending_key(pre.store.pending, u),
                sender_tag: None,
            }),
        )
        &&& !has_pending(post.store.pending, u)
        &&& forall|w: Seq<char>|
            w != u ==> #[trigger] has_pending(post.store.pending, w) == has_pending(
                pre.store.pending,
                w,
            )
        &&& forall|w: Seq<char>|
            w != u && has_pending(pre.store.pending, w) ==> #[trigger] pending_key(
                post.store.pending,
                w,
            ) == pending_key(pre.store.pending, w)
        &&& post.store.groups == pre.store.groups
        &&& post.store.members == pre.store.members
        &&& post.store.invites == pre.store.invites
        &&& same_ancillary(pre, post)
    }
}

/// `connect(username, publicKey, signature)`: the caller must present
/// key material whose fingerprint equals the stored one, and a detached
/// signature over the username that verifies against the stored key
/// (verdict `ok`).  Success rebinds the calling sender tag to the
/// identity — displacing any user that held the tag — and asks the
/// transport to re-establish forwarding for every group membership.
pub open spec fn connect_step(
    pre: RouterV,
    post: RouterV,
    tag: Seq<char>,
    frame: FrameV,
    ok: bool,
    out: OutcomeV,
) -> bool {
    if field_bad(frame.username) {
        post == pre && out == status_outcome(ActionKind::Connect, ReplyStatus::ErrMissingUsername)
    } else if field_bad(frame.public_key) {
        post == pre && out == status_outcome(ActionKind::Connect, ReplyStatus::ErrMissingPublicKey)
    } else if field_bad(frame.signature) {
        post == pre && out == status_outcome(ActionKind::Connect, ReplyStatus::ErrMissingSignature)
    } else if !has_user(pre.store.users, frame.username.unwrap()) {
        post == pre && out == status_outcome(ActionKind::Connect, ReplyStatus::ErrNotRegistered)
    } else if !(cert_fingerprint_of(frame.public_key.unwrap()) is Some && cert_fingerprint_of(
        frame.public_key.unwrap(),
    ) == cert_fingerprint_of(user_key(pre.store.users, frame.username.unwrap()))) {
        post == pre && out == status_outcome(
            ActionKind::Connect,
            ReplyStatus::ErrFingerprintMismatch,
        )
    } else if !ok {
        post == pre && out == status_outcome(ActionKind::Connect, ReplyStatus::ErrBadSignature)
    } else {
        let u = frame.username.unwrap();
        &&& out.reply == Some(
            (ReplyV { action: ActionKind::Connect, body: BodyV::Status(ReplyStatus::Success) }),
        )
        &&& out.effects == subscribe_all(tag, groups_of(pre.store.members, u))
        &&& post.store.users.len() == pre.store.users.len()
        &&& forall|w: Seq<char>| #[trigger] has_user(post.store.users, w) == has_user(
            pre.store.users,
            w,
        )
        &&& forall|w: Seq<char>|
            has_user(pre.store.users, w) ==> #[trigger] user_key(post.store.users, w) == user_key(
                pre.store.users,
                w,
            )
        &&& user_tag(post.store.users, u) == Some(tag)
        &&& has_tag(post.store.users, tag) && tag_user(post.store.users, tag) == u
        &&& forall|w: Seq<char>|
            has_user(pre.store.users, w) && w != u ==> #[trigger] user_tag(post.store.users, w)
                == (if user_tag(pre.store.users, w) == Some(tag) {
                None::<Seq<char>>
            } else {
                user_tag(pre.store.users, w)
            })
        &&& same_store_except_users(pre.store, post.store)
        &&& same_ancillary(pre, post)
    }
}

/// `createGroup(groupName, isPublic, isDiscoverable)`: the caller must
/// be connected (its tag must resolve).  The relay generates a fresh
/// group id from its counter, records the group with the caller as
/// admin, inserts the caller as first member, and replies with the id.
/// Flags not supplied are taken as false.
pub open spec fn create_group_step(
    pre: RouterV,
    post: RouterV,
    tag: Seq<char>,
    frame: FrameV,
    out: OutcomeV,
) -> bool {
    if !has_tag(pre.store.users, tag) {
        post == pre && out == status_outcome(ActionKind::CreateGroup, ReplyStatus::ErrUnknownUser)
    } else if field_bad(frame.group_name) {
        post == pre && out == status_outcome(
            ActionKind::CreateGroup,
            ReplyStatus::ErrMissingGroupName,
        )
    } else if pre.next_group == u64::MAX {
        post == pre && out == status_outcome(ActionKind::CreateGroup, ReplyStatus::ErrCreateFailed)
    } else {
        let u = tag_user(pre.store.users, tag);
        let g = dec_digits(pre.next_group as nat);
        &&& out.reply == Some(
            (ReplyV { action: ActionKind::CreateGroup, body: BodyV::GroupId(g) }),
        )
        &&& out.effects == Seq::<EffectV>::empty()
        &&& post.store.groups == pre.store.groups.push(
            (GroupV {
                group_id: g,
                group_name: frame.group_name.unwrap(),
                admin: u,
                is_public: frame.is_public == Some(true),
                is_discoverable: frame.is_discoverable == Some(true),
            }),
        )
        &&& post.store.members == pre.store.members.push((MemberV { group_id: g, username: u }))
        &&& post.store.users == pre.store.users
        &&& post.store.pending == pre.store.pending
        &&& post.store.invites == pre.store.invites
        &&& post.next_group == pre.next_group + 1
        &&& post.bus == pre.bus
        &&& post.admin_key == pre.admin_key
    }
}

/// `joinGroup(groupId)`: self-join, permitted only for public groups;
/// a second join is a harmless no-op failure.
pub open spec fn join_group_step(
    pre: RouterV,
    post: RouterV,
    tag: Seq<char>,
    frame: FrameV,
    out: OutcomeV,
) -> bool {
    if !has_tag(pre.store.users, tag) {
        post == pre && out == status_outcome(ActionKind::JoinGroup, ReplyStatus::ErrUnknownUser)
    } else if field_bad(frame.group_id) {
        post == pre && out == status_outcome(ActionKind::JoinGroup, ReplyStatus::ErrMissingGroupId)
    } else if !has_group(pre.store.groups, frame.group_id.unwrap()) {
        post == pre && out == status_outcome(ActionKind::JoinGroup, ReplyStatus::ErrUnknownGroup)
    } else if !group_rec(pre.store.groups, frame.group_id.unwrap()).is_public {
        post == pre && out == status_outcome(ActionKind::JoinGroup, ReplyStatus::ErrGroupPrivate)
    } else if is_member(
        pre.store.members,
        frame.group_id.unwrap(),
        tag_user(pre.store.users, tag),
    ) {
        post == pre && out == status_outcome(ActionKind::JoinGroup, ReplyStatus::ErrAlreadyMember)
    } else {
        &&& out == status_outcome(ActionKind::JoinGroup, ReplyStatus::Success)
        &&& post.store.members == pre.store.members.push(
            (MemberV {
                group_id: frame.group_id.unwrap(),
                username: tag_user(pre.store.users, tag),
            }),
        )
        &&& same_store_except_members(pre.store, post.store)
        &&& same_ancillary(pre, post)
    }
}

/// `inviteGroup(groupId, username)`: only the group's admin may invite,
/// whatever the invitation or membership state; the invitee must be a
/// registered user and holds at most one outstanding invitation per
/// group.  If the invitee has a live tag, a best-effort notification is
/// pushed to it.
pub open spec fn invite_group_step(
    pre: RouterV,
    post: RouterV,
    tag: Seq<char>,
    frame: FrameV,
    out: OutcomeV,
) -> bool {
    if !has_tag(pre.store.users, tag) {
        post == pre && out == status_outcome(ActionKind::InviteGroup, ReplyStatus::ErrUnknownUser)
    } else if field_bad(frame.group_id) {
        post == pre && out == status_outcome(
            ActionKind::InviteGroup,
            ReplyStatus::ErrMissingGroupId,
        )
    } else if field_bad(frame.username) {
        post == pre && out == status_outcome(
            ActionKind::InviteGroup,
            ReplyStatus::ErrMissingUsername,
        )
    } else if !(has_group(pre.store.groups, frame.group_id.unwrap()) && group_rec(
        pre.store.groups,
        frame.group_id.unwrap(),
    ).admin == tag_user(pre.store.users, tag)) {
        post == pre && out == status_outcome(ActionKind::InviteGroup, ReplyStatus::ErrNotAdmin)
    } else if !has_user(pre.store.users, frame.username.unwrap()) {
        post == pre && out == status_outcome(ActionKind::InviteGroup, ReplyStatus::ErrNotRegistered)
    } else if is_invited(pre.store.invites, frame.group_id.unwrap(), frame.username.unwrap()) {
        post == pre && out == status_outcome(
            ActionKind::InviteGroup,
            ReplyStatus::ErrAlreadyInvited,
        )
    } else {
        let g = frame.group_id.unwrap();
        let u = frame.username.unwrap();
        &&& out.reply == Some(
            (ReplyV { action: ActionKind::InviteGroup, body: BodyV::Status(ReplyStatus::Success) }),
        )
        &&& out.effects == (if user_tag(pre.store.users, u) is Some {
            seq![
                (EffectV::Notify {
                    tag: user_tag(pre.store.users, u).unwrap(),
                    group_id: g,
                    username: u,
                }),
            ]
        } else {
            Seq::<EffectV>::empty()
        })
        &&& post.store.invites == pre.store.invites.push((crate::store::InviteV { group_id: g, username: u }))
        &&& same_store_except_invites(pre.store, post.store)
        &&& same_ancillary(pre, post)
    }
}

/// `approveGroup(groupId, username)`, the membership-approval variant:
/// only the group's admin may approve, the target must hold an
/// outstanding invitation, and success inserts the membership and
/// consumes the invitation together — or fails with no partial effect.
pub open spec fn approve_member_step(
    pre: RouterV,
    post: RouterV,
    tag: Seq<char>,
    frame: FrameV,
    out: OutcomeV,
) -> bool {
    if !has_tag(pre.store.users, tag) {
        post == pre && out == status_outcome(ActionKind::ApproveGroup, ReplyStatus::ErrUnknownUser)
    } else if field_bad(frame.group_id) {
        post == pre && out == status_outcome(
            ActionKind::ApproveGroup,
            ReplyStatus::ErrMissingGroupId,
        )
    } else if field_bad(frame.username) {
        post == pre && out == status_outcome(
            ActionKind::ApproveGroup,
            ReplyStatus::ErrMissingUsername,
        )
    } else if !(has_group(pre.store.groups, frame.group_id.unwrap()) && group_rec(
        pre.store.groups,
        frame.group_id.unwrap(),
    ).admin == tag_user(pre.store.users, tag)) {
        post == pre && out == status_outcome(ActionKind::ApproveGroup, ReplyStatus::ErrNotAdmin)
    } else if !is_invited(pre.store.invites, frame.group_id.unwrap(), frame.username.unwrap()) {
        post == pre && out == status_outcome(ActionKind::ApproveGroup, ReplyStatus::ErrNotInvited)
    } else if is_member(pre.store.members, frame.group_id.unwrap(), frame.username.unwrap()) {
        post == pre && out == status_outcome(
            ActionKind::ApproveGroup,
            ReplyStatus::ErrApproveFailed,
        )
    } else {
        let g = frame.group_id.unwrap();
        let u = frame.username.unwrap();
        &&& out == status_outcome(ActionKind::ApproveGroup, ReplyStatus::Success)
        &&& post.store.members == pre.store.members.push((MemberV { group_id: g, username: u }))
        &&& !is_invited(post.store.invites, g, u)
        &&& forall|h: Seq<char>, w: Seq<char>|
            !(h == g && w == u) ==> #[trigger] is_invited(post.store.invites, h, w) == is_invited(
                pre.store.invites,
                h,
                w,
            )
        &&& post.store.users == pre.store.users
        &&& post.store.pending == pre.store.pending
        &&& post.store.groups == pre.store.groups
        &&& same_ancillary(pre, post)
    }
}

/// `sendGroup(groupId, ciphertext)`: the caller must resolve to a
/// member of the group.  The ciphertext is appended to the group's
/// durable log under a fresh identifier — the relay never inspects it —
/// and a delivery is pushed to every member whose current tag resolves.
pub open spec fn send_group_step(
    pre: RouterV,
    post: RouterV,
    tag: Seq<char>,
    frame: FrameV,
    out: OutcomeV,
) -> bool {
    if field_bad(frame.ciphertext) {
        post == pre && out == status_outcome(
            ActionKind::SendGroup,
            ReplyStatus::ErrMissingCiphertext,
        )
    } else if !has_tag(pre.store.users, tag) {
        post == pre && out == status_outcome(ActionKind::SendGroup, ReplyStatus::ErrUnknownUser)
    } else if field_bad(frame.group_id) {
        post == pre && out == status_outcome(ActionKind::SendGroup, ReplyStatus::ErrMissingGroupId)
    } else if !is_member(
        pre.store.members,
        frame.group_id.unwrap(),
        tag_user(pre.store.users, tag),
    ) {
        post == pre && out == status_outcome(ActionKind::SendGroup, ReplyStatus::ErrNotMember)
    } else if pre.bus.next_ms == u64::MAX {
        post == pre && out == status_outcome(ActionKind::SendGroup, ReplyStatus::ErrSendFailed)
    } else {
        let g = frame.group_id.unwrap();
        let u = tag_user(pre.store.users, tag);
        let c = frame.ciphertext.unwrap();
        &&& out.reply == Some(
            (ReplyV { action: ActionKind::SendGroup, body: BodyV::Status(ReplyStatus::Success) }),
        )
        &&& out.effects == deliver_list(pre.store.users, members_of(pre.store.members, g), g, u, c)
        &&& post.bus.entries == pre.bus.entries.push(
            (EntryV {
                group_id: g,
                entry_id: (EntryId { ms: pre.bus.next_ms, seq: 0 }),
                sender: u,
                ciphertext: c,
            }),
        )
        &&& post.bus.next_ms == pre.bus.next_ms + 1
        &&& post.store == pre.store
        &&& post.next_group == pre.next_group
        &&& post.admin_key == pre.admin_key
    }
}

/// The cursor text a `fetchGroup` request reads from, and signs over: a
/// request that carries no `lastSeenId` starts from the log's origin.
pub open spec fn fetch_cursor_chars(frame: FrameV) -> Seq<char> {
    if field_bad(frame.last_seen_id) {
        "0-0"@
    } else {
        frame.last_seen_id.unwrap()
    }
}

/// `fetchGroup(groupId, lastSeenId, signature)`: pull-based catch-up.
/// A missing `lastSeenId` defaults to the log's origin, so a fresh
/// reader gets the group's whole log.  The signature must verify over
/// the effective cursor text against the caller's registered key
/// (verdict `ok`); the caller must be a member of the group; a supplied
/// cursor must parse.  The reply carries every log entry of the group
/// strictly after the cursor, in log order.  Nothing changes.
pub open spec fn fetch_group_step(
    v: RouterV,
    tag: Seq<char>,
    frame: FrameV,
    ok: bool,
    out: OutcomeV,
) -> bool {
    if field_bad(frame.signature) {
        out == status_outcome(ActionKind::FetchGroup, ReplyStatus::ErrMissingSignature)
    } else if !has_tag(v.store.users, tag) {
        out == status_outcome(ActionKind::FetchGroup, ReplyStatus::ErrNotRegistered)
    } else if !ok {
        out == status_outcome(ActionKind::FetchGroup, ReplyStatus::ErrBadSignature)
    } else if field_bad(frame.group_id) {
        out == status_outcome(ActionKind::FetchGroup, ReplyStatus::ErrMissingGroupId)
    } else if !is_member(v.store.members, frame.group_id.unwrap(), tag_user(v.store.users, tag)) {
        out == status_outcome(ActionKind::FetchGroup, ReplyStatus::ErrNotMember)
    } else if parse_entry_id_chars(fetch_cursor_chars(frame)) is None {
        out == status_outcome(ActionKind::FetchGroup, ReplyStatus::ErrMalformedLastSeen)
    } else {
        &&& out.reply == Some(
            (ReplyV {
                action: ActionKind::FetchGroup,
                body: BodyV::Messages(
                    crate::bus::entries_after(
                        v.bus.entries,
                        frame.group_id.unwrap(),
                        parse_entry_id_chars(fetch_cursor_chars(frame)).unwrap(),
                    ),
                ),
            }),
        )
        &&& out.effects == Seq::<EffectV>::empty()
    }
}

/// A present, non-empty field, or `None` where the router must reject.
fn good_field<'a>(o: &'a Option<String>) -> (r: Option<&'a String>)
    ensures
        match r {
            Some(s) => !field_bad(o.deep_view()) && s@ == o.deep_view().unwrap(),
            None => field_bad(o.deep_view()),
        },
{
    match o {
        Some(s) => {
            if s.as_str().is_empty() {
                None
            } else {
                Some(s)
            }
        },
        None => None,
    }
}

/// Build the outcome that answers with one status string and performs
/// nothing.
fn status_reply(a: ActionKind, s: ReplyStatus) -> (r: ProcessOutcome)
    ensures
        r@ == status_outcome(a, s),
{
    let r = ProcessOutcome {
        reply: Some(OutboundReply { action: a, body: ReplyBody::Status(s) }),
        effects: Vec::new(),
    };
    proof {
        assert(r@.effects =~= Seq::<EffectV>::empty());
    }
    r
}

impl MessageUtils {
    /// A fresh engine: empty store, empty log, group counter at its
    /// first value, and the given administrator public key (empty for
    /// "not configured", which refuses every user approval).
    pub fn new(admin_key: &str) -> (r: MessageUtils)
        ensures
            router_wf(r@),
            r@.store.users == Seq::<UserV>::empty(),
            r@.store.pending == Seq::<PendingV>::empty(),
            r@.store.groups == Seq::<GroupV>::empty(),
            r@.store.members == Seq::<MemberV>::empty(),
            r@.store.invites == Seq::<crate::store::InviteV>::empty(),
            r@.bus.entries == Seq::<EntryV>::empty(),
            r@.next_group == 1,
            r@.admin_key == admin_key@,
    {
        MessageUtils {
            db: DbUtils::new(),
            bus: FanoutBus::new(),
            next_group: 1,
            admin_key: admin_key.to_owned(),
        }
    }

    /// Decide a `register` request, given the proof-of-possession
    /// verdict `sig_ok` for the supplied key and signature.
    pub fn register_decide(&mut self, frame: &InboundFrame, sig_ok: bool) -> (r: ProcessOutcome)
        requires
            router_wf(old(self)@),
        ensures
            router_wf(final(self)@),
            register_step(old(self)@, final(self)@, frame@, sig_ok, r@),
    {
        let username = match good_field(&frame.username) {
            Some(u) => u,
            None => {
                return status_reply(ActionKind::Register, ReplyStatus::ErrMissingUsername);
            },
        };
        let public_key = match good_field(&frame.public_key) {
            Some(k) => k,
            None => {
                return status_reply(ActionKind::Register, ReplyStatus::ErrMissingPublicKey);
            },
        };
        match good_field(&frame.signature) {
            Some(_) => {},
            None => {
                return status_reply(ActionKind::Register, ReplyStatus::ErrMissingSignature);
            },
        };
        if !sig_ok {
            return status_reply(ActionKind::Register, ReplyStatus::ErrBadSignature);
        }
        match self.db.get_user_by_username(username.as_str()) {
            Some(_) => {
                return status_reply(ActionKind::Register, ReplyStatus::ErrAlreadyRegistered);
            },
            None => {},
        };
        if !self.db.add_pending_user(username.as_str(), public_key.as_str()) {
            return status_reply(ActionKind::Register, ReplyStatus::ErrAlreadyRegistered);
        }
        status_reply(ActionKind::Register, ReplyStatus::Pending)
    }

    /// Decide an administrator user-approval request, given the verdict
    /// `sig_ok` of the signature check against the configured
    /// administrator key (false as well where no key is configured).
    pub fn approve_user_decide(&mut self, frame: &InboundFrame, sig_ok: bool) -> (r:
        ProcessOutcome)
        requires
            router_wf(old(self)@),
        ensures
            router_wf(final(self)@),
            approve_user_step(old(self)@, final(self)@, frame@, sig_ok, r@),
    {
        let username = match good_field(&frame.username) {
            Some(u) => u,
            None => {
                return status_reply(ActionKind::ApproveGroup, ReplyStatus::ErrUnauthorized);
            },
        };
        match good_field(&frame.signature) {
            Some(_) => {},
            None => {
                return status_reply(ActionKind::ApproveGroup, ReplyStatus::ErrUnauthorized);
            },
        };
        if !sig_ok {
            return status_reply(ActionKind::ApproveGroup, ReplyStatus::ErrUnauthorized);
        }
        let public_key = match self.db.get_pending_user(username.as_str()) {
            Some(pk) => pk,
            None => {
                return status_reply(ActionKind::ApproveGroup, ReplyStatus::ErrApproveFailed);
            },
        };
        if !self.db.add_user(username.as_str(), public_key.as_str()) {
            return status_reply(ActionKind::ApproveGroup, ReplyStatus::ErrApproveFailed);
        }
        let removed = self.db.remove_pending_user(username.as_str());
        proof {
            assert(removed);
        }
        status_reply(ActionKind::ApproveGroup, ReplyStatus::Success)
    }

    /// Decide a `connect` request from the sender tag `tag`, given the
    /// verdict `sig_ok` of the signature check against the stored key.
    pub fn connect_decide(&mut self, tag: &str, frame: &InboundFrame, sig_ok: bool) -> (r:
        ProcessOutcome)
        requires
            router_wf(old(self)@),
        ensures
            router_wf(final(self)@),
            connect_step(old(self)@, final(self)@, tag@, frame@, sig_ok, r@),
    {
        let username = match good_field(&frame.username) {
            Some(u) => u,
            None => {
                return status_reply(ActionKind::Connect, ReplyStatus::ErrMissingUsername);
            },
        };
        let public_key = match good_field(&frame.public_key) {
            Some(k) => k,
            None => {
                return status_reply(ActionKind::Connect, ReplyStatus::ErrMissingPublicKey);
            },
        };
        match good_field(&frame.signature) {
            Some(_) => {},
            None => {
                return status_reply(ActionKind::Connect, ReplyStatus::ErrMissingSignature);
            },
        };
        let stored_key = match self.db.get_user_by_username(username.as_str()) {
            Some(p) => p.1,
            None => {
                return status_reply(ActionKind::Connect, ReplyStatus::ErrNotRegistered);
            },
        };
        if !same_key_fingerprint(public_key.as_str(), stored_key.as_str()) {
            return status_reply(ActionKind::Connect, ReplyStatus::ErrFingerprintMismatch);
        }
        if !sig_ok {
            return status_reply(ActionKind::Connect, ReplyStatus::ErrBadSignature);
        }
        let bound = self.db.set_sender_tag(username.as_str(), tag);
        proof {
            assert(bound);
        }
        let gs = self.db.get_groups_for_user(username.as_str());
        let mut effects: Vec<Effect> = Vec::new();
        let n = gs.len();
        let mut i: usize = 0;
        proof {
            assert(effects.deep_view() =~= subscribe_all(tag@, gs.deep_view().subrange(0, 0)));
        }
        while i < n
            invariant
                0 <= i <= n,
                n == gs.deep_view().len(),
                n == gs@.len(),
                effects.deep_view() == subscribe_all(tag@, gs.deep_view().subrange(0, i as int)),
            decreases n - i,
        {
            let ghost acc_before = effects.deep_view();
            effects.push(Effect::Subscribe { tag: tag.to_owned(), group_id: gs[i].clone() });
            proof {
                assert(effects.deep_view() =~= acc_before + seq![
                    (EffectV::Subscribe { tag: tag@, group_id: gs.deep_view()[i as int] }),
                ]);
                assert(effects.deep_view() =~= subscribe_all(
                    tag@,
                    gs.deep_view().subrange(0, i as int + 1),
                ));
            }
            i += 1;
        }
        proof {
            assert(gs.deep_view().subrange(0, n as int) =~= gs.deep_view());
        }
        ProcessOutcome {
            reply: Some(
                OutboundReply {
                    action: ActionKind::Connect,
                    body: ReplyBody::Status(ReplyStatus::Success),
                },
            ),
            effects,
        }
    }

    /// Handle a `createGroup` request from the sender tag `tag`.
    pub fn create_group_decide(&mut self, tag: &str, frame: &InboundFrame) -> (r: ProcessOutcome)
        requires
            router_wf(old(self)@),
        ensures
            router_wf(final(self)@),
            create_group_step(old(self)@, final(self)@, tag@, frame@, r@),
    {
        let caller = match self.db.get_user_by_tag(tag) {
            Some(p) => p.0,
            None => {
                return status_reply(ActionKind::CreateGroup, ReplyStatus::ErrUnknownUser);
            },
        };
        let group_name = match good_field(&frame.group_name) {
            Some(g) => g,
            None => {
                return status_reply(ActionKind::CreateGroup, ReplyStatus::ErrMissingGroupName);
            },
        };
        if self.next_group == u64::MAX {
            return status_reply(ActionKind::CreateGroup, ReplyStatus::ErrCreateFailed);
        }
        let is_public = match frame.is_public {
            Some(true) => true,
            _ => false,
        };
        let is_discoverable = match frame.is_discoverable {
            Some(true) => true,
            _ => false,
        };
        let group_id = u64_to_dec(self.next_group);
        proof {
            assert(!has_group(self@.store.groups, dec_digits(self.next_group as nat)));
        }
        let created = self.db.create_group(
            group_id.as_str(),
            group_name.as_str(),
            caller.as_str(),
            is_public,
            is_discoverable,
        );
        proof {
            assert(created);
            // A fresh id has no membership rows: every row names an
            // existing group, and the fresh id was unassigned.
            if is_member(self@.store.members, group_id@, caller@) {
                let j = choose|j: int| member_at(self@.store.members, j, group_id@, caller@);
                assert(has_group(old(self)@.store.groups, old(self)@.store.members[j].group_id));
            }
        }
        let joined = self.db.add_group_member(group_id.as_str(), caller.as_str());
        proof {
            assert(joined);
        }
        self.next_group = self.next_group + 1;
        proof {
            let pre = old(self)@;
            let post = self@;
            let g = dec_digits(pre.next_group as nat);
            // Freshness carries to the incremented counter: decimal
            // numerals of distinct numbers differ.
            assert forall|k: nat| post.next_group <= k implies !has_group(
                post.store.groups,
                #[trigger] dec_digits(k),
            ) by {
                lemma_dec_digits_value(k);
                lemma_dec_digits_value(pre.next_group as nat);
                assert(dec_digits(k) != g);
                assert(!has_group(pre.store.groups, dec_digits(k)));
            }
            assert forall|i: int| 0 <= i < post.store.members.len() implies has_group(
                post.store.groups,
                #[trigger] post.store.members[i].group_id,
            ) by {
                if i < pre.store.members.len() {
                    assert(has_group(pre.store.groups, pre.store.members[i].group_id));
                    if pre.store.members[i].group_id == g {
                        assert(!has_group(pre.store.groups, dec_digits(pre.next_group as nat)));
                    }
                } else {
                    assert(post.store.members[i].group_id == g);
                }
            }
        }
        let mut effects: Vec<Effect> = Vec::new();
        proof {
            assert(effects.deep_view() =~= Seq::<EffectV>::empty());
        }
        ProcessOutcome {
            reply: Some(
                OutboundReply { action: ActionKind::CreateGroup, body: ReplyBody::GroupId(group_id) },
            ),
            effects,
        }
    }

    /// Handle a `joinGroup` request from the sender tag `tag`.
    pub fn join_group_decide(&mut self, tag: &str, frame: &InboundFrame) -> (r: ProcessOutcome)
        requires
            router_wf(old(self)@),
        ensures
            router_wf(final(self)@),
            join_group_step(old(self)@, final(self)@, tag@, frame@, r@),
    {
        let caller = match self.db.get_user_by_tag(tag) {
            Some(p) => p.0,
            None => {
                return status_reply(ActionKind::JoinGroup, ReplyStatus::ErrUnknownUser);
            },
        };
        let group_id = match good_field(&frame.group_id) {
            Some(g) => g,
            None => {
                return status_reply(ActionKind::JoinGroup, ReplyStatus::ErrMissingGroupId);
            },
        };
        if !self.db.group_exists(group_id.as_str()) {
            return status_reply(ActionKind::JoinGroup, ReplyStatus::ErrUnknownGroup);
        }
        if !self.db.is_group_public(group_id.as_str()) {
            return status_reply(ActionKind::JoinGroup, ReplyStatus::ErrGroupPrivate);
        }
        if !self.db.add_group_member(group_id.as_str(), caller.as_str()) {
            return status_reply(ActionKind::JoinGroup, ReplyStatus::ErrAlreadyMember);
        }
        status_reply(ActionKind::JoinGroup, ReplyStatus::Success)
    }

    /// Handle an `inviteGroup` request from the sender tag `tag`.
    pub fn invite_group_decide(&mut self, tag: &str, frame: &InboundFrame) -> (r: ProcessOutcome)
        requires
            router_wf(old(self)@),
        ensures
            router_wf(final(self)@),
            invite_group_step(old(self)@, final(self)@, tag@, frame@, r@),
    {
        let caller = match self.db.get_user_by_tag(tag) {
            Some(p) => p.0,
            None => {
                return status_reply(ActionKind::InviteGroup, ReplyStatus::ErrUnknownUser);
            },
        };
        let group_id = match good_field(&frame.group_id) {
            Some(g) => g,
            None => {
                return status_reply(ActionKind::InviteGroup, ReplyStatus::ErrMissingGroupId);
            },
        };
        let invitee = match good_field(&frame.username) {
            Some(u) => u,
            None => {
                return status_reply(ActionKind::InviteGroup, ReplyStatus::ErrMissingUsername);
            },
        };
        if !self.db.is_user_admin(group_id.as_str(), caller.as_str()) {
            return status_reply(ActionKind::InviteGroup, ReplyStatus::ErrNotAdmin);
        }
        match self.db.get_user_by_username(invitee.as_str()) {
            Some(_) => {},
            None => {
                return status_reply(ActionKind::InviteGroup, ReplyStatus::ErrNotRegistered);
            },
        };
        if !self.db.add_group_invite(group_id.as_str(), invitee.as_str()) {
            return status_reply(ActionKind::InviteGroup, ReplyStatus::ErrAlreadyInvited);
        }
        let mut effects: Vec<Effect> = Vec::new();
        proof {
            assert(effects.deep_view() =~= Seq::<EffectV>::empty());
        }
        let ghost acc_before = effects.deep_view();
        match self.db.get_sender_tag(invitee.as_str()) {
            Some(t) => {
                effects.push(
                    Effect::Notify {
                        tag: t,
                        group_id: group_id.clone(),
                        username: invitee.clone(),
                    },
                );
                proof {
                    assert(effects.deep_view() =~= acc_before + seq![
                        (EffectV::Notify {
                            tag: user_tag(old(self)@.store.users, invitee@).unwrap(),
                            group_id: group_id@,
                            username: invitee@,
                        }),
                    ]);
                }
            },
            None => {},
        };
        ProcessOutcome {
            reply: Some(
                OutboundReply {
                    action: ActionKind::InviteGroup,
                    body: ReplyBody::Status(ReplyStatus::Success),
                },
            ),
            effects,
        }
    }

    /// Handle a membership-approval `approveGroup` request from the
    /// sender tag `tag`.
    pub fn approve_member_decide(&mut self, tag: &str, frame: &InboundFrame) -> (r:
        ProcessOutcome)
        requires
            router_wf(old(self)@),
        ensures
            router_wf(final(self)@),
            approve_member_step(old(self)@, final(self)@, tag@, frame@, r@),
    {
        let caller = match self.db.get_user_by_tag(tag) {
            Some(p) => p.0,
            None => {
                return status_reply(ActionKind::ApproveGroup, ReplyStatus::ErrUnknownUser);
            },
        };
        let group_id = match good_field(&frame.group_id) {
            Some(g) => g,
            None => {
                return status_reply(ActionKind::ApproveGroup, ReplyStatus::ErrMissingGroupId);
            },
        };
        let username = match good_field(&frame.username) {
            Some(u) => u,
            None => {
                return status_reply(ActionKind::ApproveGroup, ReplyStatus::ErrMissingUsername);
            },
        };
        if !self.db.is_user_admin(group_id.as_str(), caller.as_str()) {
            return status_reply(ActionKind::ApproveGroup, ReplyStatus::ErrNotAdmin);
        }
        if !self.db.is_user_invited(group_id.as_str(), username.as_str()) {
            return status_reply(ActionKind::ApproveGroup, ReplyStatus::ErrNotInvited);
        }
        if !self.db.add_group_member(group_id.as_str(), username.as_str()) {
            return status_reply(ActionKind::ApproveGroup, ReplyStatus::ErrApproveFailed);
        }
        let consumed = self.db.remove_group_invite(group_id.as_str(), username.as_str());
        proof {
            assert(consumed);
        }
        status_reply(ActionKind::ApproveGroup, ReplyStatus::Success)
    }

    /// Handle a `sendGroup` request from the sender tag `tag`.
    pub fn send_group_decide(&mut self, tag: &str, frame: &InboundFrame) -> (r: ProcessOutcome)
        requires
            router_wf(old(self)@),
        ensures
            router_wf(final(self)@),
            send_group_step(old(self)@, final(self)@, tag@, frame@, r@),
    {
        let ciphertext = match good_field(&frame.ciphertext) {
            Some(c) => c,
            None => {
                return status_reply(ActionKind::SendGroup, ReplyStatus::ErrMissingCiphertext);
            },
        };
        let caller = match self.db.get_user_by_tag(tag) {
            Some(p) => p.0,
            None => {
                return status_reply(ActionKind::SendGroup, ReplyStatus::ErrUnknownUser);
            },
        };
        let group_id = match good_field(&frame.group_id) {
            Some(g) => g,
            None => {
                return status_reply(ActionKind::SendGroup, ReplyStatus::ErrMissingGroupId);
            },
        };
        if !self.db.is_group_member(group_id.as_str(), caller.as_str()) {
            return status_reply(ActionKind::SendGroup, ReplyStatus::ErrNotMember);
        }
        match self.bus.append(group_id.as_str(), caller.as_str(), ciphertext.as_str()) {
            Some(_) => {},
            None => {
                return status_reply(ActionKind::SendGroup, ReplyStatus::ErrSendFailed);
            },
        };
        let members = self.db.get_group_members(group_id.as_str());
        let mut effects: Vec<Effect> = Vec::new();
        let n = members.len();
        let mut i: usize = 0;
        proof {
            assert(members.deep_view().subrange(0, 0) =~= Seq::<Seq<char>>::empty());
            assert(effects.deep_view() =~= Seq::<EffectV>::empty());
        }
        while i < n
            invariant
                0 <= i <= n,
                n == members@.len(),
                n == members.deep_view().len(),
                store_wf(self@.store),
                self@.store == old(self)@.store,
                effects.deep_view() == deliver_list(
                    self@.store.users,
                    members.deep_view().subrange(0, i as int),
                    frame@.group_id.unwrap(),
                    tag_user(old(self)@.store.users, tag@),
                    frame@.ciphertext.unwrap(),
                ),
                caller@ == tag_user(old(self)@.store.users, tag@),
                group_id@ == frame@.group_id.unwrap(),
                ciphertext@ == frame@.ciphertext.unwrap(),
            decreases n - i,
        {
            let ghost ws_prefix = members.deep_view().subrange(0, i as int);
            let ghost ws_extended = members.deep_view().subrange(0, i as int + 1);
            proof {
                assert(ws_extended.drop_last() =~= ws_prefix);
                assert(ws_extended.last() == members.deep_view()[i as int]);
                assert(members.deep_view()[i as int] == members@[i as int]@);
            }
            let ghost acc_before = effects.deep_view();
            match self.db.get_sender_tag(members[i].as_str()) {
                Some(t) => {
                    effects.push(
                        Effect::Deliver {
                            tag: t,
                            group_id: group_id.clone(),
                            sender: caller.clone(),
                            ciphertext: ciphertext.clone(),
                        },
                    );
                    proof {
                        assert(effects.deep_view() =~= acc_before + seq![
                            (EffectV::Deliver {
                                tag: user_tag(
                                    self@.store.users,
                                    members.deep_view()[i as int],
                                ).unwrap(),
                                group_id: group_id@,
                                sender: caller@,
                                ciphertext: ciphertext@,
                            }),
                        ]);
                    }
                },
                None => {
                    proof {
                        assert(deliver_list(
                            self@.store.users,
                            ws_extended,
                            frame@.group_id.unwrap(),
                            tag_user(old(self)@.store.users, tag@),
                            frame@.ciphertext.unwrap(),
                        ) =~= deliver_list(
                            self@.store.users,
                            ws_prefix,
                            frame@.group_id.unwrap(),
                            tag_user(old(self)@.store.users, tag@),
                            frame@.ciphertext.unwrap(),
                        ));
                    }
                },
            };
            i += 1;
        }
        proof {
            assert(members.deep_view().subrange(0, n as int) =~= members.deep_view());
        }
        ProcessOutcome {
            reply: Some(
                OutboundReply {
                    action: ActionKind::SendGroup,
                    body: ReplyBody::Status(ReplyStatus::Success),
                },
            ),
            effects,
        }
    }

    /// Decide a `fetchGroup` request from the sender tag `tag`, given
    /// the verdict `sig_ok` of the signature check over the effective
    /// cursor text against the caller's registered key.  A request
    /// without a `lastSeenId` reads from the log's origin.
    pub fn fetch_group_decide(&self, tag: &str, frame: &InboundFrame, sig_ok: bool) -> (r:
        ProcessOutcome)
        requires
            router_wf(self@),
        ensures
            fetch_group_step(self@, tag@, frame@, sig_ok, r@),
    {
        let cursor_text: &str = match good_field(&frame.last_seen_id) {
            Some(s) => s.as_str(),
            None => "0-0",
        };
        match good_field(&frame.signature) {
            Some(_) => {},
            None => {
                return status_reply(ActionKind::FetchGroup, ReplyStatus::ErrMissingSignature);
            },
        };
        let caller = match self.db.get_user_by_tag(tag) {
            Some(p) => p.0,
            None => {
                return status_reply(ActionKind::FetchGroup, ReplyStatus::ErrNotRegistered);
            },
        };
        if !sig_ok {
            return status_reply(ActionKind::FetchGroup, ReplyStatus::ErrBadSignature);
        }
        let group_id = match good_field(&frame.group_id) {
            Some(g) => g,
            None => {
                return status_reply(ActionKind::FetchGroup, ReplyStatus::ErrMissingGroupId);
            },
        };
        if !self.db.is_group_member(group_id.as_str(), caller.as_str()) {
            return status_reply(ActionKind::FetchGroup, ReplyStatus::ErrNotMember);
        }
        let cursor = match EntryId::parse(cursor_text) {
            Some(c) => c,
            None => {
                return status_reply(ActionKind::FetchGroup, ReplyStatus::ErrMalformedLastSeen);
            },
        };
        let msgs = self.bus.read_after(group_id.as_str(), cursor);
        let mut effects: Vec<Effect> = Vec::new();
        proof {
            assert(effects.deep_view() =~= Seq::<EffectV>::empty());
        }
        ProcessOutcome {
            reply: Some(
                OutboundReply { action: ActionKind::FetchGroup, body: ReplyBody::Messages(msgs) },
            ),
            effects,
        }
    }

    /// Process one inbound frame from the sender tag `tag`: dispatch on
    /// the action verb, perform the signature check the action calls
    /// for, and execute.  A frame with an unknown verb is dropped —
    /// replying to it would answer an unauthenticated party.
    ///
    /// Where a handler rests on a signature verdict, the contract holds
    /// whatever the OpenPGP layer answered: some verdict explains the
    /// outcome.
    pub fn process_received_message(&mut self, tag: &str, frame: &InboundFrame) -> (r:
        ProcessOutcome)
        requires
            router_wf(old(self)@),
        ensures
            router_wf(final(self)@),
            frame@.action == "register"@ ==> exists|ok: bool|
                register_step(old(self)@, final(self)@, frame@, ok, r@),
            frame@.action == "approveGroup"@ && frame@.group_id is None ==> exists|ok: bool|
                approve_user_step(old(self)@, final(self)@, frame@, ok, r@),
            frame@.action == "approveGroup"@ && frame@.group_id is Some ==> approve_member_step(
                old(self)@,
                final(self)@,
                tag@,
                frame@,
                r@,
            ),
            frame@.action == "connect"@ ==> exists|ok: bool|
                connect_step(old(self)@, final(self)@, tag@, frame@, ok, r@),
            frame@.action == "createGroup"@ ==> create_group_step(
                old(self)@,
                final(self)@,
                tag@,
                frame@,
                r@,
            ),
            frame@.action == "joinGroup"@ ==> join_group_step(
                old(self)@,
                final(self)@,
                tag@,
                frame@,
                r@,
            ),
            frame@.action == "inviteGroup"@ ==> invite_group_step(
                old(self)@,
                final(self)@,
                tag@,
                frame@,
                r@,
            ),
            frame@.action == "sendGroup"@ ==> send_group_step(
                old(self)@,
                final(self)@,
                tag@,
                frame@,
                r@,
            ),
            frame@.action == "fetchGroup"@ ==> final(self)@ == old(self)@ && exists|ok: bool|
                fetch_group_step(old(self)@, tag@, frame@, ok, r@),
            unknown_action(frame@.action) ==> r@.reply is None && r@.effects == Seq::<
                EffectV,
            >::empty() && final(self)@ == old(self)@,
    {
        proof {
            reveal_strlit("register");
            reveal_strlit("approveGroup");
            reveal_strlit("connect");
            reveal_strlit("createGroup");
            reveal_strlit("joinGroup");
            reveal_strlit("inviteGroup");
            reveal_strlit("sendGroup");
            reveal_strlit("fetchGroup");
            // Pin each verb's length (and a first character where two
            // lengths agree) so the verbs are pairwise distinct.
            assert("register"@.len() == 8);
            assert("approveGroup"@.len() == 12);
            assert("connect"@.len() == 7);
            assert("createGroup"@.len() == 11);
            assert("joinGroup"@.len() == 9);
            assert("inviteGroup"@.len() == 11);
            assert("sendGroup"@.len() == 9);
            assert("fetchGroup"@.len() == 10);
            assert("createGroup"@[0] == 'c' && "inviteGroup"@[0] == 'i');
            assert("joinGroup"@[0] == 'j' && "sendGroup"@[0] == 's');
        }
        if str_eq(frame.action.as_str(), "register") {
            let ok = match (&frame.public_key, &frame.signature) {
                (Some(pk), Some(sig)) => verify_pgp_signature(
                    pk.as_str(),
                    pk.as_str(),
                    sig.as_str(),
                ),
                _ => false,
            };
            let r = self.register_decide(frame, ok);
            proof {
                assert(register_step(old(self)@, self@, frame@, ok, r@));
            }
            r
        } else if str_eq(frame.action.as_str(), "approveGroup") {
            match &frame.group_id {
                Some(_) => self.approve_member_decide(tag, frame),
                None => {
                    let ok = match (&frame.username, &frame.signature) {
                        (Some(u), Some(sig)) => !self.admin_key.as_str().is_empty()
                            && verify_pgp_signature(
                            self.admin_key.as_str(),
                            u.as_str(),
                            sig.as_str(),
                        ),
                        _ => false,
                    };
                    let r = self.approve_user_decide(frame, ok);
                    proof {
                        assert(approve_user_step(old(self)@, self@, frame@, ok, r@));
                    }
                    r
                },
            }
        } else if str_eq(frame.action.as_str(), "connect") {
            let ok = match (&frame.username, &frame.signature) {
                (Some(u), Some(sig)) => match self.db.get_user_by_username(u.as_str()) {
                    Some(p) => verify_pgp_signature(p.1.as_str(), u.as_str(), sig.as_str()),
                    None => false,
                },
                _ => false,
            };
            let r = self.connect_decide(tag, frame, ok);
            proof {
                assert(connect_step(old(self)@, self@, tag@, frame@, ok, r@));
            }
            r
        } else if str_eq(frame.action.as_str(), "createGroup") {
            self.create_group_decide(tag, frame)
        } else if str_eq(frame.action.as_str(), "joinGroup") {
            self.join_group_decide(tag, frame)
        } else if str_eq(frame.action.as_str(), "inviteGroup") {
            self.invite_group_decide(tag, frame)
        } else if str_eq(frame.action.as_str(), "sendGroup") {
            self.send_group_decide(tag, frame)
        } else if str_eq(frame.action.as_str(), "fetchGroup") {
            let ok = match &frame.signature {
                Some(sig) => match self.db.get_user_by_tag(tag) {
                    Some(p) => {
                        let cursor_text: &str = match good_field(&frame.last_seen_id) {
                            Some(s) => s.as_str(),
                            None => "0-0",
                        };
                        verify_pgp_signature(p.1.as_str(), cursor_text, sig.as_str())
                    },
                    None => false,
                },
                None => false,
            };
            let r = self.fetch_group_decide(tag, frame, ok);
            proof {
                assert(fetch_group_step(self@, tag@, frame@, ok, r@));
            }
            r
        } else {
            let r = ProcessOutcome { reply: None, effects: Vec::new() };
            proof {
                assert(r@.effects =~= Seq::<EffectV>::empty());
            }
            r
        }
    }
}

/// An action verb the relay does not know: such a frame is dropped.
pub open spec fn unknown_action(a: Seq<char>) -> bool {
    a != "register"@ && a != "approveGroup"@ && a != "connect"@ && a != "createGroup"@ && a
        != "joinGroup"@ && a != "inviteGroup"@ && a != "sendGroup"@ && a != "fetchGroup"@
}

} // verus!
