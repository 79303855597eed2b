//! The protocol's cross-call guarantees, stated and proved over the
//! router's step predicates.
//!
//! Each law here relates one or two protocol steps: what a second call
//! must answer after a first one succeeded, or which reply an
//! authorization failure forces whatever the rest of the state looks
//! like.  The single-call guarantees live in the step predicates
//! themselves; the ordering guarantees of the durable log live in
//! [`crate::bus`].

use vstd::prelude::*;

use crate::bus::{EntryV, group_entries, ids_increasing, lemma_fetch_from_origin, lemma_group_entries_push};
use crate::ids::{EntryId, dec_value, digit_val, is_dec_numeral, parse_entry_id_chars};
use crate::bus::origin_id;
use crate::router::{
    RouterV, approve_member_step, connect_step, fetch_cursor_chars, fetch_group_step,
    invite_group_step, join_group_step, register_step, router_wf, send_group_step,
};
use crate::store::{
    group_rec, has_group, has_tag, has_user, is_member, member_at, pending_at, tag_user, user_key,
    user_tag,
};
use crate::wire::{ActionKind, BodyV, FrameV, OutcomeV, ReplyStatus, ReplyV, field_bad, status_outcome};
use crate::crypto::cert_fingerprint_of;

verus! {

/// Idempotent registration.
///
/// Law: once a username has registered (the relay answered `pending`),
/// a second registration under the same username is refused as already
/// registered and changes nothing — whatever key material the second
/// attempt carries, as long as its fields are present and its signature
/// checked.
pub proof fn lemma_register_idempotent(
    s0: RouterV,
    s1: RouterV,
    s2: RouterV,
    f1: FrameV,
    f2: FrameV,
    ok1: bool,
    ok2: bool,
    out1: OutcomeV,
    out2: OutcomeV,
)
    requires
        register_step(s0, s1, f1, ok1, out1),
        out1 == status_outcome(ActionKind::Register, ReplyStatus::Pending),
        register_step(s1, s2, f2, ok2, out2),
        f2.username == f1.username,
        !field_bad(f2.public_key),
        !field_bad(f2.signature),
        ok2,
    ensures
        out2 == status_outcome(ActionKind::Register, ReplyStatus::ErrAlreadyRegistered),
        s2 == s1,
{
    let u = f1.username.unwrap();
    assert(s1.store.pending[s0.store.pending.len() as int].username == u);
    assert(pending_at(s1.store.pending, s0.store.pending.len() as int, u));
}

/// Fingerprint binding.
///
/// Law: a `connect` whose supplied key block does not carry the exact
/// fingerprint stored for the username is refused with the mismatch
/// error and changes nothing — even where the signature verdict is
/// positive.
pub proof fn lemma_connect_fingerprint_binding(
    pre: RouterV,
    post: RouterV,
    tag: Seq<char>,
    frame: FrameV,
    ok: bool,
    out: OutcomeV,
)
    requires
        connect_step(pre, post, tag, frame, ok, out),
        !field_bad(frame.username),
        !field_bad(frame.public_key),
        !field_bad(frame.signature),
        has_user(pre.store.users, frame.username.unwrap()),
        !(cert_fingerprint_of(frame.public_key.unwrap()) is Some && cert_fingerprint_of(
            frame.public_key.unwrap(),
        ) == cert_fingerprint_of(user_key(pre.store.users, frame.username.unwrap()))),
    ensures
        out == status_outcome(ActionKind::Connect, ReplyStatus::ErrFingerprintMismatch),
        post == pre,
{
}

/// Membership exclusivity, closed half.
///
/// Law: `joinGroup` on a group that exists and is not public is refused
/// as private and changes nothing, for every connected caller.
pub proof fn lemma_join_private(
    pre: RouterV,
    post: RouterV,
    tag: Seq<char>,
    frame: FrameV,
    out: OutcomeV,
)
    requires
        join_group_step(pre, post, tag, frame, out),
        has_tag(pre.store.users, tag),
        !field_bad(frame.group_id),
        has_group(pre.store.groups, frame.group_id.unwrap()),
        !group_rec(pre.store.groups, frame.group_id.unwrap()).is_public,
    ensures
        out == status_outcome(ActionKind::JoinGroup, ReplyStatus::ErrGroupPrivate),
        post == pre,
{
}

/// Membership exclusivity, open half.
///
/// Law: after a caller's `joinGroup` succeeded, the same caller's
/// second `joinGroup` on the same group is a harmless no-op failure:
/// it answers "already a member" and changes nothing.
pub proof fn lemma_join_public_exclusive(
    s0: RouterV,
    s1: RouterV,
    s2: RouterV,
    tag: Seq<char>,
    f1: FrameV,
    f2: FrameV,
    out1: OutcomeV,
    out2: OutcomeV,
)
    requires
        join_group_step(s0, s1, tag, f1, out1),
        out1 == status_outcome(ActionKind::JoinGroup, ReplyStatus::Success),
        join_group_step(s1, s2, tag, f2, out2),
        f2.group_id == f1.group_id,
    ensures
        out2 == status_outcome(ActionKind::JoinGroup, ReplyStatus::ErrAlreadyMember),
        s2 == s1,
{
    let g = f1.group_id.unwrap();
    let u = tag_user(s0.store.users, tag);
    assert(s1.store.members[s0.store.members.len() as int] == (crate::store::MemberV {
        group_id: g,
        username: u,
    }));
    assert(member_at(s1.store.members, s0.store.members.len() as int, g, u));
}

/// Admin gating of invitations.
///
/// Law: an `inviteGroup` by a caller that is not the group's admin —
/// including on a group that does not exist — is refused as not-admin
/// and changes nothing, independent of invitation or membership state.
pub proof fn lemma_invite_admin_gating(
    pre: RouterV,
    post: RouterV,
    tag: Seq<char>,
    frame: FrameV,
    out: OutcomeV,
)
    requires
        invite_group_step(pre, post, tag, frame, out),
        has_tag(pre.store.users, tag),
        !field_bad(frame.group_id),
        !field_bad(frame.username),
        !(has_group(pre.store.groups, frame.group_id.unwrap()) && group_rec(
            pre.store.groups,
            frame.group_id.unwrap(),
        ).admin == tag_user(pre.store.users, tag)),
    ensures
        out == status_outcome(ActionKind::InviteGroup, ReplyStatus::ErrNotAdmin),
        post == pre,
{
}

/// Admin gating of membership approval.
///
/// Law: an `approveGroup` by a caller that is not the group's admin is
/// refused as not-admin and changes nothing, independent of invitation
/// or membership state.
pub proof fn lemma_approve_admin_gating(
    pre: RouterV,
    post: RouterV,
    tag: Seq<char>,
    frame: FrameV,
    out: OutcomeV,
)
    requires
        approve_member_step(pre, post, tag, frame, out),
        has_tag(pre.store.users, tag),
        !field_bad(frame.group_id),
        !field_bad(frame.username),
        !(has_group(pre.store.groups, frame.group_id.unwrap()) && group_rec(
            pre.store.groups,
            frame.group_id.unwrap(),
        ).admin == tag_user(pre.store.users, tag)),
    ensures
        out == status_outcome(ActionKind::ApproveGroup, ReplyStatus::ErrNotAdmin),
        post == pre,
{
}

/// Invite consumption.
///
/// Law: after an `approveGroup` succeeded, a repeated `approveGroup`
/// for the same group and user by the same admin session answers "user
/// not invited" and changes nothing: the invitation was consumed.
pub proof fn lemma_invite_consumed(
    s0: RouterV,
    s1: RouterV,
    s2: RouterV,
    tag: Seq<char>,
    f1: FrameV,
    f2: FrameV,
    out1: OutcomeV,
    out2: OutcomeV,
)
    requires
        approve_member_step(s0, s1, tag, f1, out1),
        out1 == status_outcome(ActionKind::ApproveGroup, ReplyStatus::Success),
        approve_member_step(s1, s2, tag, f2, out2),
        f2.group_id == f1.group_id,
        f2.username == f1.username,
    ensures
        out2 == status_outcome(ActionKind::ApproveGroup, ReplyStatus::ErrNotInvited),
        s2 == s1,
{
}

/// Fan-out ordering, append half.
///
/// Law: a successful `sendGroup` appends exactly one entry, carrying
/// the sender and the untouched ciphertext under the freshly assigned
/// identifier, to its group's log view, and leaves every other group's
/// view unchanged.  Together with [`crate::bus::lemma_fetch_from_origin`]
/// and [`crate::bus::lemma_fetch_after_last`] this pins what `fetchGroup`
/// returns after a run of sends.
pub proof fn lemma_send_appends(
    pre: RouterV,
    post: RouterV,
    tag: Seq<char>,
    frame: FrameV,
    out: OutcomeV,
)
    requires
        send_group_step(pre, post, tag, frame, out),
        out.reply == Some(
            (ReplyV { action: ActionKind::SendGroup, body: BodyV::Status(ReplyStatus::Success) }),
        ),
    ensures
        group_entries(post.bus.entries, frame.group_id.unwrap()) == group_entries(
            pre.bus.entries,
            frame.group_id.unwrap(),
        ).push(
            (EntryV {
                group_id: frame.group_id.unwrap(),
                entry_id: (EntryId { ms: pre.bus.next_ms, seq: 0 }),
                sender: tag_user(pre.store.users, tag),
                ciphertext: frame.ciphertext.unwrap(),
            }),
        ),
        forall|h: Seq<char>|
            h != frame.group_id.unwrap() ==> #[trigger] group_entries(post.bus.entries, h)
                == group_entries(pre.bus.entries, h),
{
    let g = frame.group_id.unwrap();
    let e = EntryV {
        group_id: g,
        entry_id: EntryId { ms: pre.bus.next_ms, seq: 0 },
        sender: tag_user(pre.store.users, tag),
        ciphertext: frame.ciphertext.unwrap(),
    };
    lemma_group_entries_push(pre.bus.entries, e, g);
    assert forall|h: Seq<char>| h != g implies #[trigger] group_entries(post.bus.entries, h)
        == group_entries(pre.bus.entries, h) by {
        lemma_group_entries_push(pre.bus.entries, e, h);
    }
}

/// Idempotent re-binding.
///
/// Law: repeated `connect` calls are idempotent re-binds: after one
/// `connect` succeeded, a second successful `connect` by the same user
/// from the same tag leaves every user's key, existence and tag binding
/// as the first one left them, and asks for the same subscriptions.
pub proof fn lemma_connect_rebind_idempotent(
    s0: RouterV,
    s1: RouterV,
    s2: RouterV,
    tag: Seq<char>,
    f1: FrameV,
    f2: FrameV,
    ok1: bool,
    ok2: bool,
    out1: OutcomeV,
    out2: OutcomeV,
)
    requires
        connect_step(s0, s1, tag, f1, ok1, out1),
        connect_step(s1, s2, tag, f2, ok2, out2),
        f2.username == f1.username,
        out1.reply == Some(
            (ReplyV { action: ActionKind::Connect, body: BodyV::Status(ReplyStatus::Success) }),
        ),
        out2.reply == Some(
            (ReplyV { action: ActionKind::Connect, body: BodyV::Status(ReplyStatus::Success) }),
        ),
    ensures
        forall|w: Seq<char>| #[trigger] has_user(s2.store.users, w) == has_user(s1.store.users, w),
        forall|w: Seq<char>|
            has_user(s1.store.users, w) ==> #[trigger] user_key(s2.store.users, w) == user_key(
                s1.store.users,
                w,
            ),
        forall|w: Seq<char>|
            has_user(s1.store.users, w) ==> #[trigger] user_tag(s2.store.users, w) == user_tag(
                s1.store.users,
                w,
            ),
        out2.effects == out1.effects,
{
    let u = f1.username.unwrap();
    assert forall|w: Seq<char>| has_user(s1.store.users, w) implies #[trigger] user_tag(
        s2.store.users,
        w,
    ) == user_tag(s1.store.users, w) by {
        if w != u {
            assert(has_user(s0.store.users, w));
            // The first connect left `tag` bound to `u` alone, so the
            // second one displaces nobody.
            assert(user_tag(s1.store.users, w) != Some(tag));
        }
    }
}

/// Fan-out ordering at the protocol level.
///
/// Law: a `fetchGroup` whose effective cursor is the origin — the wire
/// spelling `"0-0"`, or no `lastSeenId` at all, which defaults to it —
/// by a connected member with a checked signature, returns exactly the
/// group's entries, in append order, with strictly increasing entry
/// identifiers; and after any run of sends, a `fetchGroup` from the
/// last returned identifier returns nothing
/// ([`crate::bus::lemma_fetch_after_last`]).
pub proof fn lemma_fetch_origin_reads_group(
    v: RouterV,
    tag: Seq<char>,
    frame: FrameV,
    ok: bool,
    out: OutcomeV,
)
    requires
        router_wf(v),
        fetch_group_step(v, tag, frame, ok, out),
        fetch_cursor_chars(frame) == "0-0"@,
        !field_bad(frame.signature),
        has_tag(v.store.users, tag),
        ok,
        !field_bad(frame.group_id),
        is_member(v.store.members, frame.group_id.unwrap(), tag_user(v.store.users, tag)),
    ensures
        out.reply == Some(
            (ReplyV {
                action: ActionKind::FetchGroup,
                body: BodyV::Messages(group_entries(v.bus.entries, frame.group_id.unwrap())),
            }),
        ),
        ids_increasing(group_entries(v.bus.entries, frame.group_id.unwrap())),
{
    reveal_strlit("0-0");
    assert("0-0"@.len() == 3);
    lemma_origin_wire_spelling();
    lemma_fetch_from_origin(v.bus, frame.group_id.unwrap());
}

/// The wire spelling `"0-0"` is the origin cursor: a `fetchGroup` from
/// it reads a group's whole log.
pub proof fn lemma_origin_wire_spelling()
    ensures
        parse_entry_id_chars("0-0"@) == Some(origin_id()),
{
    reveal_strlit("0-0");
    let s = "0-0"@;
    assert(s.len() == 3);
    assert(s[1] == '-');
    assert(s.contains('-'));
    s.index_of_first_ensures('-');
    let i = s.index_of_first('-').unwrap();
    assert(s[0] == '0');
    assert(i == 1);
    let a = s.subrange(0, 1);
    let b = s.subrange(2, 3);
    assert(a =~= seq!['0']);
    assert(b =~= seq!['0']);
    assert(a.drop_last() =~= Seq::<char>::empty());
    assert(a.last() == '0');
    assert(digit_val('0') == 0);
    assert(dec_value(a.drop_last()) == 0);
    assert(dec_value(a) == 0);
    assert(is_dec_numeral(a));
    assert(b.drop_last() =~= Seq::<char>::empty());
    assert(b.last() == '0');
    assert(dec_value(b.drop_last()) == 0);
    assert(dec_value(b) == 0);
    assert(is_dec_numeral(b));
}

} // verus!
