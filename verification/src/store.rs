//! In-memory identity store: users, pending registrations, groups,
//! memberships and invitations.
//!
//! This is the store the protocol router runs against.  Every table is a
//! vector of records keyed by strings from the wire; well-formedness says
//! the keys are unique, so each lookup observation is determined.  All
//! operations are total: a structural duplicate insert reports `false`,
//! never an error.

use vstd::prelude::*;

use crate::text::str_eq;

verus! {

/// A registered user: the key is bound to the name for good, the sender
/// tag is a volatile routing hint rebound on every successful `connect`.
pub struct UserRec {
    pub username: String,
    pub public_key: String,
    pub sender_tag: Option<String>,
}

/// A registration awaiting administrative approval.
pub struct PendingRec {
    pub username: String,
    pub public_key: String,
}

/// A group: one admin, flags for self-join and discovery.
pub struct GroupRec {
    pub group_id: String,
    pub group_name: String,
    pub admin: String,
    pub is_public: bool,
    pub is_discoverable: bool,
}

/// Membership of one user in one group.
pub struct MemberRec {
    pub group_id: String,
    pub username: String,
}

/// An outstanding invitation of one user to one group.
pub struct InviteRec {
    pub group_id: String,
    pub username: String,
}

/// Ghost image of a user record.
pub struct UserV {
    pub username: Seq<char>,
    pub public_key: Seq<char>,
    pub sender_tag: Option<Seq<char>>,
}

/// Ghost image of a pending registration.
pub struct PendingV {
    pub username: Seq<char>,
    pub public_key: Seq<char>,
}

/// Ghost image of a group record.
pub struct GroupV {
    pub group_id: Seq<char>,
    pub group_name: Seq<char>,
    pub admin: Seq<char>,
    pub is_public: bool,
    pub is_discoverable: bool,
}

/// Ghost image of a membership row.
pub struct MemberV {
    pub group_id: Seq<char>,
    pub username: Seq<char>,
}

/// Ghost image of an invitation row.
pub struct InviteV {
    pub group_id: Seq<char>,
    pub username: Seq<char>,
}

impl View for UserRec {
    type V = UserV;

    open spec fn view(&self) -> UserV {
        UserV {
            username: self.username@,
            public_key: self.public_key@,
            sender_tag: self.sender_tag.deep_view(),
        }
    }
}

impl View for PendingRec {
    type V = PendingV;

    open spec fn view(&self) -> PendingV {
        PendingV { username: self.username@, public_key: self.public_key@ }
    }
}

impl View for GroupRec {
    type V = GroupV;

    open spec fn view(&self) -> GroupV {
        GroupV {
            group_id: self.group_id@,
            group_name: self.group_name@,
            admin: self.admin@,
            is_public: self.is_public,
            is_discoverable: self.is_discoverable,
        }
    }
}

impl View for MemberRec {
    type V = MemberV;

    open spec fn view(&self) -> MemberV {
        MemberV { group_id: self.group_id@, username: self.username@ }
    }
}

impl View for InviteRec {
    type V = InviteV;

    open spec fn view(&self) -> InviteV {
        InviteV { group_id: self.group_id@, username: self.username@ }
    }
}

/// Ghost image of the whole store.
pub struct StoreV {
    pub users: Seq<UserV>,
    pub pending: Seq<PendingV>,
    pub groups: Seq<GroupV>,
    pub members: Seq<MemberV>,
    pub invites: Seq<InviteV>,
}

/// The identity store.  Well-formedness (`store_wf`) is established by
/// `new` and preserved by every operation.
pub struct DbUtils {
    pub users: Vec<UserRec>,
    pub pending: Vec<PendingRec>,
    pub groups: Vec<GroupRec>,
    pub members: Vec<MemberRec>,
    pub invites: Vec<InviteRec>,
}

impl View for DbUtils {
    type V = StoreV;

    open spec fn view(&self) -> StoreV {
        StoreV {
            users: self.users@.map_values(|r: UserRec| r@),
            pending: self.pending@.map_values(|r: PendingRec| r@),
            groups: self.groups@.map_values(|r: GroupRec| r@),
            members: self.members@.map_values(|r: MemberRec| r@),
            invites: self.invites@.map_values(|r: InviteRec| r@),
        }
    }
}

// ---------------------------------------------------------------------
// Observations.  Each is a function of one table's ghost image; the
// uniqueness half of well-formedness makes the chosen witness the only
// one, so the observations are determined.
// ---------------------------------------------------------------------
/// Row `i` of the user table carries username `u`.
pub open spec fn user_at(s: Seq<UserV>, i: int, u: Seq<char>) -> bool {
    0 <= i < s.len() && s[i].username == u
}

/// Some row carries username `u`.
pub open spec fn has_user(s: Seq<UserV>, u: Seq<char>) -> bool {
    exists|i: int| user_at(s, i, u)
}

/// The row index for username `u` (meaningful only under `has_user`).
pub open spec fn user_ix(s: Seq<UserV>, u: Seq<char>) -> int {
    choose|i: int| user_at(s, i, u)
}

/// The public key stored for username `u`.
pub open spec fn user_key(s: Seq<UserV>, u: Seq<char>) -> Seq<char> {
    s[user_ix(s, u)].public_key
}

/// The sender tag currently bound to username `u`.
pub open spec fn user_tag(s: Seq<UserV>, u: Seq<char>) -> Option<Seq<char>> {
    s[user_ix(s, u)].sender_tag
}

/// Row `i` of the user table is bound to sender tag `t`.
pub open spec fn tag_at(s: Seq<UserV>, i: int, t: Seq<char>) -> bool {
    0 <= i < s.len() && s[i].sender_tag == Some(t)
}

/// Some user is bound to sender tag `t`.
pub open spec fn has_tag(s: Seq<UserV>, t: Seq<char>) -> bool {
    exists|i: int| tag_at(s, i, t)
}

/// The username bound to sender tag `t` (meaningful only under `has_tag`).
pub open spec fn tag_user(s: Seq<UserV>, t: Seq<char>) -> Seq<char> {
    s[choose|i: int| tag_at(s, i, t)].username
}

/// Row `i` of the pending table carries username `u`.
pub open spec fn pending_at(s: Seq<PendingV>, i: int, u: Seq<char>) -> bool {
    0 <= i < s.len() && s[i].username == u
}

/// Some pending registration carries username `u`.
pub open spec fn has_pending(s: Seq<PendingV>, u: Seq<char>) -> bool {
    exists|i: int| pending_at(s, i, u)
}

/// The public key of the pending registration for `u`.
pub open spec fn pending_key(s: Seq<PendingV>, u: Seq<char>) -> Seq<char> {
    s[choose|i: int| pending_at(s, i, u)].public_key
}

/// Row `i` of the group table carries group id `g`.
pub open spec fn group_at(s: Seq<GroupV>, i: int, g: Seq<char>) -> bool {
    0 <= i < s.len() && s[i].group_id == g
}

/// Some group row carries id `g`.
pub open spec fn has_group(s: Seq<GroupV>, g: Seq<char>) -> bool {
    exists|i: int| group_at(s, i, g)
}

/// The group row for id `g` (meaningful only under `has_group`).
pub open spec fn group_rec(s: Seq<GroupV>, g: Seq<char>) -> GroupV {
    s[choose|i: int| group_at(s, i, g)]
}

/// Row `i` of the member table is the pair (`g`, `u`).
pub open spec fn member_at(s: Seq<MemberV>, i: int, g: Seq<char>, u: Seq<char>) -> bool {
    0 <= i < s.len() && s[i].group_id == g && s[i].username == u
}

/// User `u` is a member of group `g`.
pub open spec fn is_member(s: Seq<MemberV>, g: Seq<char>, u: Seq<char>) -> bool {
    exists|i: int| member_at(s, i, g, u)
}

/// Row `i` of the invite table is the pair (`g`, `u`).
pub open spec fn invite_at(s: Seq<InviteV>, i: int, g: Seq<char>, u: Seq<char>) -> bool {
    0 <= i < s.len() && s[i].group_id == g && s[i].username == u
}

/// User `u` holds an outstanding invitation to group `g`.
pub open spec fn is_invited(s: Seq<InviteV>, g: Seq<char>, u: Seq<char>) -> bool {
    exists|i: int| invite_at(s, i, g, u)
}

/// The usernames of the members of group `g`, in insertion order.
pub open spec fn members_of(s: Seq<MemberV>, g: Seq<char>) -> Seq<Seq<char>>
    decreases s.len(),
{
    if s.len() == 0 {
        Seq::empty()
    } else {
        members_of(s.drop_last(), g) + if s.last().group_id == g {
            seq![s.last().username]
        } else {
            Seq::empty()
        }
    }
}

/// The group ids the user `u` belongs to, in insertion order.
pub open spec fn groups_of(s: Seq<MemberV>, u: Seq<char>) -> Seq<Seq<char>>
    decreases s.len(),
{
    if s.len() == 0 {
        Seq::empty()
    } else {
        groups_of(s.drop_last(), u) + if s.last().username == u {
            seq![s.last().group_id]
        } else {
            Seq::empty()
        }
    }
}

// ---------------------------------------------------------------------
// Well-formedness: unique keys per table, unique tags across users.
// ---------------------------------------------------------------------
/// Usernames are unique, and so are the tags that are bound at all.
pub open spec fn users_wf(s: Seq<UserV>) -> bool {
    &&& forall|i: int, j: int|
        #![trigger s[i], s[j]]
        0 <= i < j < s.len() ==> s[i].username != s[j].username
    &&& forall|i: int, j: int|
        #![trigger s[i], s[j]]
        0 <= i < j < s.len() ==> !(s[i].sender_tag is Some && s[i].sender_tag == s[j].sender_tag)
}

/// Pending usernames are unique.
pub open spec fn pending_wf(s: Seq<PendingV>) -> bool {
    forall|i: int, j: int|
        #![trigger s[i], s[j]]
        0 <= i < j < s.len() ==> s[i].username != s[j].username
}

/// Group ids are unique.
pub open spec fn groups_wf(s: Seq<GroupV>) -> bool {
    forall|i: int, j: int|
        #![trigger s[i], s[j]]
        0 <= i < j < s.len() ==> s[i].group_id != s[j].group_id
}

/// Membership pairs are unique.
pub open spec fn members_wf(s: Seq<MemberV>) -> bool {
    forall|i: int, j: int|
        #![trigger s[i], s[j]]
        0 <= i < j < s.len() ==> !(s[i].group_id == s[j].group_id && s[i].username
            == s[j].username)
}

/// Invitation pairs are unique.
pub open spec fn invites_wf(s: Seq<InviteV>) -> bool {
    forall|i: int, j: int|
        #![trigger s[i], s[j]]
        0 <= i < j < s.len() ==> !(s[i].group_id == s[j].group_id && s[i].username
            == s[j].username)
}

/// Well-formedness of the whole store.
pub open spec fn store_wf(s: StoreV) -> bool {
    users_wf(s.users) && pending_wf(s.pending) && groups_wf(s.groups) && members_wf(s.members)
        && invites_wf(s.invites)
}

// ---------------------------------------------------------------------
// Witness lemmas: under well-formedness, a row that matches determines
// every observation of its key.
// ---------------------------------------------------------------------
/// A matching user row fixes the lookup observations for its username.
pub proof fn lemma_user_witness(s: Seq<UserV>, i: int, u: Seq<char>)
    requires
        users_wf(s),
        user_at(s, i, u),
    ensures
        has_user(s, u),
        user_ix(s, u) == i,
        user_key(s, u) == s[i].public_key,
        user_tag(s, u) == s[i].sender_tag,
{
    assert(has_user(s, u));
    let j = user_ix(s, u);
    assert(user_at(s, j, u));
    if i != j {
        assert(s[i].username != s[j].username);
    }
}

/// A matching tag binding fixes the tag-lookup observations for its tag.
pub proof fn lemma_tag_witness(s: Seq<UserV>, i: int, t: Seq<char>)
    requires
        users_wf(s),
        tag_at(s, i, t),
    ensures
        has_tag(s, t),
        tag_user(s, t) == s[i].username,
{
    assert(has_tag(s, t));
    let j = choose|j: int| tag_at(s, j, t);
    assert(tag_at(s, j, t));
    if i != j {
        assert(!(s[i].sender_tag is Some && s[i].sender_tag == s[j].sender_tag));
    }
}

/// A matching pending row fixes the pending-lookup observations.
pub proof fn lemma_pending_witness(s: Seq<PendingV>, i: int, u: Seq<char>)
    requires
        pending_wf(s),
        pending_at(s, i, u),
    ensures
        has_pending(s, u),
        pending_key(s, u) == s[i].public_key,
{
    assert(has_pending(s, u));
    let j = choose|j: int| pending_at(s, j, u);
    assert(pending_at(s, j, u));
    if i != j {
        assert(s[i].username != s[j].username);
    }
}

/// A matching group row fixes the group-lookup observations.
pub proof fn lemma_group_witness(s: Seq<GroupV>, i: int, g: Seq<char>)
    requires
        groups_wf(s),
        group_at(s, i, g),
    ensures
        has_group(s, g),
        group_rec(s, g) == s[i],
{
    assert(has_group(s, g));
    let j = choose|j: int| group_at(s, j, g);
    assert(group_at(s, j, g));
    if i != j {
        assert(s[i].group_id != s[j].group_id);
    }
}

impl DbUtils {
    /// An empty store.
    pub fn new() -> (r: DbUtils)
        ensures
            store_wf(r@),
            r@.users == Seq::<UserV>::empty(),
            r@.pending == Seq::<PendingV>::empty(),
            r@.groups == Seq::<GroupV>::empty(),
            r@.members == Seq::<MemberV>::empty(),
            r@.invites == Seq::<InviteV>::empty(),
    {
        let r = DbUtils {
            users: Vec::new(),
            pending: Vec::new(),
            groups: Vec::new(),
            members: Vec::new(),
            invites: Vec::new(),
        };
        proof {
            assert(r@.users =~= Seq::<UserV>::empty());
            assert(r@.pending =~= Seq::<PendingV>::empty());
            assert(r@.groups =~= Seq::<GroupV>::empty());
            assert(r@.members =~= Seq::<MemberV>::empty());
            assert(r@.invites =~= Seq::<InviteV>::empty());
        }
        r
    }

    /// The row index of the user named `username`, if any.
    fn find_user(&self, username: &str) -> (r: Option<usize>)
        ensures
            match r {
                Some(i) => user_at(self@.users, i as int, username@),
                None => !has_user(self@.users, username@),
            },
    {
        let n = self.users.len();
        let mut i: usize = 0;
        while i < n
            invariant
                0 <= i <= n,
                n == self.users.len(),
                forall|j: int| 0 <= j < i ==> self@.users[j].username != username@,
            decreases n - i,
        {
            if str_eq(self.users[i].username.as_str(), username) {
                return Some(i);
            }
            i += 1;
        }
        proof {
            if has_user(self@.users, username@) {
                let w = choose|w: int| user_at(self@.users, w, username@);
                assert(self@.users[w].username != username@);
            }
        }
        None
    }

    /// The row index of the user bound to sender tag `tag`, if any.
    fn find_tag(&self, tag: &str) -> (r: Option<usize>)
        ensures
            match r {
                Some(i) => tag_at(self@.users, i as int, tag@),
                None => !has_tag(self@.users, tag@),
            },
    {
        let n = self.users.len();
        let mut i: usize = 0;
        while i < n
            invariant
                0 <= i <= n,
                n == self.users.len(),
                forall|j: int| 0 <= j < i ==> self@.users[j].sender_tag != Some(tag@),
            decreases n - i,
        {
            let bound = match &self.users[i].sender_tag {
                Some(t) => str_eq(t.as_str(), tag),
                None => false,
            };
            if bound {
                return Some(i);
            }
            i += 1;
        }
        proof {
            if has_tag(self@.users, tag@) {
                let w = choose|w: int| tag_at(self@.users, w, tag@);
                assert(self@.users[w].sender_tag != Some(tag@));
            }
        }
        None
    }

    /// Retrieve a user by username.  Returns (username, publicKey).
    pub fn get_user_by_username(&self, username: &str) -> (r: Option<(String, String)>)
        requires
            store_wf(self@),
        ensures
            match r {
                Some(p) => has_user(self@.users, username@) && p.0@ == username@ && p.1@
                    == user_key(self@.users, username@),
                None => !has_user(self@.users, username@),
            },
    {
        match self.find_user(username) {
            Some(i) => {
                proof {
                    lemma_user_witness(self@.users, i as int, username@);
                }
                let rec = &self.users[i];
                Some((rec.username.clone(), rec.public_key.clone()))
            },
            None => None,
        }
    }

    /// Retrieve the user bound to a sender tag.  Returns (username, publicKey).
    pub fn get_user_by_tag(&self, tag: &str) -> (r: Option<(String, String)>)
        requires
            store_wf(self@),
        ensures
            match r {
                Some(p) => {
                    &&& has_tag(self@.users, tag@)
                    &&& p.0@ == tag_user(self@.users, tag@)
                    &&& has_user(self@.users, p.0@)
                    &&& p.1@ == user_key(self@.users, p.0@)
                    &&& user_tag(self@.users, p.0@) == Some(tag@)
                },
                None => !has_tag(self@.users, tag@),
            },
    {
        match self.find_tag(tag) {
            Some(i) => {
                proof {
                    lemma_tag_witness(self@.users, i as int, tag@);
                    lemma_user_witness(self@.users, i as int, self@.users[i as int].username);
                }
                let rec = &self.users[i];
                Some((rec.username.clone(), rec.public_key.clone()))
            },
            None => None,
        }
    }

    /// The sender tag currently bound to a username, if the user exists
    /// and has connected at least once.
    pub fn get_sender_tag(&self, username: &str) -> (r: Option<String>)
        requires
            store_wf(self@),
        ensures
            match r {
                Some(t) => has_user(self@.users, username@) && user_tag(self@.users, username@)
                    == Some(t@),
                None => !has_user(self@.users, username@) || user_tag(self@.users, username@)
                    is None,
            },
    {
        match self.find_user(username) {
            Some(i) => {
                proof {
                    lemma_user_witness(self@.users, i as int, username@);
                }
                match &self.users[i].sender_tag {
                    Some(t) => Some(t.clone()),
                    None => None,
                }
            },
            None => None,
        }
    }

    /// Add a new user with no bound tag.  Reports a duplicate username as
    /// `false` and changes nothing in that case.
    pub fn add_user(&mut self, username: &str, public_key: &str) -> (r: bool)
        requires
            store_wf(old(self)@),
        ensures
            store_wf(final(self)@),
            r == !has_user(old(self)@.users, username@),
            !r ==> final(self)@ == old(self)@,
            r ==> final(self)@.users == old(self)@.users.push(
                (UserV { username: username@, public_key: public_key@, sender_tag: None }),
            ),
            final(self)@.pending == old(self)@.pending,
            final(self)@.groups == old(self)@.groups,
            final(self)@.members == old(self)@.members,
            final(self)@.invites == old(self)@.invites,
    {
        match self.find_user(username) {
            Some(_) => false,
            None => {
                self.users.push(
                    UserRec {
                        username: username.to_owned(),
                        public_key: public_key.to_owned(),
                        sender_tag: None,
                    },
                );
                proof {
                    let target = old(self)@.users.push(
                        (UserV {
                            username: username@,
                            public_key: public_key@,
                            sender_tag: None,
                        }),
                    );
                    assert(self@.users =~= target);
                    let s = self@.users;
                    let n = old(self)@.users.len() as int;
                    assert forall|i: int, j: int|
                        0 <= i < j < s.len() implies #[trigger] s[i].username != #[trigger] s[j].username by {
                        if j < n {
                            assert(old(self)@.users[i].username != old(self)@.users[j].username);
                        } else {
                            assert(!user_at(old(self)@.users, i, username@));
                        }
                    }
                    assert forall|i: int, j: int|
                        0 <= i < j < s.len() implies !(#[trigger] s[i].sender_tag is Some
                        && s[i].sender_tag == #[trigger] s[j].sender_tag) by {
                        if j < n {
                            assert(!(old(self)@.users[i].sender_tag is Some && old(
                                self,
                            )@.users[i].sender_tag == old(self)@.users[j].sender_tag));
                        }
                    }
                }
                true
            },
        }
    }

    /// Bind `tag` to `username`, unbinding it from any other user first:
    /// a tag routes to at most one identity, and a reconnecting user
    /// abandons any tag it held before.  Reports an unknown user as
    /// `false` and changes nothing in that case.
    pub fn set_sender_tag(&mut self, username: &str, tag: &str) -> (r: bool)
        requires
            store_wf(old(self)@),
        ensures
            store_wf(final(self)@),
            r == has_user(old(self)@.users, username@),
            !r ==> final(self)@ == old(self)@,
            final(self)@.pending == old(self)@.pending,
            final(self)@.groups == old(self)@.groups,
            final(self)@.members == old(self)@.members,
            final(self)@.invites == old(self)@.invites,
            final(self)@.users.len() == old(self)@.users.len(),
            forall|i: int|
                0 <= i < old(self)@.users.len() ==> #[trigger] final(self)@.users[i].username
                    == old(self)@.users[i].username && final(self)@.users[i].public_key == old(
                    self,
                )@.users[i].public_key,
            forall|w: Seq<char>| #[trigger] has_user(final(self)@.users, w) == has_user(
                old(self)@.users,
                w,
            ),
            forall|w: Seq<char>|
                has_user(old(self)@.users, w) ==> #[trigger] user_key(final(self)@.users, w)
                    == user_key(old(self)@.users, w),
            r ==> user_tag(final(self)@.users, username@) == Some(tag@),
            r ==> has_tag(final(self)@.users, tag@) && tag_user(final(self)@.users, tag@)
                == username@,
            r ==> forall|w: Seq<char>|
                has_user(old(self)@.users, w) && w != username@ ==> #[trigger] user_tag(
                    final(self)@.users,
                    w,
                ) == (if user_tag(old(self)@.users, w) == Some(tag@) {
                    None::<Seq<char>>
                } else {
                    user_tag(old(self)@.users, w)
                }),
    {
        let idx = match self.find_user(username) {
            Some(i) => i,
            None => {
                return false;
            },
        };
        let n = self.users.len();
        let mut i: usize = 0;
        while i < n
            invariant
                0 <= i <= n,
                n == self.users.len(),
                n == old(self)@.users.len(),
                self@.pending == old(self)@.pending,
                self@.groups == old(self)@.groups,
                self@.members == old(self)@.members,
                self@.invites == old(self)@.invites,
                forall|j: int| i <= j < n ==> #[trigger] self@.users[j] == old(self)@.users[j],
                forall|j: int|
                    0 <= j < i ==> #[trigger] self@.users[j] == (if old(self)@.users[j].sender_tag
                        == Some(tag@) {
                        (UserV {
                            username: old(self)@.users[j].username,
                            public_key: old(self)@.users[j].public_key,
                            sender_tag: None,
                        })
                    } else {
                        old(self)@.users[j]
                    }),
            decreases n - i,
        {
            let ghost before = self@.users;
            let clear = match &self.users[i].sender_tag {
                Some(t) => str_eq(t.as_str(), tag),
                None => false,
            };
            if clear {
                let fresh = UserRec {
                    username: self.users[i].username.clone(),
                    public_key: self.users[i].public_key.clone(),
                    sender_tag: None,
                };
                self.users.set(i, fresh);
                proof {
                    assert(self@.users =~= before.update(
                        i as int,
                        (UserV {
                            username: before[i as int].username,
                            public_key: before[i as int].public_key,
                            sender_tag: None,
                        }),
                    ));
                }
            }
            i += 1;
        }
        let ghost mid = self@.users;
        let bound = UserRec {
            username: self.users[idx].username.clone(),
            public_key: self.users[idx].public_key.clone(),
            sender_tag: Some(tag.to_owned()),
        };
        self.users.set(idx, bound);
        proof {
            let pre = old(self)@.users;
            let post = self@.users;
            let ix = idx as int;
            assert(user_at(pre, ix, username@));
            assert(post =~= mid.update(
                ix,
                (UserV {
                    username: mid[ix].username,
                    public_key: mid[ix].public_key,
                    sender_tag: Some(tag@),
                }),
            ));
            // Row-wise picture of the final table.
            assert forall|j: int|
                0 <= j < pre.len() implies #[trigger] post[j].username == pre[j].username
                && post[j].public_key == pre[j].public_key by {
                assert(mid[j].username == pre[j].username && mid[j].public_key
                    == pre[j].public_key);
            }
            assert(post[ix].sender_tag == Some(tag@));
            assert forall|j: int|
                0 <= j < pre.len() && j != ix implies #[trigger] post[j].sender_tag == (if pre[j].sender_tag
                == Some(tag@) {
                None::<Seq<char>>
            } else {
                pre[j].sender_tag
            }) by {
                assert(post[j] == mid[j]);
            }
            // Uniqueness of usernames carries over row by row.
            assert forall|a: int, b: int|
                0 <= a < b < post.len() implies #[trigger] post[a].username
                != #[trigger] post[b].username by {
                assert(pre[a].username != pre[b].username);
            }
            // Tag uniqueness: the bound row holds `tag`, every other row
            // holds `None` or its old tag, and old tags other than `tag`
            // were pairwise distinct already.
            assert forall|a: int, b: int|
                0 <= a < b < post.len() implies !(#[trigger] post[a].sender_tag is Some
                && post[a].sender_tag == #[trigger] post[b].sender_tag) by {
                if post[a].sender_tag is Some && post[a].sender_tag == post[b].sender_tag {
                    if a == ix {
                        assert(post[b].sender_tag != Some(tag@));
                    } else if b == ix {
                        assert(post[a].sender_tag != Some(tag@));
                    } else {
                        assert(post[a].sender_tag == pre[a].sender_tag);
                        assert(post[b].sender_tag == pre[b].sender_tag);
                        assert(!(pre[a].sender_tag is Some && pre[a].sender_tag
                            == pre[b].sender_tag));
                    }
                }
            }
            assert(users_wf(post));
            // Observations.
            assert forall|w: Seq<char>| #[trigger] has_user(post, w) == has_user(pre, w) by {
                if has_user(pre, w) {
                    let j = choose|j: int| user_at(pre, j, w);
                    assert(user_at(post, j, w));
                }
                if has_user(post, w) {
                    let j = choose|j: int| user_at(post, j, w);
                    assert(user_at(pre, j, w));
                }
            }
            assert forall|w: Seq<char>| has_user(pre, w) implies #[trigger] user_key(post, w)
                == user_key(pre, w) by {
                let j = choose|j: int| user_at(pre, j, w);
                lemma_user_witness(pre, j, w);
                lemma_user_witness(post, j, w);
            }
            lemma_user_witness(post, ix, username@);
            lemma_tag_witness(post, ix, tag@);
            assert forall|w: Seq<char>|
                has_user(pre, w) && w != username@ implies #[trigger] user_tag(post, w) == (if user_tag(
                pre,
                w,
            ) == Some(tag@) {
                None::<Seq<char>>
            } else {
                user_tag(pre, w)
            }) by {
                let j = choose|j: int| user_at(pre, j, w);
                lemma_user_witness(pre, j, w);
                lemma_user_witness(post, j, w);
                if j == ix {
                    assert(pre[ix].username == username@);
                }
            }
        }
        true
    }
    /// The row index of the pending registration for `username`, if any.
    fn find_pending(&self, username: &str) -> (r: Option<usize>)
        ensures
            match r {
                Some(i) => pending_at(self@.pending, i as int, username@),
                None => !has_pending(self@.pending, username@),
            },
    {
        let n = self.pending.len();
        let mut i: usize = 0;
        while i < n
            invariant
                0 <= i <= n,
                n == self.pending.len(),
                forall|j: int| 0 <= j < i ==> self@.pending[j].username != username@,
            decreases n - i,
        {
            if str_eq(self.pending[i].username.as_str(), username) {
                return Some(i);
            }
            i += 1;
        }
        proof {
            if has_pending(self@.pending, username@) {
                let w = choose|w: int| pending_at(self@.pending, w, username@);
                assert(self@.pending[w].username != username@);
            }
        }
        None
    }

    /// Record a registration awaiting approval.  Reports a duplicate
    /// username as `false` and changes nothing in that case.
    pub fn add_pending_user(&mut self, username: &str, public_key: &str) -> (r: bool)
        requires
            store_wf(old(self)@),
        ensures
            store_wf(final(self)@),
            r == !has_pending(old(self)@.pending, username@),
            !r ==> final(self)@ == old(self)@,
            r ==> final(self)@.pending == old(self)@.pending.push(
                (PendingV { username: username@, public_key: public_key@ }),
            ),
            r ==> has_pending(final(self)@.pending, username@) && pending_key(
                final(self)@.pending,
                username@,
            ) == public_key@,
            final(self)@.users == old(self)@.users,
            final(self)@.groups == old(self)@.groups,
            final(self)@.members == old(self)@.members,
            final(self)@.invites == old(self)@.invites,
    {
        match self.find_pending(username) {
            Some(_) => false,
            None => {
                self.pending.push(
                    PendingRec { username: username.to_owned(), public_key: public_key.to_owned() },
                );
                proof {
                    let target = old(self)@.pending.push(
                        (PendingV { username: username@, public_key: public_key@ }),
                    );
                    assert(self@.pending =~= target);
                    let s = self@.pending;
                    let n = old(self)@.pending.len() as int;
                    assert forall|i: int, j: int|
                        0 <= i < j < s.len() implies #[trigger] s[i].username
                        != #[trigger] s[j].username by {
                        if j < n {
                            assert(old(self)@.pending[i].username != old(
                                self,
                            )@.pending[j].username);
                        } else {
                            assert(!pending_at(old(self)@.pending, i, username@));
                        }
                    }
                    lemma_pending_witness(s, n, username@);
                }
                true
            },
        }
    }

    /// Retrieve a pending registration's public key.
    pub fn get_pending_user(&self, username: &str) -> (r: Option<String>)
        requires
            store_wf(self@),
        ensures
            match r {
                Some(pk) => has_pending(self@.pending, username@) && pk@ == pending_key(
                    self@.pending,
                    username@,
                ),
                None => !has_pending(self@.pending, username@),
            },
    {
        match self.find_pending(username) {
            Some(i) => {
                proof {
                    lemma_pending_witness(self@.pending, i as int, username@);
                }
                Some(self.pending[i].public_key.clone())
            },
            None => None,
        }
    }

    /// Drop a pending registration.  Reports an absent row as `false`.
    pub fn remove_pending_user(&mut self, username: &str) -> (r: bool)
        requires
            store_wf(old(self)@),
        ensures
            store_wf(final(self)@),
            r == has_pending(old(self)@.pending, username@),
            !r ==> final(self)@ == old(self)@,
            !has_pending(final(self)@.pending, username@),
            forall|w: Seq<char>|
                w != username@ ==> #[trigger] has_pending(final(self)@.pending, w) == has_pending(
                    old(self)@.pending,
                    w,
                ),
            forall|w: Seq<char>|
                w != username@ && has_pending(old(self)@.pending, w) ==> #[trigger] pending_key(
                    final(self)@.pending,
                    w,
                ) == pending_key(old(self)@.pending, w),
            final(self)@.users == old(self)@.users,
            final(self)@.groups == old(self)@.groups,
            final(self)@.members == old(self)@.members,
            final(self)@.invites == old(self)@.invites,
    {
        let idx = match self.find_pending(username) {
            Some(i) => i,
            None => {
                return false;
            },
        };
        let ghost pre = self@.pending;
        let ghost ix = idx as int;
        self.pending.remove(idx);
        proof {
            assert(self@.pending =~= pre.remove(ix));
            let post = self@.pending;
            pre.remove_ensures(ix);
            // Any username other than the removed one keeps exactly one row.
            assert forall|i: int, j: int|
                0 <= i < j < post.len() implies #[trigger] post[i].username
                != #[trigger] post[j].username by {
                let i0: int = if i < ix {
                    i
                } else {
                    i + 1
                };
                let j0: int = if j < ix {
                    j
                } else {
                    j + 1
                };
                assert(post[i] == pre[i0] && post[j] == pre[j0]);
                assert(pre[i0].username != pre[j0].username);
            }
            // The removed username is gone: every other old row differs.
            assert forall|i: int| 0 <= i < post.len() implies #[trigger] post[i].username
                != username@ by {
                let i0: int = if i < ix {
                    i
                } else {
                    i + 1
                };
                assert(post[i] == pre[i0]);
                if i0 != ix {
                    assert(pre[i0].username != pre[ix].username);
                }
            }
            if has_pending(post, username@) {
                let w = choose|w: int| pending_at(post, w, username@);
                assert(post[w].username != username@);
            }
            assert forall|w: Seq<char>| w != username@ implies #[trigger] has_pending(post, w)
                == has_pending(pre, w) by {
                if has_pending(pre, w) {
                    let j = choose|j: int| pending_at(pre, j, w);
                    let j1: int = if j < ix {
                        j
                    } else {
                        j - 1
                    };
                    assert(j != ix);
                    assert(post[j1] == pre[j]);
                    assert(pending_at(post, j1, w));
                }
                if has_pending(post, w) {
                    let j = choose|j: int| pending_at(post, j, w);
                    let j0: int = if j < ix {
                        j
                    } else {
                        j + 1
                    };
                    assert(post[j] == pre[j0]);
                    assert(pending_at(pre, j0, w));
                }
            }
            assert forall|w: Seq<char>|
                w != username@ && has_pending(pre, w) implies #[trigger] pending_key(post, w)
                == pending_key(pre, w) by {
                let j = choose|j: int| pending_at(pre, j, w);
                lemma_pending_witness(pre, j, w);
                let j1: int = if j < ix {
                    j
                } else {
                    j - 1
                };
                assert(j != ix);
                assert(post[j1] == pre[j]);
                lemma_pending_witness(post, j1, w);
            }
        }
        true
    }

    /// The row index of the group with id `group_id`, if any.
    fn find_group(&self, group_id: &str) -> (r: Option<usize>)
        ensures
            match r {
                Some(i) => group_at(self@.groups, i as int, group_id@),
                None => !has_group(self@.groups, group_id@),
            },
    {
        let n = self.groups.len();
        let mut i: usize = 0;
        while i < n
            invariant
                0 <= i <= n,
                n == self.groups.len(),
                forall|j: int| 0 <= j < i ==> self@.groups[j].group_id != group_id@,
            decreases n - i,
        {
            if str_eq(self.groups[i].group_id.as_str(), group_id) {
                return Some(i);
            }
            i += 1;
        }
        proof {
            if has_group(self@.groups, group_id@) {
                let w = choose|w: int| group_at(self@.groups, w, group_id@);
                assert(self@.groups[w].group_id != group_id@);
            }
        }
        None
    }

    /// Create a group.  Reports a duplicate group id as `false` and
    /// changes nothing in that case.  The creator is recorded as admin;
    /// membership rows are separate.
    pub fn create_group(
        &mut self,
        group_id: &str,
        group_name: &str,
        admin: &str,
        is_public: bool,
        is_discoverable: bool,
    ) -> (r: bool)
        requires
            store_wf(old(self)@),
        ensures
            store_wf(final(self)@),
            r == !has_group(old(self)@.groups, group_id@),
            !r ==> final(self)@ == old(self)@,
            r ==> final(self)@.groups == old(self)@.groups.push(
                (GroupV {
                    group_id: group_id@,
                    group_name: group_name@,
                    admin: admin@,
                    is_public: is_public,
                    is_discoverable: is_discoverable,
                }),
            ),
            r ==> has_group(final(self)@.groups, group_id@) && group_rec(
                final(self)@.groups,
                group_id@,
            ) == (GroupV {
                group_id: group_id@,
                group_name: group_name@,
                admin: admin@,
                is_public: is_public,
                is_discoverable: is_discoverable,
            }),
            forall|h: Seq<char>|
                h != group_id@ ==> #[trigger] has_group(final(self)@.groups, h) == has_group(
                    old(self)@.groups,
                    h,
                ),
            forall|h: Seq<char>|
                h != group_id@ && has_group(old(self)@.groups, h) ==> #[trigger] group_rec(
                    final(self)@.groups,
                    h,
                ) == group_rec(old(self)@.groups, h),
            final(self)@.users == old(self)@.users,
            final(self)@.pending == old(self)@.pending,
            final(self)@.members == old(self)@.members,
            final(self)@.invites == old(self)@.invites,
    {
        match self.find_group(group_id) {
            Some(_) => false,
            None => {
                self.groups.push(
                    GroupRec {
                        group_id: group_id.to_owned(),
                        group_name: group_name.to_owned(),
                        admin: admin.to_owned(),
                        is_public,
                        is_discoverable,
                    },
                );
                proof {
                    let rec = GroupV {
                        group_id: group_id@,
                        group_name: group_name@,
                        admin: admin@,
                        is_public: is_public,
                        is_discoverable: is_discoverable,
                    };
                    let pre = old(self)@.groups;
                    assert(self@.groups =~= pre.push(rec));
                    let s = self@.groups;
                    let n = pre.len() as int;
                    assert forall|i: int, j: int|
                        0 <= i < j < s.len() implies #[trigger] s[i].group_id
                        != #[trigger] s[j].group_id by {
                        if j < n {
                            assert(pre[i].group_id != pre[j].group_id);
                        } else {
                            assert(!group_at(pre, i, group_id@));
                        }
                    }
                    lemma_group_witness(s, n, group_id@);
                    assert forall|h: Seq<char>| h != group_id@ implies #[trigger] has_group(s, h)
                        == has_group(pre, h) by {
                        if has_group(pre, h) {
                            let j = choose|j: int| group_at(pre, j, h);
                            assert(group_at(s, j, h));
                        }
                        if has_group(s, h) {
                            let j = choose|j: int| group_at(s, j, h);
                            assert(group_at(pre, j, h));
                        }
                    }
                    assert forall|h: Seq<char>|
                        h != group_id@ && has_group(pre, h) implies #[trigger] group_rec(s, h)
                        == group_rec(pre, h) by {
                        let j = choose|j: int| group_at(pre, j, h);
                        lemma_group_witness(pre, j, h);
                        lemma_group_witness(s, j, h);
                    }
                }
                true
            },
        }
    }

    /// Whether a group with id `group_id` exists.
    pub fn group_exists(&self, group_id: &str) -> (r: bool)
        ensures
            r == has_group(self@.groups, group_id@),
    {
        match self.find_group(group_id) {
            Some(_) => true,
            None => false,
        }
    }

    /// Whether `username` is the admin of group `group_id`.  An unknown
    /// group has no admin.
    pub fn is_user_admin(&self, group_id: &str, username: &str) -> (r: bool)
        requires
            store_wf(self@),
        ensures
            r == (has_group(self@.groups, group_id@) && group_rec(self@.groups, group_id@).admin
                == username@),
    {
        match self.find_group(group_id) {
            Some(i) => {
                proof {
                    lemma_group_witness(self@.groups, i as int, group_id@);
                }
                str_eq(self.groups[i].admin.as_str(), username)
            },
            None => false,
        }
    }

    /// Whether group `group_id` allows self-join.  An unknown group does not.
    pub fn is_group_public(&self, group_id: &str) -> (r: bool)
        requires
            store_wf(self@),
        ensures
            r == (has_group(self@.groups, group_id@) && group_rec(
                self@.groups,
                group_id@,
            ).is_public),
    {
        match self.find_group(group_id) {
            Some(i) => {
                proof {
                    lemma_group_witness(self@.groups, i as int, group_id@);
                }
                self.groups[i].is_public
            },
            None => false,
        }
    }

    /// The row index of the membership pair, if any.
    fn find_member(&self, group_id: &str, username: &str) -> (r: Option<usize>)
        ensures
            match r {
                Some(i) => member_at(self@.members, i as int, group_id@, username@),
                None => !is_member(self@.members, group_id@, username@),
            },
    {
        let n = self.members.len();
        let mut i: usize = 0;
        while i < n
            invariant
                0 <= i <= n,
                n == self.members.len(),
                forall|j: int|
                    0 <= j < i ==> !(#[trigger] self@.members[j].group_id == group_id@
                        && self@.members[j].username == username@),
            decreases n - i,
        {
            if str_eq(self.members[i].group_id.as_str(), group_id) && str_eq(
                self.members[i].username.as_str(),
                username,
            ) {
                return Some(i);
            }
            i += 1;
        }
        proof {
            if is_member(self@.members, group_id@, username@) {
                let w = choose|w: int| member_at(self@.members, w, group_id@, username@);
                assert(!(self@.members[w].group_id == group_id@ && self@.members[w].username
                    == username@));
            }
        }
        None
    }

    /// Whether `username` is a member of group `group_id`.
    pub fn is_group_member(&self, group_id: &str, username: &str) -> (r: bool)
        ensures
            r == is_member(self@.members, group_id@, username@),
    {
        match self.find_member(group_id, username) {
            Some(_) => true,
            None => false,
        }
    }

    /// Add a member to a group.  Reports an existing membership as
    /// `false` and changes nothing in that case.
    pub fn add_group_member(&mut self, group_id: &str, username: &str) -> (r: bool)
        requires
            store_wf(old(self)@),
        ensures
            store_wf(final(self)@),
            r == !is_member(old(self)@.members, group_id@, username@),
            !r ==> final(self)@ == old(self)@,
            r ==> final(self)@.members == old(self)@.members.push(
                (MemberV { group_id: group_id@, username: username@ }),
            ),
            forall|h: Seq<char>, w: Seq<char>| #[trigger] is_member(final(self)@.members, h, w) == (
            is_member(old(self)@.members, h, w) || (r && h == group_id@ && w == username@)),
            forall|h: Seq<char>| #[trigger] members_of(final(self)@.members, h) == (if r && h
                == group_id@ {
                members_of(old(self)@.members, h).push(username@)
            } else {
                members_of(old(self)@.members, h)
            }),
            forall|w: Seq<char>| #[trigger] groups_of(final(self)@.members, w) == (if r && w
                == username@ {
                groups_of(old(self)@.members, w).push(group_id@)
            } else {
                groups_of(old(self)@.members, w)
            }),
            final(self)@.users == old(self)@.users,
            final(self)@.pending == old(self)@.pending,
            final(self)@.groups == old(self)@.groups,
            final(self)@.invites == old(self)@.invites,
    {
        match self.find_member(group_id, username) {
            Some(_) => false,
            None => {
                self.members.push(
                    MemberRec { group_id: group_id.to_owned(), username: username.to_owned() },
                );
                proof {
                    let m = MemberV { group_id: group_id@, username: username@ };
                    let pre = old(self)@.members;
                    assert(self@.members =~= pre.push(m));
                    let s = self@.members;
                    let n = pre.len() as int;
                    assert forall|i: int, j: int|
                        0 <= i < j < s.len() implies !(#[trigger] s[i].group_id
                        == #[trigger] s[j].group_id && s[i].username == s[j].username) by {
                        if j < n {
                            assert(!(pre[i].group_id == pre[j].group_id && pre[i].username
                                == pre[j].username));
                        } else {
                            assert(!member_at(pre, i, group_id@, username@));
                        }
                    }
                    assert forall|h: Seq<char>, w: Seq<char>| #[trigger] is_member(s, h, w) == (
                    is_member(pre, h, w) || (h == group_id@ && w == username@)) by {
                        if is_member(pre, h, w) {
                            let j = choose|j: int| member_at(pre, j, h, w);
                            assert(member_at(s, j, h, w));
                        }
                        if h == group_id@ && w == username@ {
                            assert(member_at(s, n, h, w));
                        }
                        if is_member(s, h, w) {
                            let j = choose|j: int| member_at(s, j, h, w);
                            if j < n {
                                assert(member_at(pre, j, h, w));
                            }
                        }
                    }
                    assert forall|h: Seq<char>| #[trigger] members_of(s, h) == (if h == group_id@ {
                        members_of(pre, h).push(username@)
                    } else {
                        members_of(pre, h)
                    }) by {
                        assert(s.drop_last() =~= pre);
                        assert(s.last() == m);
                        if h == group_id@ {
                            assert(members_of(pre, h) + seq![username@] =~= members_of(
                                pre,
                                h,
                            ).push(username@));
                        } else {
                            assert(members_of(pre, h) + Seq::<Seq<char>>::empty() =~= members_of(
                                pre,
                                h,
                            ));
                        }
                    }
                    assert forall|w: Seq<char>| #[trigger] groups_of(s, w) == (if w == username@ {
                        groups_of(pre, w).push(group_id@)
                    } else {
                        groups_of(pre, w)
                    }) by {
                        assert(s.drop_last() =~= pre);
                        assert(s.last() == m);
                        if w == username@ {
                            assert(groups_of(pre, w) + seq![group_id@] =~= groups_of(
                                pre,
                                w,
                            ).push(group_id@));
                        } else {
                            assert(groups_of(pre, w) + Seq::<Seq<char>>::empty() =~= groups_of(
                                pre,
                                w,
                            ));
                        }
                    }
                }
                true
            },
        }
    }

    /// All usernames of members of a group, in insertion order.
    pub fn get_group_members(&self, group_id: &str) -> (r: Vec<String>)
        ensures
            r.deep_view() == members_of(self@.members, group_id@),
    {
        let n = self.members.len();
        let mut acc: Vec<String> = Vec::new();
        let mut i: usize = 0;
        proof {
            assert(self@.members.subrange(0, 0) =~= Seq::<MemberV>::empty());
            assert(acc.deep_view() =~= Seq::<Seq<char>>::empty());
        }
        while i < n
            invariant
                0 <= i <= n,
                n == self.members.len(),
                acc.deep_view() == members_of(self@.members.subrange(0, i as int), group_id@),
            decreases n - i,
        {
            let ghost prefix = self@.members.subrange(0, i as int);
            let ghost extended = self@.members.subrange(0, i as int + 1);
            proof {
                assert(extended.drop_last() =~= prefix);
                assert(extended.last() == self@.members[i as int]);
            }
            let ghost acc_before = acc.deep_view();
            if str_eq(self.members[i].group_id.as_str(), group_id) {
                acc.push(self.members[i].username.clone());
                proof {
                    assert(acc.deep_view() =~= acc_before + seq![self@.members[i as int].username]);
                }
            } else {
                proof {
                    assert(members_of(extended, group_id@) =~= members_of(prefix, group_id@));
                }
            }
            i += 1;
        }
        proof {
            assert(self@.members.subrange(0, n as int) =~= self@.members);
        }
        acc
    }

    /// All group ids the user belongs to, in insertion order.
    pub fn get_groups_for_user(&self, username: &str) -> (r: Vec<String>)
        ensures
            r.deep_view() == groups_of(self@.members, username@),
    {
        let n = self.members.len();
        let mut acc: Vec<String> = Vec::new();
        let mut i: usize = 0;
        proof {
            assert(self@.members.subrange(0, 0) =~= Seq::<MemberV>::empty());
            assert(acc.deep_view() =~= Seq::<Seq<char>>::empty());
        }
        while i < n
            invariant
                0 <= i <= n,
                n == self.members.len(),
                acc.deep_view() == groups_of(self@.members.subrange(0, i as int), username@),
            decreases n - i,
        {
            let ghost prefix = self@.members.subrange(0, i as int);
            let ghost extended = self@.members.subrange(0, i as int + 1);
            proof {
                assert(extended.drop_last() =~= prefix);
                assert(extended.last() == self@.members[i as int]);
            }
            let ghost acc_before = acc.deep_view();
            if str_eq(self.members[i].username.as_str(), username) {
                acc.push(self.members[i].group_id.clone());
                proof {
                    assert(acc.deep_view() =~= acc_before + seq![self@.members[i as int].group_id]);
                }
            } else {
                proof {
                    assert(groups_of(extended, username@) =~= groups_of(prefix, username@));
                }
            }
            i += 1;
        }
        proof {
            assert(self@.members.subrange(0, n as int) =~= self@.members);
        }
        acc
    }

    /// The row index of the invitation pair, if any.
    fn find_invite(&self, group_id: &str, username: &str) -> (r: Option<usize>)
        ensures
            match r {
                Some(i) => invite_at(self@.invites, i as int, group_id@, username@),
                None => !is_invited(self@.invites, group_id@, username@),
            },
    {
        let n = self.invites.len();
        let mut i: usize = 0;
        while i < n
            invariant
                0 <= i <= n,
                n == self.invites.len(),
                forall|j: int|
                    0 <= j < i ==> !(#[trigger] self@.invites[j].group_id == group_id@
                        && self@.invites[j].username == username@),
            decreases n - i,
        {
            if str_eq(self.invites[i].group_id.as_str(), group_id) && str_eq(
                self.invites[i].username.as_str(),
                username,
            ) {
                return Some(i);
            }
            i += 1;
        }
        proof {
            if is_invited(self@.invites, group_id@, username@) {
                let w = choose|w: int| invite_at(self@.invites, w, group_id@, username@);
                assert(!(self@.invites[w].group_id == group_id@ && self@.invites[w].username
                    == username@));
            }
        }
        None
    }

    /// Whether `username` holds an outstanding invitation to `group_id`.
    pub fn is_user_invited(&self, group_id: &str, username: &str) -> (r: bool)
        ensures
            r == is_invited(self@.invites, group_id@, username@),
    {
        match self.find_invite(group_id, username) {
            Some(_) => true,
            None => false,
        }
    }

    /// Record an invitation.  Reports an outstanding duplicate as `false`
    /// and changes nothing in that case: a user holds at most one
    /// invitation per group.
    pub fn add_group_invite(&mut self, group_id: &str, username: &str) -> (r: bool)
        requires
            store_wf(old(self)@),
        ensures
            store_wf(final(self)@),
            r == !is_invited(old(self)@.invites, group_id@, username@),
            !r ==> final(self)@ == old(self)@,
            r ==> final(self)@.invites == old(self)@.invites.push(
                (InviteV { group_id: group_id@, username: username@ }),
            ),
            forall|h: Seq<char>, w: Seq<char>| #[trigger] is_invited(final(self)@.invites, h, w)
                == (is_invited(old(self)@.invites, h, w) || (r && h == group_id@ && w
                == username@)),
            final(self)@.users == old(self)@.users,
            final(self)@.pending == old(self)@.pending,
            final(self)@.groups == old(self)@.groups,
            final(self)@.members == old(self)@.members,
    {
        match self.find_invite(group_id, username) {
            Some(_) => false,
            None => {
                self.invites.push(
                    InviteRec { group_id: group_id.to_owned(), username: username.to_owned() },
                );
                proof {
                    let m = InviteV { group_id: group_id@, username: username@ };
                    let pre = old(self)@.invites;
                    assert(self@.invites =~= pre.push(m));
                    let s = self@.invites;
                    let n = pre.len() as int;
                    assert forall|i: int, j: int|
                        0 <= i < j < s.len() implies !(#[trigger] s[i].group_id
                        == #[trigger] s[j].group_id && s[i].username == s[j].username) by {
                        if j < n {
                            assert(!(pre[i].group_id == pre[j].group_id && pre[i].username
                                == pre[j].username));
                        } else {
                            assert(!invite_at(pre, i, group_id@, username@));
                        }
                    }
                    assert forall|h: Seq<char>, w: Seq<char>| #[trigger] is_invited(s, h, w) == (
                    is_invited(pre, h, w) || (h == group_id@ && w == username@)) by {
                        if is_invited(pre, h, w) {
                            let j = choose|j: int| invite_at(pre, j, h, w);
                            assert(invite_at(s, j, h, w));
                        }
                        if h == group_id@ && w == username@ {
                            assert(invite_at(s, n, h, w));
                        }
                        if is_invited(s, h, w) {
                            let j = choose|j: int| invite_at(s, j, h, w);
                            if j < n {
                                assert(invite_at(pre, j, h, w));
                            }
                        }
                    }
                }
                true
            },
        }
    }

    /// Consume an invitation.  Reports an absent row as `false`.
    pub fn remove_group_invite(&mut self, group_id: &str, username: &str) -> (r: bool)
        requires
            store_wf(old(self)@),
        ensures
            store_wf(final(self)@),
            r == is_invited(old(self)@.invites, group_id@, username@),
            !r ==> final(self)@ == old(self)@,
            !is_invited(final(self)@.invites, group_id@, username@),
            forall|h: Seq<char>, w: Seq<char>|
                !(h == group_id@ && w == username@) ==> #[trigger] is_invited(
                    final(self)@.invites,
                    h,
                    w,
                ) == is_invited(old(self)@.invites, h, w),
            final(self)@.users == old(self)@.users,
            final(self)@.pending == old(self)@.pending,
            final(self)@.groups == old(self)@.groups,
            final(self)@.members == old(self)@.members,
    {
        let idx = match self.find_invite(group_id, username) {
            Some(i) => i,
            None => {
                return false;
            },
        };
        let ghost pre = self@.invites;
        let ghost ix = idx as int;
        self.invites.remove(idx);
        proof {
            assert(self@.invites =~= pre.remove(ix));
            let post = self@.invites;
            pre.remove_ensures(ix);
            assert forall|i: int, j: int|
                0 <= i < j < post.len() implies !(#[trigger] post[i].group_id
                == #[trigger] post[j].group_id && post[i].username == post[j].username) by {
                let i0: int = if i < ix {
                    i
                } else {
                    i + 1
                };
                let j0: int = if j < ix {
                    j
                } else {
                    j + 1
                };
                assert(post[i] == pre[i0] && post[j] == pre[j0]);
                assert(!(pre[i0].group_id == pre[j0].group_id && pre[i0].username
                    == pre[j0].username));
            }
            assert forall|i: int|
                0 <= i < post.len() implies !(#[trigger] post[i].group_id == group_id@
                && post[i].username == username@) by {
                let i0: int = if i < ix {
                    i
                } else {
                    i + 1
                };
                assert(post[i] == pre[i0]);
                if i0 != ix {
                    assert(!(pre[i0].group_id == pre[ix].group_id && pre[i0].username
                        == pre[ix].username));
                }
            }
            if is_invited(post, group_id@, username@) {
                let w = choose|w: int| invite_at(post, w, group_id@, username@);
                assert(!(post[w].group_id == group_id@ && post[w].username == username@));
            }
            assert forall|h: Seq<char>, w: Seq<char>|
                !(h == group_id@ && w == username@) implies #[trigger] is_invited(post, h, w)
                == is_invited(pre, h, w) by {
                if is_invited(pre, h, w) {
                    let j = choose|j: int| invite_at(pre, j, h, w);
                    let j1: int = if j < ix {
                        j
                    } else {
                        j - 1
                    };
                    assert(j != ix);
                    assert(post[j1] == pre[j]);
                    assert(invite_at(post, j1, h, w));
                }
                if is_invited(post, h, w) {
                    let j = choose|j: int| invite_at(post, j, h, w);
                    let j0: int = if j < ix {
                        j
                    } else {
                        j + 1
                    };
                    assert(post[j] == pre[j0]);
                    assert(invite_at(pre, j0, h, w));
                }
            }
        }
        true
    }

    /// Whether group `group_id` is advertised.  An unknown group is not.
    pub fn is_group_discoverable(&self, group_id: &str) -> (r: bool)
        requires
            store_wf(self@),
        ensures
            r == (has_group(self@.groups, group_id@) && group_rec(
                self@.groups,
                group_id@,
            ).is_discoverable),
    {
        match self.find_group(group_id) {
            Some(i) => {
                proof {
                    lemma_group_witness(self@.groups, i as int, group_id@);
                }
                self.groups[i].is_discoverable
            },
            None => false,
        }
    }
}

} // verus!
