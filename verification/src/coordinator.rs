//! The coordinator: single owner of the session registry and of room
//! membership. Each protocol event is an exec method that mutates the
//! state and returns the outbound broadcast groups it caused; delivering
//! a group to its recipients is the unverified shell's job. Events are
//! consumed one at a time, so each method models one serialized step.

use crate::text::dec_seq;
use crate::text::str_eq;
use crate::text::u64_to_string;
use vstd::prelude::*;
use vstd::seq_lib::seq_to_set_is_finite;
use vstd::set_lib::lemma_int_range;
use vstd::set_lib::lemma_len_subset;
use vstd::set_lib::set_int_range;
use vstd::string::StringExecFns;

verus! {

/// A line of text pushed to one session's connection.
pub struct Message(pub String);

/// Event: a new session asks to be registered.
pub struct Connect;

/// Event: the session with this id is gone.
pub struct Disconnect {
    pub id: u64,
}

/// Event: a session sends a chat line to a room.
pub struct ClientMessage {
    /// Id of the sending session.
    pub id: u64,
    /// The (possibly name-prefixed) chat line.
    pub msg: String,
    /// Name of the room the sender currently occupies.
    pub room: String,
}

/// Request: the names of all known rooms.
pub struct ListRooms;

/// Event: a session moves into a room, leaving every other room.
pub struct Join {
    /// Id of the joining session.
    pub id: u64,
    /// Name of the target room.
    pub name: String,
}

/// One broadcast: a text to be delivered to each of the listed sessions.
pub struct Outbound {
    pub msg: Message,
    pub to: Vec<u64>,
}

/// A named room and the ids of the sessions currently inside it.
pub struct Room {
    pub name: String,
    pub members: Vec<u64>,
}

/// The coordinator's whole state. Mutated by one event at a time.
pub struct ChatServer {
    /// Ids of the registered sessions, in registration order.
    pub sessions: Vec<u64>,
    /// All rooms ever created; rooms are never deleted.
    pub rooms: Vec<Room>,
    /// How many sessions have ever connected.
    pub visitor_count: u64,
}

/// The ids of `members` that a broadcast skipping `skip` actually reaches:
/// everyone but `skip` whose delivery handle is still registered. A member
/// with no registered handle is silently skipped, never an error.
pub open spec fn bcast_targets(members: Seq<u64>, reg: Seq<u64>, skip: Option<u64>) -> Seq<u64> {
    members.filter(|m: u64| skip != Some(m) && reg.contains(m))
}

/// `s` without every occurrence of `x`, order otherwise kept.
pub open spec fn without(s: Seq<u64>, x: u64) -> Seq<u64> {
    s.filter(|m: u64| m != x)
}

/// `ob` is a broadcast of `text` to exactly the sessions in `to`, in order.
pub open spec fn is_group(ob: Outbound, text: Seq<char>, to: Seq<u64>) -> bool {
    ob.msg.0@ == text && ob.to@ == to
}

/// `obs` holds one departure notice per room of `rooms` (in order) that
/// contained `id`, addressed to that room's remaining members.
pub open spec fn vacated_obs(rooms: Seq<Room>, reg: Seq<u64>, id: u64, obs: Seq<Outbound>) -> bool {
    let vac = vac_rooms(rooms, id);
    &&& obs.len() == vac.len()
    &&& forall|k: int|
        0 <= k < vac.len() ==> is_group(
            #[trigger] obs[k],
            "Someone disconnected"@,
            bcast_targets(without(vac[k].members@, id), reg, None),
        )
}

/// The visitor notice broadcast when the counter stood at `n`.
pub open spec fn visitors_text(n: u64) -> Seq<char> {
    "Total visitors "@ + dec_seq(n as int)
}

/// How `Connect` changes the state: a fresh id is registered and put into
/// the default room, and the visitor counter advances.
pub open spec fn connect_post(pre: ChatServer, post: ChatServer, id: u64) -> bool {
    &&& !pre.registered(id)
    &&& post.registered(id)
    &&& post.sessions@ == pre.sessions@.push(id)
    &&& post.room_names() == pre.room_names()
    &&& post.members_seq("Main"@) == if pre.in_room(id, "Main"@) {
        pre.members_seq("Main"@)
    } else {
        pre.members_seq("Main"@).push(id)
    }
    &&& forall|n: Seq<char>|
        n != "Main"@ ==> #[trigger] post.members_seq(n) == pre.members_seq(n)
    &&& post.visitor_count == if pre.visitor_count == u64::MAX {
        0
    } else {
        (pre.visitor_count + 1) as u64
    }
}

/// How `Disconnect` changes the state: a registered id leaves the registry
/// and every room; an unknown id is a no-op, not an error.
pub open spec fn disconnect_post(pre: ChatServer, post: ChatServer, id: u64) -> bool {
    if pre.registered(id) {
        &&& post.sessions@ == without(pre.sessions@, id)
        &&& !post.registered(id)
        &&& post.room_names() == pre.room_names()
        &&& forall|n: Seq<char>| #[trigger]
            post.members_seq(n) == without(pre.members_seq(n), id)
        &&& forall|n: Seq<char>| !(#[trigger] post.in_room(id, n))
        &&& post.visitor_count == pre.visitor_count
    } else {
        &&& post.sessions@ == pre.sessions@
        &&& post.rooms@ == pre.rooms@
        &&& post.visitor_count == pre.visitor_count
    }
}

/// How `Join` changes the state: the id leaves every room, the target room
/// is created when absent, and the id ends up in exactly the target room.
pub open spec fn join_post(pre: ChatServer, post: ChatServer, id: u64, name: Seq<char>) -> bool {
    &&& post.sessions@ == pre.sessions@
    &&& post.visitor_count == pre.visitor_count
    &&& post.room_names() == if pre.has_room(name) {
        pre.room_names()
    } else {
        pre.room_names().push(name)
    }
    &&& post.members_seq(name) == without(pre.members_seq(name), id).push(id)
    &&& forall|n: Seq<char>|
        n != name ==> #[trigger] post.members_seq(n) == without(pre.members_seq(n), id)
    &&& post.in_room(id, name)
    &&& forall|n: Seq<char>| n != name ==> !(#[trigger] post.in_room(id, n))
}

// ---------------------------------------------------------------------------
// sequence lemmas about `without`, `bcast_targets` and `vac_rooms`
// ---------------------------------------------------------------------------
/// The rooms of `rooms` (in order) that hold `id` as a member.
pub open spec fn vac_rooms(rooms: Seq<Room>, id: u64) -> Seq<Room> {
    rooms.filter(|r: Room| r.members@.contains(id))
}

proof fn lemma_push_no_dup<A>(s: Seq<A>, x: A)
    requires
        s.no_duplicates(),
        !s.contains(x),
    ensures
        s.push(x).no_duplicates(),
{
    let t = s.push(x);
    assert forall|i: int, j: int| 0 <= i < t.len() && 0 <= j < t.len() && i != j implies t[i]
        != t[j] by {
        if i < s.len() && j < s.len() {
        } else if j == s.len() {
            assert(s[i] == t[i]);
        } else {
            assert(s[j] == t[j]);
        }
    }
}

proof fn lemma_drop_last_no_dup<A>(s: Seq<A>)
    requires
        s.len() > 0,
        s.no_duplicates(),
    ensures
        s.drop_last().no_duplicates(),
        !s.drop_last().contains(s.last()),
{
    let s0 = s.drop_last();
    assert forall|i: int, j: int| 0 <= i < s0.len() && 0 <= j < s0.len() && i != j implies s0[i]
        != s0[j] by {
        assert(s[i] == s0[i] && s[j] == s0[j]);
    }
    if s0.contains(s.last()) {
        let i = choose|i: int| 0 <= i < s0.len() && s0[i] == s.last();
        assert(s[i] == s[s.len() - 1]);
    }
}

proof fn lemma_without_empty(x: u64)
    ensures
        without(Seq::<u64>::empty(), x) == Seq::<u64>::empty(),
{
    reveal(Seq::filter);
    assert(without(Seq::<u64>::empty(), x) =~= Seq::<u64>::empty());
}

proof fn lemma_without_push(s: Seq<u64>, x: u64, e: u64)
    ensures
        without(s.push(e), x) == if e != x {
            without(s, x).push(e)
        } else {
            without(s, x)
        },
{
    reveal(Seq::filter);
    assert(s.push(e).drop_last() =~= s);
    assert(s.push(e).last() == e);
    if e != x {
        assert(without(s.push(e), x) =~= without(s, x).push(e));
    } else {
        assert(without(s.push(e), x) =~= without(s, x));
    }
}

proof fn lemma_without_absent(s: Seq<u64>, x: u64)
    requires
        !s.contains(x),
    ensures
        without(s, x) == s,
    decreases s.len(),
{
    reveal(Seq::filter);
    if s.len() == 0 {
        assert(without(s, x) =~= s);
    } else {
        let s0 = s.drop_last();
        assert(!s0.contains(x)) by {
            if s0.contains(x) {
                let i = choose|i: int| 0 <= i < s0.len() && s0[i] == x;
                assert(s[i] == x);
            }
        }
        lemma_without_absent(s0, x);
        assert(s.last() != x) by {
            assert(s[s.len() - 1] == s.last());
        }
        assert(without(s, x) =~= s);
    }
}

/// What `without` keeps: every occurrence of anything but `x`.
pub proof fn lemma_without_contains(s: Seq<u64>, x: u64)
    ensures
        forall|m: u64| #[trigger] without(s, x).contains(m) <==> (s.contains(m) && m != x),
        s.no_duplicates() ==> without(s, x).no_duplicates(),
    decreases s.len(),
{
    reveal(Seq::filter);
    if s.len() == 0 {
        assert(without(s, x) =~= Seq::<u64>::empty());
        assert forall|m: u64| !(#[trigger] without(s, x).contains(m)) by {}
        assert forall|m: u64| !s.contains(m) by {}
    } else {
        let s0 = s.drop_last();
        let l = s.last();
        lemma_without_contains(s0, x);
        assert(without(s, x) == if l != x {
            without(s0, x).push(l)
        } else {
            without(s0, x)
        });
        assert forall|m: u64| #[trigger] without(s, x).contains(m) <==> (s.contains(m) && m
            != x) by {
            if without(s, x).contains(m) {
                if l != x && m == l {
                    assert(s[s.len() - 1] == l);
                    assert(s.contains(m));
                } else {
                    let i = choose|i: int| 0 <= i < without(s, x).len() && without(s, x)[i] == m;
                    if l != x && i == without(s0, x).len() {
                        assert(m == l);
                    } else {
                        assert(without(s0, x)[i] == m);
                        assert(without(s0, x).contains(m));
                        assert(s0.contains(m));
                        let j = choose|j: int| 0 <= j < s0.len() && s0[j] == m;
                        assert(s[j] == m);
                    }
                }
            }
            if s.contains(m) && m != x {
                let i = choose|i: int| 0 <= i < s.len() && s[i] == m;
                if i < s0.len() {
                    assert(s0[i] == m);
                    assert(s0.contains(m));
                    assert(without(s0, x).contains(m));
                    let j = choose|j: int| 0 <= j < without(s0, x).len() && without(s0, x)[j] == m;
                    assert(without(s, x)[j] == m);
                } else {
                    assert(m == l);
                    assert(without(s, x)[without(s, x).len() - 1] == m);
                }
            }
        }
        if s.no_duplicates() {
            lemma_drop_last_no_dup(s);
            if l != x {
                assert(!without(s0, x).contains(l));
                lemma_push_no_dup(without(s0, x), l);
            }
        }
    }
}

proof fn lemma_bcast_empty(reg: Seq<u64>, skip: Option<u64>)
    ensures
        bcast_targets(Seq::<u64>::empty(), reg, skip) == Seq::<u64>::empty(),
{
    reveal(Seq::filter);
    assert(bcast_targets(Seq::<u64>::empty(), reg, skip) =~= Seq::<u64>::empty());
}

proof fn lemma_bcast_push(s: Seq<u64>, reg: Seq<u64>, skip: Option<u64>, e: u64)
    ensures
        bcast_targets(s.push(e), reg, skip) == if skip != Some(e) && reg.contains(e) {
            bcast_targets(s, reg, skip).push(e)
        } else {
            bcast_targets(s, reg, skip)
        },
{
    reveal(Seq::filter);
    assert(s.push(e).drop_last() =~= s);
    assert(s.push(e).last() == e);
    if skip != Some(e) && reg.contains(e) {
        assert(bcast_targets(s.push(e), reg, skip) =~= bcast_targets(s, reg, skip).push(e));
    } else {
        assert(bcast_targets(s.push(e), reg, skip) =~= bcast_targets(s, reg, skip));
    }
}

proof fn lemma_vac_push(rooms: Seq<Room>, id: u64, r: Room)
    ensures
        vac_rooms(rooms.push(r), id) == if r.members@.contains(id) {
            vac_rooms(rooms, id).push(r)
        } else {
            vac_rooms(rooms, id)
        },
{
    reveal(Seq::filter);
    assert(rooms.push(r).drop_last() =~= rooms);
    assert(rooms.push(r).last() == r);
    if r.members@.contains(id) {
        assert(vac_rooms(rooms.push(r), id) =~= vac_rooms(rooms, id).push(r));
    } else {
        assert(vac_rooms(rooms.push(r), id) =~= vac_rooms(rooms, id));
    }
}

proof fn lemma_vac_empty(id: u64)
    ensures
        vac_rooms(Seq::<Room>::empty(), id) == Seq::<Room>::empty(),
{
    reveal(Seq::filter);
    assert(vac_rooms(Seq::<Room>::empty(), id) =~= Seq::<Room>::empty());
}

/// What a broadcast reaches: exactly the non-skipped, registered members.
pub proof fn lemma_bcast_contains(members: Seq<u64>, reg: Seq<u64>, skip: Option<u64>)
    ensures
        forall|m: u64| #[trigger]
            bcast_targets(members, reg, skip).contains(m) <==> (members.contains(m) && skip
                != Some(m) && reg.contains(m)),
    decreases members.len(),
{
    reveal(Seq::filter);
    if members.len() == 0 {
        assert(bcast_targets(members, reg, skip) =~= Seq::<u64>::empty());
        assert forall|m: u64| !members.contains(m) by {}
    } else {
        let s0 = members.drop_last();
        let l = members.last();
        lemma_bcast_contains(s0, reg, skip);
        lemma_bcast_push(s0, reg, skip, l);
        assert(s0.push(l) =~= members);
        assert forall|m: u64| #[trigger]
            bcast_targets(members, reg, skip).contains(m) <==> (members.contains(m) && skip
                != Some(m) && reg.contains(m)) by {
            let b0 = bcast_targets(s0, reg, skip);
            if bcast_targets(members, reg, skip).contains(m) {
                let i = choose|i: int|
                    0 <= i < bcast_targets(members, reg, skip).len() && bcast_targets(
                        members,
                        reg,
                        skip,
                    )[i] == m;
                if skip != Some(l) && reg.contains(l) && i == b0.len() {
                    assert(m == l);
                    assert(members[members.len() - 1] == l);
                    assert(members.contains(m));
                } else {
                    assert(b0[i] == m);
                    assert(b0.contains(m));
                    let j = choose|j: int| 0 <= j < s0.len() && s0[j] == m;
                    assert(members[j] == m);
                }
            }
            if members.contains(m) && skip != Some(m) && reg.contains(m) {
                let i = choose|i: int| 0 <= i < members.len() && members[i] == m;
                if i < s0.len() {
                    assert(s0[i] == m);
                    assert(s0.contains(m));
                    assert(b0.contains(m));
                    let j = choose|j: int| 0 <= j < b0.len() && b0[j] == m;
                    assert(bcast_targets(members, reg, skip)[j] == m);
                } else {
                    assert(m == l);
                    assert(bcast_targets(members, reg, skip)[bcast_targets(
                        members,
                        reg,
                        skip,
                    ).len() - 1] == m);
                }
            }
        }
    }
}

// ---------------------------------------------------------------------------
// small exec helpers
// ---------------------------------------------------------------------------
/// Whether `v` holds `x`.
pub fn contains_u64(v: &Vec<u64>, x: u64) -> (r: bool)
    ensures
        r == v@.contains(x),
{
    let mut i: usize = 0;
    while i < v.len()
        invariant
            0 <= i <= v@.len(),
            forall|k: int| 0 <= k < i ==> v@[k] != x,
        decreases v@.len() - i,
    {
        if v[i] == x {
            return true;
        }
        i = i + 1;
    }
    false
}

/// A copy of `v` with every occurrence of `x` removed.
fn without_vec(v: &Vec<u64>, x: u64) -> (r: Vec<u64>)
    ensures
        r@ == without(v@, x),
{
    let mut r: Vec<u64> = Vec::new();
    let mut i: usize = 0;
    proof {
        lemma_without_empty(x);
        assert(v@.take(0) =~= Seq::<u64>::empty());
    }
    while i < v.len()
        invariant
            0 <= i <= v@.len(),
            r@ == without(v@.take(i as int), x),
        decreases v@.len() - i,
    {
        let m = v[i];
        proof {
            assert(v@.take(i + 1) =~= v@.take(i as int).push(m));
            lemma_without_push(v@.take(i as int), x, m);
        }
        if m != x {
            r.push(m);
        }
        i = i + 1;
    }
    proof {
        assert(v@.take(v@.len() as int) =~= v@);
    }
    r
}

/// The recipients a broadcast to `members` reaches, skipping `skip` and
/// every member without a registered handle in `reg`.
fn bcast_vec(members: &Vec<u64>, reg: &Vec<u64>, skip: Option<u64>) -> (r: Vec<u64>)
    ensures
        r@ == bcast_targets(members@, reg@, skip),
{
    let mut r: Vec<u64> = Vec::new();
    let mut i: usize = 0;
    proof {
        lemma_bcast_empty(reg@, skip);
        assert(members@.take(0) =~= Seq::<u64>::empty());
    }
    while i < members.len()
        invariant
            0 <= i <= members@.len(),
            r@ == bcast_targets(members@.take(i as int), reg@, skip),
        decreases members@.len() - i,
    {
        let m = members[i];
        let not_skipped = match skip {
            Some(k) => m != k,
            None => true,
        };
        let keep = not_skipped && contains_u64(reg, m);
        proof {
            assert(members@.take(i + 1) =~= members@.take(i as int).push(m));
            lemma_bcast_push(members@.take(i as int), reg@, skip, m);
        }
        if keep {
            r.push(m);
        }
        i = i + 1;
    }
    proof {
        assert(members@.take(members@.len() as int) =~= members@);
    }
    r
}

/// Relies on rand::random: draws a value from the thread-local generator.
/// Nothing is assumed of the value drawn.
#[verifier::external_body]
fn random_u64() -> u64 {
    rand::random::<u64>()
}

impl ChatServer {
    /// Room names, in creation order.
    pub open spec fn room_names(self) -> Seq<Seq<char>> {
        self.rooms@.map_values(|r: Room| r.name@)
    }

    /// Whether a room called `name` exists.
    pub open spec fn has_room(self, name: Seq<char>) -> bool {
        exists|i: int| 0 <= i < self.rooms@.len() && self.rooms@[i].name@ == name
    }

    /// The index of the room called `name` (well defined under `wf`).
    pub open spec fn room_idx(self, name: Seq<char>) -> int {
        choose|i: int| 0 <= i < self.rooms@.len() && self.rooms@[i].name@ == name
    }

    /// The member ids of the room called `name`; empty when absent.
    pub open spec fn members_seq(self, name: Seq<char>) -> Seq<u64> {
        if self.has_room(name) {
            self.rooms@[self.room_idx(name)].members@
        } else {
            Seq::empty()
        }
    }

    /// Whether session `id` is currently a member of room `name`.
    pub open spec fn in_room(self, id: u64, name: Seq<char>) -> bool {
        self.members_seq(name).contains(id)
    }

    /// Whether session `id` is registered.
    pub open spec fn registered(self, id: u64) -> bool {
        self.sessions@.contains(id)
    }

    /// Room names are pairwise distinct.
    pub open spec fn names_unique(self) -> bool {
        forall|i: int, j: int|
            0 <= i < j < self.rooms@.len() ==> self.rooms@[i].name@ != self.rooms@[j].name@
    }

    /// Well-formedness: room names are unique, the default room exists,
    /// and no id is listed twice in the registry or inside one room.
    pub open spec fn wf(self) -> bool {
        &&& self.names_unique()
        &&& self.has_room("Main"@)
        &&& self.sessions@.no_duplicates()
        &&& forall|i: int|
            0 <= i < self.rooms@.len() ==> (#[trigger] self.rooms@[i]).members@.no_duplicates()
    }

    /// With unique names, the room found at `i` is the room `room_idx` picks.
    proof fn lemma_room_at(self, i: int)
        requires
            self.names_unique(),
            0 <= i < self.rooms@.len(),
        ensures
            self.has_room(self.rooms@[i].name@),
            self.room_idx(self.rooms@[i].name@) == i,
            self.members_seq(self.rooms@[i].name@) == self.rooms@[i].members@,
    {
        let name = self.rooms@[i].name@;
        assert(self.has_room(name));
        let j = self.room_idx(name);
        assert(0 <= j < self.rooms@.len() && self.rooms@[j].name@ == name);
        if i < j {
            assert(self.rooms@[i].name@ != self.rooms@[j].name@);
        } else if j < i {
            assert(self.rooms@[j].name@ != self.rooms@[i].name@);
        }
    }

    /// Transfers `members_seq` across a state change that only replaces the
    /// member list of the single room at index `upd`.
    proof fn lemma_members_update(pre: ChatServer, post: ChatServer, upd: int)
        requires
            pre.names_unique(),
            0 <= upd < pre.rooms@.len(),
            post.rooms@.len() == pre.rooms@.len(),
            forall|i: int|
                0 <= i < pre.rooms@.len() ==> (#[trigger] post.rooms@[i]).name@
                    == pre.rooms@[i].name@,
            forall|i: int|
                0 <= i < pre.rooms@.len() && i != upd ==> (#[trigger] post.rooms@[i]).members@
                    == pre.rooms@[i].members@,
        ensures
            post.names_unique(),
            post.room_names() == pre.room_names(),
            forall|n: Seq<char>| #[trigger] post.has_room(n) == pre.has_room(n),
            forall|n: Seq<char>|
                n != pre.rooms@[upd].name@ ==> #[trigger] post.members_seq(n) == pre.members_seq(
                    n,
                ),
            post.members_seq(pre.rooms@[upd].name@) == post.rooms@[upd].members@,
            pre.members_seq(pre.rooms@[upd].name@) == pre.rooms@[upd].members@,
    {
        assert(post.room_names() =~= pre.room_names());
        assert forall|n: Seq<char>| #[trigger] post.has_room(n) == pre.has_room(n) by {
            if pre.has_room(n) {
                let i = pre.room_idx(n);
                assert(post.rooms@[i].name@ == n);
            }
            if post.has_room(n) {
                let i = post.room_idx(n);
                assert(pre.rooms@[i].name@ == n);
            }
        }
        assert forall|n: Seq<char>|
            n != pre.rooms@[upd].name@ implies #[trigger] post.members_seq(n) == pre.members_seq(
            n,
        ) by {
            if pre.has_room(n) {
                let i = pre.room_idx(n);
                assert(0 <= i < pre.rooms@.len() && pre.rooms@[i].name@ == n);
                assert(post.has_room(n));
                let j = post.room_idx(n);
                assert(0 <= j < post.rooms@.len() && post.rooms@[j].name@ == n);
                assert(pre.rooms@[j].name@ == n);
                if i < j {
                    assert(pre.rooms@[i].name@ != pre.rooms@[j].name@);
                } else if j < i {
                    assert(pre.rooms@[j].name@ != pre.rooms@[i].name@);
                }
                assert(i != upd);
            }
        }
        pre.lemma_room_at(upd);
        let name = pre.rooms@[upd].name@;
        assert(post.rooms@[upd].name@ == name);
        post.lemma_room_at(upd);
    }

    /// A fresh coordinator: no sessions, no visitors, and the default room
    /// `"Main"` already present and empty.
    pub fn new() -> (s: ChatServer)
        ensures
            s.wf(),
            s.sessions@ =~= Seq::<u64>::empty(),
            s.visitor_count == 0,
            s.room_names() =~= seq!["Main"@],
            s.members_seq("Main"@) =~= Seq::<u64>::empty(),
    {
        let mut rooms: Vec<Room> = Vec::new();
        rooms.push(Room { name: String::from_str("Main"), members: Vec::new() });
        let s = ChatServer { sessions: Vec::new(), rooms, visitor_count: 0 };
        proof {
            assert(s.rooms@[0].name@ == "Main"@);
            assert(s.has_room("Main"@));
            s.lemma_room_at(0);
            assert(s.room_names() =~= seq!["Main"@]);
        }
        s
    }

    /// The index of the room called `name`, when it exists.
    fn find_room(&self, name: &str) -> (r: Option<usize>)
        ensures
            match r {
                Some(i) => i < self.rooms@.len() && self.rooms@[i as int].name@ == name@,
                None => !self.has_room(name@),
            },
    {
        let mut i: usize = 0;
        while i < self.rooms.len()
            invariant
                0 <= i <= self.rooms@.len(),
                forall|k: int| 0 <= k < i ==> (#[trigger] self.rooms@[k]).name@ != name@,
            decreases self.rooms@.len() - i,
        {
            if str_eq(self.rooms[i].name.as_str(), name) {
                return Some(i);
            }
            i = i + 1;
        }
        None
    }

    /// One broadcast group: `message` addressed to every member of `room`
    /// other than `skip_id` whose handle is still registered. An absent
    /// room yields an empty group: a routing no-op, never an error.
    fn send_message(&self, room: &str, message: &str, skip_id: Option<u64>) -> (ob: Outbound)
        requires
            self.names_unique(),
        ensures
            is_group(ob, message@, bcast_targets(self.members_seq(room@), self.sessions@, skip_id)),
    {
        match self.find_room(room) {
            Some(i) => {
                proof {
                    self.lemma_room_at(i as int);
                }
                let to = bcast_vec(&self.rooms[i].members, &self.sessions, skip_id);
                Outbound { msg: Message(String::from_str(message)), to }
            },
            None => {
                proof {
                    lemma_bcast_empty(self.sessions@, skip_id);
                }
                Outbound { msg: Message(String::from_str(message)), to: Vec::new() }
            },
        }
    }

    /// An id not currently registered. A random draw is preferred; if it
    /// collides, the smallest free id is taken instead.
    fn fresh_id(&self) -> (id: u64)
        requires
            self.sessions@.no_duplicates(),
        ensures
            !self.sessions@.contains(id),
    {
        let r = random_u64();
        if !contains_u64(&self.sessions, r) {
            return r;
        }
        let n = self.sessions.len();
        let mut i: usize = 0;
        while i < n
            invariant
                0 <= i <= n,
                n == self.sessions@.len(),
                forall|k: int| 0 <= k < i ==> #[trigger] self.sessions@.contains(k as u64),
            decreases n - i,
        {
            if !contains_u64(&self.sessions, i as u64) {
                return i as u64;
            }
            i = i + 1;
        }
        if !contains_u64(&self.sessions, n as u64) {
            return n as u64;
        }
        proof {
            self.lemma_some_id_is_free();
            assert(false);
        }
        vstd::pervasive::unreached()
    }

    /// Transfers `members_seq` across a state change that replaces every
    /// room's member list by the same list with `id` removed.
    proof fn lemma_members_vacate(pre: ChatServer, post: ChatServer, id: u64)
        requires
            pre.names_unique(),
            post.rooms@.len() == pre.rooms@.len(),
            forall|i: int|
                0 <= i < pre.rooms@.len() ==> (#[trigger] post.rooms@[i]).name@
                    == pre.rooms@[i].name@,
            forall|i: int|
                0 <= i < pre.rooms@.len() ==> (#[trigger] post.rooms@[i]).members@ == without(
                    pre.rooms@[i].members@,
                    id,
                ),
        ensures
            post.names_unique(),
            post.room_names() == pre.room_names(),
            forall|n: Seq<char>| #[trigger] post.has_room(n) == pre.has_room(n),
            forall|n: Seq<char>| #[trigger]
                post.members_seq(n) == without(pre.members_seq(n), id),
    {
        assert(post.room_names() =~= pre.room_names());
        assert forall|n: Seq<char>| #[trigger] post.has_room(n) == pre.has_room(n) by {
            if pre.has_room(n) {
                let i = pre.room_idx(n);
                assert(post.rooms@[i].name@ == n);
            }
            if post.has_room(n) {
                let i = post.room_idx(n);
                assert(pre.rooms@[i].name@ == n);
            }
        }
        assert forall|n: Seq<char>| #[trigger] post.members_seq(n) == without(
            pre.members_seq(n),
            id,
        ) by {
            if pre.has_room(n) {
                let i = pre.room_idx(n);
                assert(0 <= i < pre.rooms@.len() && pre.rooms@[i].name@ == n);
                assert(post.has_room(n));
                let j = post.room_idx(n);
                assert(0 <= j < post.rooms@.len() && post.rooms@[j].name@ == n);
                assert(pre.rooms@[j].name@ == n);
                if i < j {
                    assert(pre.rooms@[i].name@ != pre.rooms@[j].name@);
                } else if j < i {
                    assert(pre.rooms@[j].name@ != pre.rooms@[i].name@);
                }
            } else {
                assert(!post.has_room(n));
                lemma_without_empty(id);
            }
        }
    }

    /// Removes `id` from every room, returning one departure notice per
    /// room it was removed from, addressed to that room's remaining
    /// members that are registered right now.
    fn vacate(&mut self, id: u64) -> (obs: Vec<Outbound>)
        requires
            old(self).wf(),
        ensures
            final(self).wf(),
            final(self).sessions@ == old(self).sessions@,
            final(self).visitor_count == old(self).visitor_count,
            final(self).room_names() == old(self).room_names(),
            forall|n: Seq<char>| #[trigger] final(self).has_room(n) == old(self).has_room(n),
            forall|n: Seq<char>| #[trigger]
                final(self).members_seq(n) == without(old(self).members_seq(n), id),
            vacated_obs(old(self).rooms@, old(self).sessions@, id, obs@),
    {
        let ghost pre = *self;
        let mut obs: Vec<Outbound> = Vec::new();
        let mut i: usize = 0;
        proof {
            lemma_vac_empty(id);
            assert(pre.rooms@.take(0) =~= Seq::<Room>::empty());
        }
        while i < self.rooms.len()
            invariant
                0 <= i <= pre.rooms@.len(),
                self.rooms@.len() == pre.rooms@.len(),
                self.sessions@ == pre.sessions@,
                self.visitor_count == pre.visitor_count,
                forall|j: int| i <= j < pre.rooms@.len() ==> self.rooms@[j] == pre.rooms@[j],
                forall|j: int|
                    0 <= j < i ==> (#[trigger] self.rooms@[j]).name@ == pre.rooms@[j].name@
                        && self.rooms@[j].members@ == without(pre.rooms@[j].members@, id),
                vacated_obs(pre.rooms@.take(i as int), pre.sessions@, id, obs@),
            decreases pre.rooms@.len() - i,
        {
            let ghost prev_obs = obs@;
            let ghost vac_prev = vac_rooms(pre.rooms@.take(i as int), id);
            let has = contains_u64(&self.rooms[i].members, id);
            proof {
                assert(self.rooms@[i as int] == pre.rooms@[i as int]);
            }
            if has {
                let wm = without_vec(&self.rooms[i].members, id);
                let to = bcast_vec(&wm, &self.sessions, None);
                let text = String::from_str("Someone disconnected");
                self.rooms[i].members = wm;
                obs.push(Outbound { msg: Message(text), to });
            }
            proof {
                assert(pre.rooms@.take(i + 1) =~= pre.rooms@.take(i as int).push(
                    pre.rooms@[i as int],
                ));
                lemma_vac_push(pre.rooms@.take(i as int), id, pre.rooms@[i as int]);
                let vac_now = vac_rooms(pre.rooms@.take(i + 1), id);
                if has {
                    assert(vac_now == vac_prev.push(pre.rooms@[i as int]));
                    assert forall|k: int| 0 <= k < vac_now.len() implies is_group(
                        #[trigger] obs@[k],
                        "Someone disconnected"@,
                        bcast_targets(without(vac_now[k].members@, id), pre.sessions@, None),
                    ) by {
                        if k < vac_prev.len() {
                            assert(obs@[k] == prev_obs[k]);
                            assert(vac_now[k] == vac_prev[k]);
                        } else {
                            assert(vac_now[k] == pre.rooms@[i as int]);
                        }
                    }
                } else {
                    assert(vac_now == vac_prev);
                    lemma_without_absent(pre.rooms@[i as int].members@, id);
                }
            }
            i = i + 1;
        }
        proof {
            assert(pre.rooms@.take(pre.rooms@.len() as int) =~= pre.rooms@);
            Self::lemma_members_vacate(pre, *self, id);
            assert forall|j: int| 0 <= j < self.rooms@.len() implies (#[trigger] self.rooms@[j]).members@.no_duplicates() by {
                lemma_without_contains(pre.rooms@[j].members@, id);
            }
        }
        obs
    }

    /// `Connect`: register a fresh id, put it into the default room, and
    /// advance the visitor counter. Returns the id and two broadcasts: the
    /// arrival notice to the old members of the default room, then the
    /// visitor notice to the default room excluding the new id.
    pub fn connect(&mut self, _msg: Connect) -> (r: (u64, Vec<Outbound>))
        requires
            old(self).wf(),
        ensures
            final(self).wf(),
            connect_post(*old(self), *final(self), r.0),
            r.1@.len() == 2,
            is_group(
                r.1@[0],
                "Someone joined"@,
                bcast_targets(old(self).members_seq("Main"@), old(self).sessions@, None),
            ),
            is_group(
                r.1@[1],
                visitors_text(old(self).visitor_count),
                bcast_targets(final(self).members_seq("Main"@), final(self).sessions@, Some(r.0)),
            ),
    {
        let ghost pre = *self;
        let ob1 = self.send_message("Main", "Someone joined", None);
        let id = self.fresh_id();
        self.sessions.push(id);
        proof {
            lemma_push_no_dup(pre.sessions@, id);
        }
        let mi_opt = self.find_room("Main");
        let mi = match mi_opt {
            Some(i) => i,
            None => {
                proof {
                    let gi = pre.room_idx("Main"@);
                    assert(self.rooms@[gi].name@ == "Main"@);
                    assert(false);
                }
                vstd::pervasive::unreached()
            },
        };
        let ghost mid = *self;
        let already = contains_u64(&self.rooms[mi].members, id);
        if !already {
            self.rooms[mi].members.push(id);
        }
        let c = self.visitor_count;
        self.visitor_count = if c == u64::MAX {
            0
        } else {
            c + 1
        };
        let mut text = String::from_str("Total visitors ");
        let num = u64_to_string(c);
        text.append(num.as_str());
        let ob2 = self.send_message("Main", text.as_str(), Some(id));
        let mut obs: Vec<Outbound> = Vec::new();
        obs.push(ob1);
        obs.push(ob2);
        proof {
            Self::lemma_members_update(mid, *self, mi as int);
            pre.lemma_room_at(mi as int);
            assert(pre.rooms@[mi as int].name@ == "Main"@);
            assert(pre.members_seq("Main"@) == pre.rooms@[mi as int].members@);
            if !already {
                lemma_push_no_dup(pre.rooms@[mi as int].members@, id);
            }
            assert forall|j: int| 0 <= j < self.rooms@.len() implies (#[trigger] self.rooms@[j]).members@.no_duplicates() by {
                if j != mi as int {
                    assert(self.rooms@[j].members@ == pre.rooms@[j].members@);
                }
            }
            assert(self.has_room("Main"@)) by {
                assert(self.rooms@[mi as int].name@ == "Main"@);
            }
            assert(self.registered(id)) by {
                assert(self.sessions@[self.sessions@.len() - 1] == id);
            }
            assert(self.members_seq("Main"@) == if pre.in_room(id, "Main"@) {
                pre.members_seq("Main"@)
            } else {
                pre.members_seq("Main"@).push(id)
            });
        }
        (id, obs)
    }

    /// `Disconnect`: drop the id's delivery handle and remove it from
    /// every room, broadcasting a departure notice to each room it left.
    /// Disconnecting an unknown id changes nothing.
    pub fn disconnect(&mut self, msg: Disconnect) -> (obs: Vec<Outbound>)
        requires
            old(self).wf(),
        ensures
            final(self).wf(),
            disconnect_post(*old(self), *final(self), msg.id),
            old(self).registered(msg.id) ==> vacated_obs(
                old(self).rooms@,
                final(self).sessions@,
                msg.id,
                obs@,
            ),
            !old(self).registered(msg.id) ==> obs@.len() == 0,
    {
        let ghost pre = *self;
        if contains_u64(&self.sessions, msg.id) {
            let ns = without_vec(&self.sessions, msg.id);
            self.sessions = ns;
            proof {
                lemma_without_contains(pre.sessions@, msg.id);
                assert(self.has_room("Main"@)) by {
                    let gi = pre.room_idx("Main"@);
                    assert(self.rooms@[gi].name@ == "Main"@);
                }
                assert(self.wf());
            }
            let obs = self.vacate(msg.id);
            proof {
                assert forall|n: Seq<char>| !(#[trigger] self.in_room(msg.id, n)) by {
                    lemma_without_contains(pre.members_seq(n), msg.id);
                    assert(self.members_seq(n) == without(pre.members_seq(n), msg.id));
                }
            }
            obs
        } else {
            Vec::new()
        }
    }

    /// `ClientMessage`: relay the text verbatim to every other registered
    /// member of the given room. An absent room yields an empty broadcast.
    pub fn client_message(&self, msg: &ClientMessage) -> (obs: Vec<Outbound>)
        requires
            self.wf(),
        ensures
            obs@.len() == 1,
            is_group(
                obs@[0],
                msg.msg@,
                bcast_targets(self.members_seq(msg.room@), self.sessions@, Some(msg.id)),
            ),
    {
        let ob = self.send_message(msg.room.as_str(), msg.msg.as_str(), Some(msg.id));
        let mut obs: Vec<Outbound> = Vec::new();
        obs.push(ob);
        obs
    }

    /// `ListRooms`: the names of all known rooms, in creation order. The
    /// default room is always among them.
    pub fn list_rooms(&self, _msg: ListRooms) -> (names: Vec<String>)
        requires
            self.wf(),
        ensures
            names@.map_values(|s: String| s@) == self.room_names(),
            names@.map_values(|s: String| s@).contains("Main"@),
    {
        let mut names: Vec<String> = Vec::new();
        let mut i: usize = 0;
        while i < self.rooms.len()
            invariant
                0 <= i <= self.rooms@.len(),
                names@.len() == i,
                forall|j: int| 0 <= j < i ==> (#[trigger] names@[j])@ == self.rooms@[j].name@,
            decreases self.rooms@.len() - i,
        {
            names.push(self.rooms[i].name.clone());
            i = i + 1;
        }
        proof {
            assert(names@.map_values(|s: String| s@) =~= self.room_names());
            let gi = self.room_idx("Main"@);
            assert(names@.map_values(|s: String| s@)[gi] == "Main"@);
        }
        names
    }

    /// `Join`: remove the id from every room (broadcasting the departure
    /// notice to each), create the target room when absent, insert the id,
    /// and broadcast an arrival notice to the target room excluding it.
    pub fn join(&mut self, msg: Join) -> (obs: Vec<Outbound>)
        requires
            old(self).wf(),
        ensures
            final(self).wf(),
            join_post(*old(self), *final(self), msg.id, msg.name@),
            obs@.len() >= 1,
            vacated_obs(old(self).rooms@, old(self).sessions@, msg.id, obs@.drop_last()),
            is_group(
                obs@.last(),
                "Someone connected"@,
                bcast_targets(
                    final(self).members_seq(msg.name@),
                    final(self).sessions@,
                    Some(msg.id),
                ),
            ),
    {
        let ghost pre = *self;
        let mut obs = self.vacate(msg.id);
        let ghost vac = *self;
        let idx = match self.find_room(msg.name.as_str()) {
            Some(i) => i,
            None => {
                let l = self.rooms.len();
                self.rooms.push(Room { name: msg.name.clone(), members: Vec::new() });
                proof {
                    Self::lemma_room_push(vac, *self, msg.name@);
                }
                l
            },
        };
        let ghost mid = *self;
        proof {
            assert(mid.rooms@[idx as int].name@ == msg.name@);
            assert(!mid.rooms@[idx as int].members@.contains(msg.id)) by {
                mid.lemma_room_at(idx as int);
                if vac.has_room(msg.name@) {
                    assert(mid.members_seq(msg.name@) == vac.members_seq(msg.name@));
                    assert(vac.members_seq(msg.name@) == without(pre.members_seq(msg.name@), msg.id));
                    lemma_without_contains(pre.members_seq(msg.name@), msg.id);
                }
            }
        }
        self.rooms[idx].members.push(msg.id);
        let ob2 = self.send_message(msg.name.as_str(), "Someone connected", Some(msg.id));
        obs.push(ob2);
        proof {
            Self::lemma_members_update(mid, *self, idx as int);
            mid.lemma_room_at(idx as int);
            assert(self.members_seq(msg.name@) == mid.members_seq(msg.name@).push(msg.id));
            if vac.has_room(msg.name@) {
                assert(mid.members_seq(msg.name@) == without(pre.members_seq(msg.name@), msg.id));
            } else {
                assert(!pre.has_room(msg.name@));
                assert(pre.members_seq(msg.name@) =~= Seq::<u64>::empty());
                lemma_without_empty(msg.id);
                assert(mid.members_seq(msg.name@) =~= Seq::<u64>::empty());
            }
            assert(self.members_seq(msg.name@) == without(pre.members_seq(msg.name@), msg.id).push(msg.id));
            assert(self.in_room(msg.id, msg.name@)) by {
                let ms = self.members_seq(msg.name@);
                assert(ms[ms.len() - 1] == msg.id);
            }
            assert forall|n: Seq<char>| n != msg.name@ implies #[trigger] self.members_seq(n)
                == without(pre.members_seq(n), msg.id) by {
                assert(mid.members_seq(n) == vac.members_seq(n));
            }
            assert forall|n: Seq<char>| n != msg.name@ implies !(#[trigger] self.in_room(
                msg.id,
                n,
            )) by {
                lemma_without_contains(pre.members_seq(n), msg.id);
            }
            mid.lemma_room_at(idx as int);
            assert(mid.rooms@[idx as int].members@.no_duplicates());
            lemma_without_contains(pre.members_seq(msg.name@), msg.id);
            lemma_push_no_dup(mid.rooms@[idx as int].members@, msg.id);
            assert forall|j: int| 0 <= j < self.rooms@.len() implies (#[trigger] self.rooms@[j]).members@.no_duplicates() by {
                if j != idx as int {
                    assert(self.rooms@[j].members@ == mid.rooms@[j].members@);
                }
            }
            assert(self.has_room("Main"@)) by {
                assert(mid.has_room("Main"@));
                let gi = mid.room_idx("Main"@);
                assert(self.rooms@[gi].name@ == "Main"@);
            }
            assert(self.room_names() == if pre.has_room(msg.name@) {
                pre.room_names()
            } else {
                pre.room_names().push(msg.name@)
            }) by {
                if vac.has_room(msg.name@) {
                    assert(self.room_names() == mid.room_names());
                    assert(mid.room_names() == vac.room_names());
                } else {
                    assert(mid.room_names() == vac.room_names().push(msg.name@));
                }
            }
            assert(obs@.drop_last() =~= obs@.subrange(0, obs@.len() - 1));
        }
        obs
    }

    /// Appending a new empty room: every other name keeps its members, and
    /// the new name gets the empty member list.
    proof fn lemma_room_push(pre: ChatServer, post: ChatServer, name: Seq<char>)
        requires
            pre.names_unique(),
            !pre.has_room(name),
            post.rooms@.len() == pre.rooms@.len() + 1,
            forall|i: int| 0 <= i < pre.rooms@.len() ==> post.rooms@[i] == pre.rooms@[i],
            post.rooms@[pre.rooms@.len() as int].name@ == name,
            post.rooms@[pre.rooms@.len() as int].members@ == Seq::<u64>::empty(),
        ensures
            post.names_unique(),
            post.room_names() == pre.room_names().push(name),
            post.has_room(name),
            post.members_seq(name) == Seq::<u64>::empty(),
            forall|n: Seq<char>|
                n != name ==> #[trigger] post.has_room(n) == pre.has_room(n),
            forall|n: Seq<char>|
                n != name ==> #[trigger] post.members_seq(n) == pre.members_seq(n),
    {
        let l = pre.rooms@.len() as int;
        assert(post.names_unique()) by {
            assert forall|i: int, j: int|
                0 <= i < j < post.rooms@.len() implies post.rooms@[i].name@ != post.rooms@[j].name@ by {
                if j < l {
                } else {
                    assert(j == l);
                    if post.rooms@[i].name@ == name {
                        assert(pre.has_room(name));
                    }
                }
            }
        }
        assert(post.room_names() =~= pre.room_names().push(name));
        assert(post.has_room(name)) by {
            assert(post.rooms@[l].name@ == name);
        }
        post.lemma_room_at(l);
        assert forall|n: Seq<char>| n != name implies #[trigger] post.has_room(n)
            == pre.has_room(n) by {
            if pre.has_room(n) {
                let i = pre.room_idx(n);
                assert(post.rooms@[i].name@ == n);
            }
            if post.has_room(n) {
                let i = post.room_idx(n);
                assert(i != l);
                assert(pre.rooms@[i].name@ == n);
            }
        }
        assert forall|n: Seq<char>| n != name implies #[trigger] post.members_seq(n)
            == pre.members_seq(n) by {
            if pre.has_room(n) {
                let i = pre.room_idx(n);
                assert(0 <= i < pre.rooms@.len() && pre.rooms@[i].name@ == n);
                assert(post.has_room(n));
                let j = post.room_idx(n);
                assert(0 <= j < post.rooms@.len() && post.rooms@[j].name@ == n);
                assert(j != l);
                assert(pre.rooms@[j].name@ == n);
                if i < j {
                    assert(pre.rooms@[i].name@ != pre.rooms@[j].name@);
                } else if j < i {
                    assert(pre.rooms@[j].name@ != pre.rooms@[i].name@);
                }
            }
        }
    }

    /// Pigeonhole: the ids 0 ..= n cannot all sit in a duplicate-free
    /// registry of length n, so one of them is free.
    proof fn lemma_some_id_is_free(self)
        requires
            self.sessions@.no_duplicates(),
            self.sessions@.len() <= u64::MAX,
        ensures
            exists|k: int|
                0 <= k <= self.sessions@.len() && !(#[trigger] self.sessions@.contains(k as u64)),
    {
        broadcast use seq_to_set_is_finite;

        let s = self.sessions@;
        let n = s.len() as int;
        if forall|k: int| 0 <= k <= n ==> #[trigger] s.contains(k as u64) {
            let m = s.map_values(|v: u64| v as int);
            let range = set_int_range(0, n + 1);
            lemma_int_range(0, n + 1);
            assert forall|x: int| range.contains(x) implies m.to_set().contains(x) by {
                assert(s.contains(x as u64));
                let i = choose|i: int| 0 <= i < s.len() && s[i] == x as u64;
                assert(m[i] == x);
                assert(m.contains(x));
            }
            m.lemma_cardinality_of_set();
            lemma_len_subset(range, m.to_set());
            assert(n + 1 <= m.to_set().len());
            assert(m.to_set().len() <= n);
        }
    }
}

// ---------------------------------------------------------------------------
// laws: what holds across the coordinator's transitions
// ---------------------------------------------------------------------------
/// A `Connect` step never unregisters an id that was already registered.
pub proof fn lemma_connect_preserves_registered(
    pre: ChatServer,
    post: ChatServer,
    id: u64,
    x: u64,
)
    requires
        connect_post(pre, post, id),
        pre.registered(x),
    ensures
        post.registered(x),
{
    let i = choose|i: int| 0 <= i < pre.sessions@.len() && pre.sessions@[i] == x;
    assert(post.sessions@[i] == x);
}

/// Across a whole run of `Connect` steps, the returned ids are pairwise
/// distinct: each one is fresh when handed out and every earlier one is
/// still registered then.
pub proof fn lemma_connect_run_ids_unique(states: Seq<ChatServer>, ids: Seq<u64>)
    requires
        states.len() == ids.len() + 1,
        forall|k: int|
            0 <= k < ids.len() ==> connect_post(states[k], #[trigger] states[k + 1], ids[k]),
    ensures
        forall|i: int, j: int| 0 <= i < j < ids.len() ==> ids[i] != ids[j],
{
    assert forall|i: int, j: int| 0 <= i < j < ids.len() implies ids[i] != ids[j] by {
        assert(connect_post(states[i], states[i + 1], ids[i]));
        lemma_registered_through_run(states, ids, i + 1, j, ids[i]);
        assert(connect_post(states[j], states[j + 1], ids[j]));
    }
}

/// An id registered at step `k` of a run of connects is still registered
/// at any later step `j`.
proof fn lemma_registered_through_run(states: Seq<ChatServer>, ids: Seq<u64>, k: int, j: int, x: u64)
    requires
        states.len() == ids.len() + 1,
        forall|m: int|
            0 <= m < ids.len() ==> connect_post(states[m], #[trigger] states[m + 1], ids[m]),
        0 <= k <= j < states.len(),
        states[k].registered(x),
    ensures
        states[j].registered(x),
    decreases j - k,
{
    if k < j {
        assert(connect_post(states[k], states[k + 1], ids[k]));
        lemma_connect_preserves_registered(states[k], states[k + 1], ids[k], x);
        lemma_registered_through_run(states, ids, k + 1, j, x);
    }
}

/// After `Join(id, name)` the id is in exactly the target room; in
/// particular a second `Join` moves it out of the first target first.
pub proof fn lemma_join_single_room(pre: ChatServer, post: ChatServer, id: u64, name: Seq<char>)
    requires
        join_post(pre, post, id, name),
    ensures
        post.in_room(id, name),
        forall|n: Seq<char>| n != name ==> !(#[trigger] post.in_room(id, n)),
{
}

/// After a `Disconnect` of a registered id, no broadcast computed from the
/// resulting state reaches that id, whatever the room and whoever is
/// skipped: broadcasts only target registered ids.
pub proof fn lemma_disconnected_gets_nothing(pre: ChatServer, post: ChatServer, id: u64)
    requires
        disconnect_post(pre, post, id),
        pre.registered(id),
    ensures
        forall|room: Seq<char>, skip: Option<u64>|
            !(#[trigger] bcast_targets(post.members_seq(room), post.sessions@, skip)).contains(
                id,
            ),
{
    assert forall|room: Seq<char>, skip: Option<u64>|
        !(#[trigger] bcast_targets(post.members_seq(room), post.sessions@, skip)).contains(
        id,
    ) by {
        lemma_bcast_contains(post.members_seq(room), post.sessions@, skip);
    }
}

/// A chat broadcast from `sender` into `room` reaches every other
/// registered member of the room and never the sender itself.
pub proof fn lemma_chat_delivery(s: ChatServer, room: Seq<char>, sender: u64)
    ensures
        forall|m: u64|
            s.in_room(m, room) && m != sender && s.registered(m) ==> #[trigger] bcast_targets(
                s.members_seq(room),
                s.sessions@,
                Some(sender),
            ).contains(m),
        !bcast_targets(s.members_seq(room), s.sessions@, Some(sender)).contains(sender),
{
    lemma_bcast_contains(s.members_seq(room), s.sessions@, Some(sender));
}

/// `Join` never deletes a room: every known name stays known, and the
/// target name is known afterwards. `Connect` and `Disconnect` keep
/// `room_names` unchanged outright (see their transition predicates).
pub proof fn lemma_join_keeps_rooms(pre: ChatServer, post: ChatServer, id: u64, name: Seq<char>)
    requires
        join_post(pre, post, id, name),
    ensures
        forall|n: Seq<char>|
            pre.room_names().contains(n) ==> #[trigger] post.room_names().contains(n),
        post.room_names().contains(name),
{
    assert forall|n: Seq<char>|
        pre.room_names().contains(n) implies #[trigger] post.room_names().contains(n) by {
        let i = choose|i: int| 0 <= i < pre.room_names().len() && pre.room_names()[i] == n;
        assert(post.room_names()[i] == n);
    }
    if pre.has_room(name) {
        let i = pre.room_idx(name);
        assert(pre.room_names()[i] == name);
        assert(post.room_names()[i] == name);
    } else {
        assert(post.room_names()[post.room_names().len() - 1] == name);
    }
}

/// Disconnecting the same id twice is safe: the second step is a no-op.
pub proof fn lemma_disconnect_idempotent(
    s0: ChatServer,
    s1: ChatServer,
    s2: ChatServer,
    id: u64,
)
    requires
        disconnect_post(s0, s1, id),
        disconnect_post(s1, s2, id),
    ensures
        s2.sessions@ == s1.sessions@,
        s2.rooms@ == s1.rooms@,
        s2.visitor_count == s1.visitor_count,
{
    if s0.registered(id) {
        assert(!s1.registered(id));
    } else {
        assert(s1.sessions@ == s0.sessions@);
    }
}

} // verus!
