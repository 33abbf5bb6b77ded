//! The chat broker: who is connected, who is in which room, and who has to
//! be told what.
//!
//! The broker never talks to a session itself. Every operation returns the
//! lines it wants delivered as a list of [`Delivery`] values, in order, and
//! the caller hands each one to the recipient's handle.

use crate::server_lemmas::lemma_register_is_fresh;
use crate::text::decimal;
use crate::text::to_decimal;
use rand::rngs::ThreadRng;
use rand::Rng;
use std::collections::HashMap;
use std::sync::atomic::AtomicUsize;
use std::sync::atomic::Ordering;
use std::sync::Arc;
use vstd::prelude::*;
use vstd::string::*;

verus! {

broadcast use {vstd::std_specs::hash::group_hash_axioms, vstd::string::group_string_axioms};

/// A line of text from the broker to a session.
#[derive(Debug, PartialEq, Eq)]
pub struct Message(pub String);

impl View for Message {
    type V = Seq<char>;

    open spec fn view(&self) -> Seq<char> {
        self.0@
    }
}

/// A new session asks to be registered. `addr` is the handle through which
/// the session receives its lines.
pub struct Connect<H> {
    pub addr: H,
}

/// A session has gone away.
#[derive(Debug, PartialEq, Eq)]
pub struct Disconnect {
    pub id: usize,
}

/// A session moves to the room `name`.
#[derive(Debug, PartialEq, Eq)]
pub struct Join {
    /// The session that moves.
    pub id: usize,
    /// The room it moves to.
    pub name: String,
}

/// What a [`Join`] says, as plain values.
pub struct JoinView {
    pub id: usize,
    pub name: Seq<char>,
}

impl View for Join {
    type V = JoinView;

    open spec fn view(&self) -> JoinView {
        JoinView { id: self.id, name: self.name@ }
    }
}

/// A session says `msg` to the room `room`.
#[derive(Debug, PartialEq, Eq)]
pub struct ClientMessage {
    /// The session that speaks.
    pub id: usize,
    /// What it says.
    pub msg: String,
    /// The room it speaks to.
    pub room: String,
}

/// What a [`ClientMessage`] says, as plain values.
pub struct ClientMessageView {
    pub id: usize,
    pub msg: Seq<char>,
    pub room: Seq<char>,
}

impl View for ClientMessage {
    type V = ClientMessageView;

    open spec fn view(&self) -> ClientMessageView {
        ClientMessageView { id: self.id, msg: self.msg@, room: self.room@ }
    }
}

/// A request for the names of all rooms.
#[derive(Debug, PartialEq, Eq)]
pub struct ListRooms;

/// A line that the broker wants a session to receive.
#[derive(Debug, PartialEq, Eq)]
pub struct Delivery {
    /// The session that is to receive it.
    pub to: usize,
    /// The line.
    pub msg: Message,
}

/// A [`Delivery`] as plain values.
pub struct DeliveryView {
    pub to: usize,
    pub text: Seq<char>,
}

impl View for Delivery {
    type V = DeliveryView;

    open spec fn view(&self) -> DeliveryView {
        DeliveryView { to: self.to, text: self.msg@ }
    }
}

impl DeepView for Delivery {
    type V = DeliveryView;

    open spec fn deep_view(&self) -> DeliveryView {
        self@
    }
}

/// A room: its name and its members, oldest first.
pub struct RoomView {
    pub name: Seq<char>,
    pub members: Seq<usize>,
}

/// The broker as plain values: the handle of every registered session, and
/// the rooms in the order in which they were created.
pub struct ServerView<H> {
    pub sessions: Map<usize, H>,
    pub rooms: Seq<RoomView>,
}

/// Whether one of `rooms` is called `name`.
pub open spec fn has_room_named(rooms: Seq<RoomView>, name: Seq<char>) -> bool {
    exists|i: int| 0 <= i < rooms.len() && (#[trigger] rooms[i]).name == name
}

/// Where among `rooms` the one called `name` stands, if there is one.
pub open spec fn room_named(rooms: Seq<RoomView>, name: Seq<char>) -> int {
    choose|i: int| 0 <= i < rooms.len() && (#[trigger] rooms[i]).name == name
}

/// The name of a room.
pub open spec fn name_of() -> spec_fn(RoomView) -> Seq<char> {
    |room: RoomView| room.name
}

/// Whether a member is someone else than `id`.
pub open spec fn is_other(id: usize) -> spec_fn(usize) -> bool {
    |member: usize| member != id
}

/// Whether a room has `id` among its members.
pub open spec fn holding(id: usize) -> spec_fn(RoomView) -> bool {
    |room: RoomView| room.members.contains(id)
}

/// A room after `id` has left it: the other members stay, in their order.
pub open spec fn leaving(id: usize) -> spec_fn(RoomView) -> RoomView {
    |room: RoomView| RoomView { name: room.name, members: room.members.filter(is_other(id)) }
}

/// The line that counts the visitors.
pub open spec fn visitors_line(count: usize) -> Seq<char> {
    "Total visitors "@ + decimal(count as nat)
}

/// The `k`-th identifier tried for a candidate: the candidate itself, then
/// the numbers after it, starting again at 0 after the largest.
pub open spec fn probe(candidate: usize, k: int) -> usize {
    if candidate + k <= usize::MAX {
        (candidate + k) as usize
    } else {
        (candidate + k - usize::MAX - 1) as usize
    }
}

/// Whether `id` can be given to a new session: it is not 0 and not in use.
pub open spec fn is_free(used: Set<usize>, id: usize) -> bool {
    id != 0 && !used.contains(id)
}

/// Whether the `k`-th identifier tried for `candidate` is the first that
/// is free.
pub open spec fn first_free_at(used: Set<usize>, candidate: usize, k: int) -> bool {
    &&& 0 <= k <= usize::MAX
    &&& is_free(used, probe(candidate, k))
    &&& forall|j: int| 0 <= j < k ==> !is_free(used, #[trigger] probe(candidate, j))
}

/// The identifier for a new session, given a candidate: the candidate if it
/// is free, else the first free number after it, starting again at 0 after
/// the largest.
pub open spec fn fresh_id(used: Set<usize>, candidate: usize) -> usize {
    probe(candidate, choose|k: int| first_free_at(used, candidate, k))
}

/// If the first `n` identifiers tried are all in `taken`, then `taken` has
/// at least `n` elements.
pub proof fn lemma_probes_fill(taken: Set<usize>, candidate: usize, n: int)
    requires
        taken.finite(),
        0 <= n <= usize::MAX + 1,
        forall|j: int| 0 <= j < n ==> taken.contains(#[trigger] probe(candidate, j)),
    ensures
        n <= taken.len(),
    decreases n,
{
    if n > 0 {
        let last = probe(candidate, n - 1);
        let rest = taken.remove(last);
        assert forall|j: int| 0 <= j < n - 1 implies rest.contains(#[trigger] probe(candidate, j)) by {}
        lemma_probes_fill(rest, candidate, n - 1);
    }
}

/// As long as fewer than `usize::MAX` sessions are registered, trying the
/// identifiers one by one finds a free one: `fresh_id` is free, and it is
/// the candidate whenever the candidate is free.
pub proof fn lemma_fresh_id(used: Set<usize>, candidate: usize)
    requires
        used.finite(),
        used.len() < usize::MAX,
    ensures
        is_free(used, fresh_id(used, candidate)),
        is_free(used, candidate) ==> fresh_id(used, candidate) == candidate,
        exists|k: int| first_free_at(used, candidate, k),
{
    let k = lemma_first_free(used, candidate, 0);
    if is_free(used, candidate) {
        assert(probe(candidate, 0) == candidate);
    }
}

/// Searches from the `from`-th identifier on, given that none before it is
/// free.
proof fn lemma_first_free(used: Set<usize>, candidate: usize, from: int) -> (k: int)
    requires
        used.finite(),
        used.len() < usize::MAX,
        0 <= from <= usize::MAX,
        forall|j: int| 0 <= j < from ==> !is_free(used, #[trigger] probe(candidate, j)),
    ensures
        first_free_at(used, candidate, k),
    decreases usize::MAX - from,
{
    if is_free(used, probe(candidate, from)) {
        from
    } else {
        let taken = used.insert(0);
        assert forall|j: int| 0 <= j < from + 1 implies taken.contains(
            #[trigger] probe(candidate, j),
        ) by {}
        lemma_probes_fill(taken, candidate, from + 1);
        lemma_first_free(used, candidate, from + 1)
    }
}

impl<H> ServerView<H> {
    /// Every broker has a room "main", created first; no two rooms share a
    /// name and no room lists a member twice. No session has the
    /// identifier 0, which stands for "no session".
    pub open spec fn wf(self) -> bool {
        &&& self.sessions.dom().finite()
        &&& !self.sessions.contains_key(0)
        &&& self.rooms.len() > 0
        &&& self.rooms[0].name == "main"@
        &&& forall|i: int, j: int|
            0 <= i < j < self.rooms.len() ==> (#[trigger] self.rooms[i]).name != (
            #[trigger] self.rooms[j]).name
        &&& forall|i: int| 0 <= i < self.rooms.len() ==> (#[trigger] self.rooms[i]).members.no_duplicates()
    }

    /// Whether a session with the identifier `id` is registered.
    pub open spec fn registered(self, id: usize) -> bool {
        self.sessions.contains_key(id)
    }

    /// Whether there is a room called `name`.
    pub open spec fn has_room(self, name: Seq<char>) -> bool {
        has_room_named(self.rooms, name)
    }

    /// Where the room called `name` stands among the rooms, if there is one.
    pub open spec fn room_index(self, name: Seq<char>) -> int {
        room_named(self.rooms, name)
    }

    /// The members of the room called `name`, oldest first; nobody if there
    /// is no such room.
    pub open spec fn members(self, name: Seq<char>) -> Seq<usize> {
        if self.has_room(name) {
            self.rooms[self.room_index(name)].members
        } else {
            Seq::empty()
        }
    }

    /// Whether `id` is a member of the room called `name`.
    pub open spec fn is_member(self, id: usize, name: Seq<char>) -> bool {
        self.members(name).contains(id)
    }

    /// Whether `name` is the one room that `id` is a member of.
    pub open spec fn only_room(self, id: usize, name: Seq<char>) -> bool {
        &&& self.is_member(id, name)
        &&& forall|other: Seq<char>| other != name ==> !self.is_member(id, other)
    }

    /// Whether rooms and registry agree: every member of a room is
    /// registered, and every registered session is a member of exactly one
    /// room.
    pub open spec fn consistent(self) -> bool {
        &&& forall|id: usize, room: Seq<char>| #[trigger]
            self.is_member(id, room) ==> self.registered(id)
        &&& forall|id: usize| #[trigger]
            self.registered(id) ==> exists|room: Seq<char>| self.only_room(id, room)
    }

    /// The names of all rooms, in the order in which they were created.
    pub open spec fn room_names(self) -> Seq<Seq<char>> {
        self.rooms.map_values(name_of())
    }

    /// Whether a line sent on behalf of `skip` goes to `id`: it does unless
    /// `id` is `skip` itself or is not registered.
    pub open spec fn receives(self, skip: usize) -> spec_fn(usize) -> bool {
        |id: usize| id != skip && self.registered(id)
    }

    /// Who of `members` receives a line sent on behalf of `skip`, in their
    /// order.
    pub open spec fn recipients(self, members: Seq<usize>, skip: usize) -> Seq<usize> {
        members.filter(self.receives(skip))
    }

    /// The deliveries that carry `text` to `members` on behalf of `skip`.
    pub open spec fn notices_to(self, members: Seq<usize>, text: Seq<char>, skip: usize) -> Seq<
        DeliveryView,
    > {
        self.recipients(members, skip).map_values(carrying(text))
    }

    /// The deliveries that carry `text` to the room `room` on behalf of
    /// `skip`: one for each registered member but `skip`, oldest member
    /// first; none if there is no such room.
    pub open spec fn notices(self, room: Seq<char>, text: Seq<char>, skip: usize) -> Seq<
        DeliveryView,
    > {
        self.notices_to(self.members(room), text, skip)
    }

    /// The broker after `id` has left every room. The rooms stay, empty
    /// ones too.
    pub open spec fn without(self, id: usize) -> Self {
        ServerView { sessions: self.sessions, rooms: self.rooms.map_values(leaving(id)) }
    }

    /// The names of the rooms that have `id` among their members, in the
    /// order of the rooms.
    pub open spec fn vacated(self, id: usize) -> Seq<Seq<char>> {
        self.rooms.filter(holding(id)).map_values(name_of())
    }

    /// The notice that somebody left, for the room `room`.
    pub open spec fn farewell(self) -> spec_fn(Seq<char>) -> Seq<DeliveryView> {
        |room: Seq<char>| self.notices(room, "Someone disconnected"@, 0)
    }

    /// The notices that somebody left, for each of `rooms` in turn.
    pub open spec fn farewells(self, rooms: Seq<Seq<char>>) -> Seq<DeliveryView> {
        rooms.flat_map(self.farewell())
    }

    /// The broker after `id` has entered the room `name`: it becomes the
    /// youngest member unless it is a member already. A room that does not
    /// exist is created, after all others.
    pub open spec fn with_member(self, name: Seq<char>, id: usize) -> Self {
        if self.has_room(name) {
            let i = self.room_index(name);
            let members = self.rooms[i].members;
            if members.contains(id) {
                self
            } else {
                ServerView {
                    sessions: self.sessions,
                    rooms: self.rooms.update(i, RoomView { name, members: members.push(id) }),
                }
            }
        } else {
            ServerView {
                sessions: self.sessions,
                rooms: self.rooms.push(RoomView { name, members: seq![id] }),
            }
        }
    }

    /// What `Join` does: `id` leaves every room and enters `name`. The
    /// members that stay behind in the rooms it was in are told, then
    /// the other members of `name`.
    pub open spec fn join(self, id: usize, name: Seq<char>) -> (Self, Seq<DeliveryView>) {
        let left = self.without(id);
        let entered = left.with_member(name, id);
        (
            entered,
            left.farewells(self.vacated(id)) + entered.notices(name, "Someone connected"@, id),
        )
    }

    /// What `Disconnect` does: `id` is no longer registered and leaves every
    /// room; the members that stay behind in the rooms it was in are told.
    pub open spec fn disconnect(self, id: usize) -> (Self, Seq<DeliveryView>) {
        let gone = ServerView { sessions: self.sessions.remove(id), rooms: self.without(id).rooms };
        (gone, gone.farewells(self.vacated(id)))
    }

    /// What `Connect` does, given the candidate for the identifier and the
    /// number of earlier visitors: the room "main" is told "Someone
    /// joined"; the session is registered under a fresh identifier and
    /// enters "main"; and "main", the newcomer included, is told the
    /// number of earlier visitors.
    pub open spec fn register(self, addr: H, candidate: usize, count: usize) -> (
        Self,
        usize,
        Seq<DeliveryView>,
    ) {
        let id = fresh_id(self.sessions.dom(), candidate);
        let after = ServerView {
            sessions: self.sessions.insert(id, addr),
            rooms: self.with_member("main"@, id).rooms,
        };
        (
            after,
            id,
            self.notices("main"@, "Someone joined"@, 0) + after.notices(
                "main"@,
                visitors_line(count),
                0,
            ),
        )
    }
}

/// A room is found by its name: there is no other of that name.
pub proof fn lemma_room_index<H>(v: ServerView<H>, name: Seq<char>, i: int)
    requires
        v.wf(),
        0 <= i < v.rooms.len(),
        v.rooms[i].name == name,
    ensures
        v.has_room(name),
        v.room_index(name) == i,
        v.members(name) == v.rooms[i].members,
{
}

/// Filtering changes nothing where every element passes.
pub proof fn lemma_filter_all<A>(s: Seq<A>, keep: spec_fn(A) -> bool)
    requires
        forall|i: int| 0 <= i < s.len() ==> keep(#[trigger] s[i]),
    ensures
        s.filter(keep) == s,
    decreases s.len(),
{
    reveal(Seq::filter);
    if s.len() > 0 {
        let front = s.drop_last();
        assert forall|i: int| 0 <= i < front.len() implies keep(#[trigger] front[i]) by {}
        lemma_filter_all(front, keep);
    }
}

/// Filtering leaves nothing where no element passes.
pub proof fn lemma_filter_none<A>(s: Seq<A>, keep: spec_fn(A) -> bool)
    requires
        forall|i: int| 0 <= i < s.len() ==> !keep(#[trigger] s[i]),
    ensures
        s.filter(keep) == Seq::<A>::empty(),
    decreases s.len(),
{
    reveal(Seq::filter);
    if s.len() > 0 {
        let front = s.drop_last();
        assert forall|i: int| 0 <= i < front.len() implies !keep(#[trigger] front[i]) by {}
        lemma_filter_none(front, keep);
    }
}

/// Leaving out members does not make a member appear twice.
pub proof fn lemma_filter_keeps_distinct(members: Seq<usize>, keep: spec_fn(usize) -> bool)
    requires
        members.no_duplicates(),
    ensures
        members.filter(keep).no_duplicates(),
        forall|id: usize| members.filter(keep).contains(id) <==> members.contains(id) && keep(id),
    decreases members.len(),
{
    reveal(Seq::filter);
    if members.len() > 0 {
        let front = members.drop_last();
        let last = members.last();
        lemma_filter_keeps_distinct(front, keep);
        assert forall|id: usize| members.contains(id) <==> front.contains(id) || id == last by {
            if members.contains(id) {
                let i = choose|i: int| 0 <= i < members.len() && members[i] == id;
                if i < members.len() - 1 {
                    assert(front[i] == id);
                }
            }
            if front.contains(id) {
                let i = choose|i: int| 0 <= i < front.len() && front[i] == id;
            }
        }
        assert(!front.contains(last)) by {
            if front.contains(last) {
                let i = choose|i: int| 0 <= i < front.len() && front[i] == last;
            }
        }
        let kept = front.filter(keep);
        if keep(last) {
            assert forall|id: usize| kept.push(last).contains(id) <==> kept.contains(id) || id
                == last by {
                if kept.push(last).contains(id) {
                    let i = choose|i: int| 0 <= i < kept.push(last).len() && kept.push(last)[i] == id;
                }
                if kept.contains(id) {
                    let i = choose|i: int| 0 <= i < kept.len() && kept[i] == id;
                    assert(kept.push(last)[i] == id);
                }
            }
        }
    }
}

/// After `id` has left every room the broker is still in order, `id` is in
/// no room, and everybody else is where they were.
pub proof fn lemma_without<H>(v: ServerView<H>, id: usize)
    requires
        v.wf(),
    ensures
        v.without(id).wf(),
        v.without(id).room_names() == v.room_names(),
        forall|name: Seq<char>| !v.without(id).is_member(id, name),
        forall|name: Seq<char>, other: usize|
            other != id ==> v.without(id).is_member(other, name) == v.is_member(other, name),
{
    let w = v.without(id);
    assert forall|i: int| 0 <= i < w.rooms.len() implies (#[trigger] w.rooms[i]).members.no_duplicates()
        && w.rooms[i].name == v.rooms[i].name && (forall|m: usize|
        w.rooms[i].members.contains(m) <==> v.rooms[i].members.contains(m) && m != id) by {
        lemma_filter_keeps_distinct(v.rooms[i].members, is_other(id));
    }
    assert forall|name: Seq<char>| w.has_room(name) == v.has_room(name) by {
        if w.has_room(name) {
            let i = w.room_index(name);
        }
        if v.has_room(name) {
            let i = v.room_index(name);
            assert(w.rooms[i].name == name);
        }
    }
    assert forall|name: Seq<char>, other: usize|
        w.is_member(other, name) == (other != id && v.is_member(other, name)) by {
        if v.has_room(name) {
            let i = v.room_index(name);
            lemma_room_index(w, name, i);
        }
    }
}

/// After `id` has entered the room `name` the broker is still in order,
/// `id` is a member of that room, and nothing else has changed: the room
/// is there, the rooms that were are as they were, and so is who is in
/// which.
pub proof fn lemma_with_member<H>(v: ServerView<H>, name: Seq<char>, id: usize)
    requires
        v.wf(),
    ensures
        v.with_member(name, id).wf(),
        v.with_member(name, id).is_member(id, name),
        forall|room: Seq<char>, other: usize|
            v.with_member(name, id).is_member(other, room) == (v.is_member(other, room) || (room
                == name && other == id)),
        forall|room: Seq<char>| v.with_member(name, id).has_room(room) == (v.has_room(room) || room == name),
{
    let w = v.with_member(name, id);
    if v.has_room(name) {
        let i = v.room_index(name);
        let members = v.rooms[i].members;
        if !members.contains(id) {
            let grown = members.push(id);
            assert(grown.no_duplicates()) by {
                assert forall|a: int, b: int| 0 <= a < grown.len() && 0 <= b < grown.len() && a
                    != b implies grown[a] != grown[b] by {}
            }
            assert forall|m: usize| grown.contains(m) <==> members.contains(m) || m == id by {
                if grown.contains(m) {
                    let k = choose|k: int| 0 <= k < grown.len() && grown[k] == m;
                }
                if members.contains(m) {
                    let k = choose|k: int| 0 <= k < members.len() && members[k] == m;
                    assert(grown[k] == m);
                }
                if m == id {
                    assert(grown[members.len() as int] == m);
                }
            }
        }
        assert forall|room: Seq<char>| w.has_room(room) == v.has_room(room) by {
            if w.has_room(room) {
                let j = w.room_index(room);
            }
            if v.has_room(room) {
                let j = v.room_index(room);
                assert(w.rooms[j].name == room);
            }
        }
        assert forall|room: Seq<char>, other: usize|
            w.is_member(other, room) == (v.is_member(other, room) || (room == name && other
                == id)) by {
            if v.has_room(room) {
                let j = v.room_index(room);
                lemma_room_index(w, room, j);
                lemma_room_index(v, name, i);
            }
        }
    } else {
        let n = v.rooms.len() as int;
        let fresh = RoomView { name, members: seq![id] };
        assert(w.rooms[n] == fresh);
        assert(fresh.members[0] == id);
        assert forall|a: int, b: int| 0 <= a < b < w.rooms.len() implies (#[trigger] w.rooms[a]).name
            != (#[trigger] w.rooms[b]).name by {}
        assert forall|room: Seq<char>| w.has_room(room) == (v.has_room(room) || room == name) by {
            if w.has_room(room) {
                let j = w.room_index(room);
            }
            if v.has_room(room) {
                let j = v.room_index(room);
                assert(w.rooms[j].name == room);
            }
        }
        assert forall|room: Seq<char>, other: usize|
            w.is_member(other, room) == (v.is_member(other, room) || (room == name && other
                == id)) by {
            if v.has_room(room) {
                let j = v.room_index(room);
                lemma_room_index(w, room, j);
            } else if room == name {
                lemma_room_index(w, room, n);
            }
        }
    }
}

/// The delivery of `text` to a given session.
pub open spec fn carrying(text: Seq<char>) -> spec_fn(usize) -> DeliveryView {
    |to: usize| DeliveryView { to, text }
}

/// Nobody receives a line that is sent to nobody.
pub proof fn lemma_notices_to_nobody<H>(v: ServerView<H>, text: Seq<char>, skip: usize)
    ensures
        v.notices_to(Seq::empty(), text, skip) == Seq::<DeliveryView>::empty(),
{
    reveal(Seq::filter);
}

/// One more member is one more delivery, at the end, if that member
/// receives the line, and none if not.
pub proof fn lemma_notices_to_push<H>(
    v: ServerView<H>,
    members: Seq<usize>,
    id: usize,
    text: Seq<char>,
    skip: usize,
)
    ensures
        v.notices_to(members.push(id), text, skip) == if id != skip && v.registered(id) {
            v.notices_to(members, text, skip).push(DeliveryView { to: id, text })
        } else {
            v.notices_to(members, text, skip)
        },
{
    members.lemma_filter_push(id, v.receives(skip));
}

/// A room as the broker keeps it.
struct Room {
    name: String,
    members: Vec<usize>,
}

impl View for Room {
    type V = RoomView;

    closed spec fn view(&self) -> RoomView {
        RoomView { name: self.name@, members: self.members@ }
    }
}

impl DeepView for Room {
    type V = RoomView;

    closed spec fn deep_view(&self) -> RoomView {
        self@
    }
}

/// The type `rand::rngs::ThreadRng`, declared so that the broker can hold
/// one. It is opaque: no proof sees inside it.
#[verifier::external_type_specification]
#[verifier::external_body]
pub struct ExThreadRng(ThreadRng);

/// `rand::thread_rng` returns a handle to the random generator of the
/// calling thread. Taken on trust, and nothing is claimed of the handle.
/// (It panics where the operating system cannot seed the generator.)
pub assume_specification[ rand::thread_rng ]() -> (rng: ThreadRng);

/// Draws a `usize` from the generator with `rand::Rng::gen`. Taken on
/// trust, and nothing is claimed of the number: any value may come back,
/// and two draws may give the same.
#[verifier::external_body]
fn draw(rng: &mut ThreadRng) -> (candidate: usize) {
    rng.gen::<usize>()
}

/// The chat broker. `H` is the handle of a session: whatever the caller
/// needs to get a line to it. The broker stores handles and gives them
/// back; it never looks inside.
pub struct ChatServer<H> {
    sessions: HashMap<usize, H>,
    rooms: Vec<Room>,
    rng: ThreadRng,
    visitor_count: Arc<AtomicUsize>,
}

impl<H> View for ChatServer<H> {
    type V = ServerView<H>;

    closed spec fn view(&self) -> ServerView<H> {
        ServerView { sessions: self.sessions@, rooms: self.rooms.deep_view() }
    }
}

impl<H> ChatServer<H> {
    /// A broker without sessions, with the empty room "main". Every
    /// registration adds one to `visitor_count`.
    pub fn new(visitor_count: Arc<AtomicUsize>) -> (server: Self)
        ensures
            server@.wf(),
            server@.sessions == Map::<usize, H>::empty(),
            server@.rooms == seq![RoomView { name: "main"@, members: Seq::empty() }],
            server@.consistent(),
    {
        let mut rooms: Vec<Room> = Vec::new();
        rooms.push(Room { name: "main".to_owned(), members: Vec::new() });
        let server = ChatServer {
            sessions: HashMap::new(),
            rooms,
            rng: rand::thread_rng(),
            visitor_count,
        };
        assert forall|id: usize, room: Seq<char>| !server@.is_member(id, room) by {}
        server
    }

    /// The handle of the session `id`, if it is registered.
    pub fn recipient(&self, id: usize) -> (addr: Option<&H>)
        ensures
            addr is Some == self@.registered(id),
            addr matches Some(h) ==> *h == self@.sessions[id],
    {
        self.sessions.get(&id)
    }

    /// How many sessions are registered.
    pub fn len(&self) -> (n: usize)
        ensures
            n == self@.sessions.len(),
    {
        self.sessions.len()
    }

    /// Where the room called `name` stands among the rooms.
    fn find_room(&self, name: &String) -> (found: Option<usize>)
        requires
            self@.wf(),
        ensures
            found is Some == self@.has_room(name@),
            found matches Some(i) ==> i == self@.room_index(name@) && i < self.rooms.len(),
    {
        let n = self.rooms.len();
        let mut i: usize = 0;
        while i < n
            invariant
                self@.wf(),
                n == self.rooms.len(),
                i <= n,
                forall|j: int| 0 <= j < i ==> (#[trigger] self@.rooms[j]).name != name@,
            decreases n - i,
        {
            if self.rooms[i].name == *name {
                proof {
                    lemma_room_index(self@, name@, i as int);
                }
                return Some(i);
            }
            i += 1;
        }
        None
    }

    /// The deliveries that carry `message` to every registered member of
    /// the room `room` but `skip_id`. There are none if there is no such
    /// room.
    fn send_message(&self, room: &String, message: &str, skip_id: usize) -> (out: Vec<Delivery>)
        requires
            self@.wf(),
        ensures
            out.deep_view() == self@.notices(room@, message@, skip_id),
    {
        let mut out: Vec<Delivery> = Vec::new();
        if let Some(r) = self.find_room(room) {
            let members = &self.rooms[r].members;
            let n = members.len();
            let mut i: usize = 0;
            proof {
                lemma_notices_to_nobody(self@, message@, skip_id);
            }
            while i < n
                invariant
                    n == members.len(),
                    i <= n,
                    out.deep_view() == self@.notices_to(
                        members@.take(i as int),
                        message@,
                        skip_id,
                    ),
                decreases n - i,
            {
                let id = members[i];
                proof {
                    assert(members@.take(i + 1) =~= members@.take(i as int).push(id));
                    lemma_notices_to_push(self@, members@.take(i as int), id, message@, skip_id);
                }
                if id != skip_id && self.sessions.contains_key(&id) {
                    out.push(Delivery { to: id, msg: Message(message.to_owned()) });
                }
                i += 1;
            }
            assert(members@.take(n as int) =~= members@);
        } else {
            proof {
                lemma_notices_to_nobody(self@, message@, skip_id);
            }
        }
        out
    }

    /// The names of all rooms, in the order in which they were created.
    pub fn list_rooms(&self, _msg: ListRooms) -> (names: Vec<String>)
        requires
            self@.wf(),
        ensures
            names.deep_view() == self@.room_names(),
    {
        let mut names: Vec<String> = Vec::new();
        let n = self.rooms.len();
        let mut i: usize = 0;
        while i < n
            invariant
                n == self.rooms.len(),
                i <= n,
                names.deep_view() == self@.room_names().take(i as int),
            decreases n - i,
        {
            let name = self.rooms[i].name.clone();
            let ghost done = names.deep_view();
            names.push(name);
            i += 1;
            assert(names.deep_view() =~= done.push(self@.room_names()[i - 1]));
        }
        names
    }

    /// A session says something to a room: the line goes to every
    /// registered member of the room but the speaker. A room that does not
    /// exist has no members.
    pub fn client_message(&self, msg: ClientMessage) -> (out: Vec<Delivery>)
        requires
            self@.wf(),
        ensures
            out.deep_view() == self@.notices(msg.room@, msg.msg@, msg.id),
    {
        self.send_message(&msg.room, msg.msg.as_str(), msg.id)
    }
}

/// Whether `id` is one of `members`.
fn is_among(members: &Vec<usize>, id: usize) -> (found: bool)
    ensures
        found == members@.contains(id),
{
    let n = members.len();
    let mut i: usize = 0;
    while i < n
        invariant
            n == members.len(),
            i <= n,
            forall|j: int| 0 <= j < i ==> members@[j] != id,
        decreases n - i,
    {
        if members[i] == id {
            return true;
        }
        i += 1;
    }
    false
}

/// `members` without `id`, and whether `id` was among them.
fn others(members: &Vec<usize>, id: usize) -> (out: (Vec<usize>, bool))
    ensures
        out.0@ == members@.filter(is_other(id)),
        out.1 == members@.contains(id),
        !out.1 ==> out.0@ == members@,
{
    let mut kept: Vec<usize> = Vec::new();
    let mut found = false;
    let n = members.len();
    let mut i: usize = 0;
    proof {
        reveal(Seq::filter);
    }
    while i < n
        invariant
            n == members.len(),
            i <= n,
            kept@ == members@.take(i as int).filter(is_other(id)),
            found == members@.take(i as int).contains(id),
        decreases n - i,
    {
        let member = members[i];
        proof {
            let seen = members@.take(i as int);
            assert(members@.take(i + 1) =~= seen.push(member));
            seen.lemma_filter_push(member, is_other(id));
            assert(seen.push(member).contains(id) <==> seen.contains(id) || member == id) by {
                if member == id {
                    assert(seen.push(member)[seen.len() as int] == id);
                }
            }
        }
        if member != id {
            kept.push(member);
        } else {
            found = true;
        }
        i += 1;
    }
    assert(members@.take(n as int) =~= members@);
    proof {
        if !found {
            assert forall|j: int| 0 <= j < members@.len() implies is_other(id)(
                #[trigger] members@[j],
            ) by {
                assert(members@.contains(members@[j]));
            }
            lemma_filter_all(members@, is_other(id));
        }
    }
    (kept, found)
}

impl<H> ChatServer<H> {
    /// Takes `id` out of every room and returns the names of the rooms it
    /// was in.
    fn leave(&mut self, id: usize) -> (vacated: Vec<String>)
        requires
            old(self)@.wf(),
        ensures
            final(self)@ == old(self)@.without(id),
            final(self)@.wf(),
            vacated.deep_view() == old(self)@.vacated(id),
    {
        let mut vacated: Vec<String> = Vec::new();
        let n = self.rooms.len();
        let mut r: usize = 0;
        proof {
            reveal(Seq::filter);
        }
        while r < n
            invariant
                n == self.rooms.len(),
                n == old(self)@.rooms.len(),
                r <= n,
                self.sessions == old(self).sessions,
                forall|j: int| 0 <= j < r ==> (#[trigger] self@.rooms[j]) == leaving(id)(old(self)@.rooms[j]),
                forall|j: int| r <= j < n ==> (#[trigger] self@.rooms[j]) == old(self)@.rooms[j],
                vacated.deep_view() == old(self)@.rooms.take(r as int).filter(
                    holding(id),
                ).map_values(name_of()),
            decreases n - r,
        {
            let ghost before = self@.rooms;
            let ghost room = old(self)@.rooms[r as int];
            let ghost seen = old(self)@.rooms.take(r as int);
            assert(self@.rooms[r as int] == room);
            let (kept, found) = others(&self.rooms[r].members, id);
            if found {
                let name = self.rooms[r].name.clone();
                vacated.push(name);
                self.rooms[r].members = kept;
            }
            proof {
                assert forall|j: int| 0 <= j < r implies (#[trigger] self@.rooms[j]) == leaving(id)(
                    old(self)@.rooms[j],
                ) by {
                    assert(self@.rooms[j] == before[j]);
                }
                assert forall|j: int| r < j < n implies (#[trigger] self@.rooms[j]) == old(
                    self,
                )@.rooms[j] by {
                    assert(self@.rooms[j] == before[j]);
                }
                assert(old(self)@.rooms.take(r + 1) =~= seen.push(room));
                seen.lemma_filter_push(room, holding(id));
                if found {
                    seen.filter(holding(id)).lemma_push_map_commute(name_of(), room);
                }
            }
            r += 1;
        }
        proof {
            assert(old(self)@.rooms.take(n as int) =~= old(self)@.rooms);
            assert(self@.rooms =~= old(self)@.without(id).rooms);
            lemma_without(old(self)@, id);
        }
        vacated
    }

    /// Makes `id` a member of the room `name`, creating the room if there is
    /// none of that name.
    fn enter(&mut self, name: String, id: usize)
        requires
            old(self)@.wf(),
        ensures
            final(self)@ == old(self)@.with_member(name@, id),
            final(self)@.wf(),
    {
        let ghost before = self@;
        match self.find_room(&name) {
            Some(r) => {
                if !is_among(&self.rooms[r].members, id) {
                    self.rooms[r].members.push(id);
                    assert(self@.rooms =~= before.rooms.update(
                        r as int,
                        RoomView { name: name@, members: before.rooms[r as int].members.push(id) },
                    ));
                }
            },
            None => {
                let mut members: Vec<usize> = Vec::new();
                members.push(id);
                self.rooms.push(Room { name, members });
                assert(self@.rooms =~= before.rooms.push(
                    RoomView { name: name@, members: seq![id] },
                ));
            },
        }
        proof {
            lemma_with_member(before, name@, id);
        }
    }

    /// The notices that somebody left, for each of `rooms` in turn.
    fn farewell(&self, rooms: &Vec<String>) -> (out: Vec<Delivery>)
        requires
            self@.wf(),
        ensures
            out.deep_view() == self@.farewells(rooms.deep_view()),
    {
        let mut out: Vec<Delivery> = Vec::new();
        let n = rooms.len();
        let mut i: usize = 0;
        let ghost names = rooms.deep_view();
        while i < n
            invariant
                self@.wf(),
                n == rooms.len(),
                i <= n,
                names == rooms.deep_view(),
                out.deep_view() == names.take(i as int).flat_map(self@.farewell()),
            decreases n - i,
        {
            let mut more = self.send_message(&rooms[i], "Someone disconnected", 0);
            out.append(&mut more);
            proof {
                assert(names.take(i + 1) =~= names.take(i as int).push(names[i as int]));
                names.take(i as int).lemma_flat_map_push(self@.farewell(), names[i as int]);
            }
            i += 1;
        }
        assert(names.take(n as int) =~= names);
        out
    }

    /// A session moves to another room. It leaves whatever rooms it is in,
    /// and those who stay behind there are told "Someone disconnected". It
    /// becomes a member of the room `msg.name`, which is created if need
    /// be, and the other members of that room are told "Someone connected".
    ///
    /// The session need not be registered. One that is not becomes a member
    /// all the same, but no line is ever delivered to it.
    pub fn join(&mut self, msg: Join) -> (out: Vec<Delivery>)
        requires
            old(self)@.wf(),
        ensures
            final(self)@.wf(),
            final(self)@ == old(self)@.join(msg.id, msg.name@).0,
            out.deep_view() == old(self)@.join(msg.id, msg.name@).1,
    {
        let Join { id, name } = msg;
        let vacated = self.leave(id);
        let mut out = self.farewell(&vacated);
        self.enter(name.clone(), id);
        let mut more = self.send_message(&name, "Someone connected", id);
        out.append(&mut more);
        out
    }

    /// A session has gone away. It is no longer registered and no longer a
    /// member of any room; those who stay behind in the rooms it was in
    /// are told "Someone disconnected". For a session that is neither
    /// registered nor in a room this changes nothing and tells nobody.
    pub fn disconnect(&mut self, msg: Disconnect) -> (out: Vec<Delivery>)
        requires
            old(self)@.wf(),
        ensures
            final(self)@.wf(),
            final(self)@ == old(self)@.disconnect(msg.id).0,
            out.deep_view() == old(self)@.disconnect(msg.id).1,
    {
        self.sessions.remove(&msg.id);
        let vacated = self.leave(msg.id);
        self.farewell(&vacated)
    }
}

impl<H> ChatServer<H> {
    /// The identifier for a new session, given a candidate.
    fn allocate(&self, candidate: usize) -> (id: usize)
        requires
            self@.wf(),
            self@.sessions.len() < usize::MAX,
        ensures
            id == fresh_id(self@.sessions.dom(), candidate),
            is_free(self@.sessions.dom(), id),
    {
        let ghost used = self@.sessions.dom();
        let ghost mut k: int = 0;
        let mut id = candidate;
        while id == 0 || self.sessions.contains_key(&id)
            invariant
                used == self@.sessions.dom(),
                used.finite(),
                used.len() < usize::MAX,
                0 <= k <= usize::MAX,
                id == probe(candidate, k),
                forall|j: int| 0 <= j < k ==> !is_free(used, #[trigger] probe(candidate, j)),
            decreases usize::MAX - k,
        {
            proof {
                let taken = used.insert(0);
                assert forall|j: int| 0 <= j < k + 1 implies taken.contains(
                    #[trigger] probe(candidate, j),
                ) by {}
                lemma_probes_fill(taken, candidate, k + 1);
                k = k + 1;
            }
            id = if id == usize::MAX {
                0
            } else {
                id + 1
            };
        }
        proof {
            assert(first_free_at(used, candidate, k));
        }
        id
    }

    /// Registers a session, given the candidate for its identifier and the
    /// number of earlier visitors.
    ///
    /// The members of "main" are told "Someone joined". The session gets
    /// the candidate as its identifier if that is free, else the next free
    /// number, and becomes a member of "main". Then the members of "main",
    /// the newcomer among them, are told "Total visitors" and `count`.
    /// Returns the identifier and the deliveries.
    pub fn register(&mut self, addr: H, candidate: usize, count: usize) -> (out: (
        usize,
        Vec<Delivery>,
    ))
        requires
            old(self)@.wf(),
            old(self)@.sessions.len() < usize::MAX,
        ensures
            final(self)@.wf(),
            final(self)@ == old(self)@.register(addr, candidate, count).0,
            out.0 == old(self)@.register(addr, candidate, count).1,
            out.1.deep_view() == old(self)@.register(addr, candidate, count).2,
            out.0 != 0,
            !old(self)@.registered(out.0),
    {
        let main = "main".to_owned();
        let mut out = self.send_message(&main, "Someone joined", 0);
        let id = self.allocate(candidate);
        self.sessions.insert(id, addr);
        self.enter(main.clone(), id);
        let mut line = "Total visitors ".to_owned();
        line.append(to_decimal(count).as_str());
        let mut more = self.send_message(&main, line.as_str(), 0);
        out.append(&mut more);
        (id, out)
    }

    /// A new session is registered: see [`ChatServer::register`]. The
    /// candidate for the identifier is drawn at random, and the number of
    /// earlier visitors is what the visitor counter held before this call
    /// added one to it.
    pub fn connect(&mut self, msg: Connect<H>) -> (out: (usize, Vec<Delivery>))
        requires
            old(self)@.wf(),
            old(self)@.sessions.len() < usize::MAX,
        ensures
            final(self)@.wf(),
            exists|candidate: usize, count: usize| #[trigger]
                old(self)@.register(msg.addr, candidate, count) == (
                    final(self)@,
                    out.0,
                    out.1.deep_view(),
                ),
            out.0 != 0,
            !old(self)@.registered(out.0),
            final(self)@.sessions == old(self)@.sessions.insert(out.0, msg.addr),
            final(self)@.is_member(out.0, "main"@),
    {
        let candidate = draw(&mut self.rng);
        let count = self.visitor_count.fetch_add(1, Ordering::SeqCst);
        proof {
            lemma_register_is_fresh(self@, msg.addr, candidate, count);
        }
        self.register(msg.addr, candidate, count)
    }
}

} // verus!
