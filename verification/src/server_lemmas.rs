//! What holds of the broker whatever is asked of it. Each statement is
//! about the transitions that the operations of [`ChatServer`] are
//! specified by, so it holds of every run of the broker.
//!
//! [`ChatServer`]: crate::server::ChatServer

use crate::server::fresh_id;
use crate::server::holding;
use crate::server::is_free;
use crate::server::is_other;
use crate::server::lemma_filter_all;
use crate::server::lemma_filter_keeps_distinct;
use crate::server::lemma_filter_none;
use crate::server::lemma_fresh_id;
use crate::server::lemma_room_index;
use crate::server::lemma_with_member;
use crate::server::lemma_without;
use crate::server::DeliveryView;
use crate::server::ServerView;
use vstd::prelude::*;

verus! {

/// The room "main" is there from the start and stays: it is the first of
/// the rooms of every broker that is in order, whoever is or is not in it.
pub proof fn lemma_main_room_persists<H>(v: ServerView<H>)
    requires
        v.wf(),
    ensures
        v.has_room("main"@),
        v.room_names().len() > 0,
        v.room_names()[0] == "main"@,
        v.room_names().contains("main"@),
{
}

/// No operation takes a room away: after a join the rooms are those that
/// were, and the room joined; after a disconnect or a registration they
/// are those that were.
pub proof fn lemma_rooms_stay<H>(
    v: ServerView<H>,
    id: usize,
    name: Seq<char>,
    addr: H,
    candidate: usize,
    count: usize,
)
    requires
        v.wf(),
    ensures
        v.disconnect(id).0.room_names() == v.room_names(),
        v.register(addr, candidate, count).0.room_names() == v.room_names(),
        v.join(id, name).0.room_names() == if v.has_room(name) {
            v.room_names()
        } else {
            v.room_names().push(name)
        },
{
    lemma_without(v, id);
    let left = v.without(id);
    assert(left.has_room(name) == v.has_room(name)) by {
        if left.has_room(name) {
            let i = left.room_index(name);
        }
        if v.has_room(name) {
            let i = v.room_index(name);
            assert(left.rooms[i].name == name);
        }
    }
    lemma_main_room_persists(v);
}

/// A line sent to a room on behalf of `skip` never comes back to `skip`.
/// It goes, unchanged, to registered members of the room only, and to each
/// of those but `skip`.
pub proof fn lemma_never_echoed<H>(v: ServerView<H>, room: Seq<char>, text: Seq<char>, skip: usize)
    requires
        v.wf(),
    ensures
        forall|i: int|
            0 <= i < v.notices(room, text, skip).len() ==> {
                let d = #[trigger] v.notices(room, text, skip)[i];
                &&& d.to != skip
                &&& d.text == text
                &&& v.registered(d.to)
                &&& v.is_member(d.to, room)
            },
        forall|id: usize|
            id != skip && v.registered(id) && v.is_member(id, room) ==> v.notices(
                room,
                text,
                skip,
            ).contains(DeliveryView { to: id, text }),
        v.notices(room, text, skip).no_duplicates(),
{
    let members = v.members(room);
    let keep = v.receives(skip);
    let to = v.recipients(members, skip);
    let out = v.notices(room, text, skip);
    assert(members.no_duplicates());
    lemma_filter_keeps_distinct(members, keep);
    assert forall|i: int| 0 <= i < out.len() implies {
        let d = #[trigger] out[i];
        &&& d.to != skip
        &&& d.text == text
        &&& v.registered(d.to)
        &&& v.is_member(d.to, room)
    } by {}
    assert forall|id: usize|
        id != skip && v.registered(id) && v.is_member(id, room) implies out.contains(
        DeliveryView { to: id, text },
    ) by {
        let i = choose|i: int| 0 <= i < to.len() && to[i] == id;
        assert(out[i] == DeliveryView { to: id, text });
    }
    assert forall|i: int, j: int| 0 <= i < out.len() && 0 <= j < out.len() && i != j implies out[i]
        != out[j] by {}
}

/// After a join the session is a member of the room it asked for and of no
/// other, and everybody else is where they were. Nobody is registered or
/// unregistered by it.
pub proof fn lemma_join_is_exclusive<H>(v: ServerView<H>, id: usize, name: Seq<char>)
    requires
        v.wf(),
    ensures
        v.join(id, name).0.wf(),
        v.join(id, name).0.sessions == v.sessions,
        v.join(id, name).0.has_room(name),
        v.join(id, name).0.is_member(id, name),
        forall|other: Seq<char>| other != name ==> !v.join(id, name).0.is_member(id, other),
        forall|room: Seq<char>, other: usize|
            other != id ==> v.join(id, name).0.is_member(other, room) == v.is_member(other, room),
{
    lemma_without(v, id);
    lemma_with_member(v.without(id), name, id);
}

/// After a disconnect the session is not registered and in no room, and
/// everybody else is as they were. A second disconnect of the same session
/// changes nothing and tells nobody.
pub proof fn lemma_disconnect_is_idempotent<H>(v: ServerView<H>, id: usize)
    requires
        v.wf(),
    ensures
        v.disconnect(id).0.wf(),
        !v.disconnect(id).0.registered(id),
        forall|room: Seq<char>| !v.disconnect(id).0.is_member(id, room),
        forall|other: usize|
            other != id ==> v.disconnect(id).0.registered(other) == v.registered(other),
        forall|room: Seq<char>, other: usize|
            other != id ==> v.disconnect(id).0.is_member(other, room) == v.is_member(other, room),
        v.disconnect(id).0.disconnect(id) == (v.disconnect(id).0, Seq::<DeliveryView>::empty()),
{
    lemma_without(v, id);
    let gone = v.disconnect(id).0;
    lemma_gone_stays_gone(gone, id);
}

/// Where a session is not registered and in no room, a disconnect changes
/// nothing and tells nobody.
pub proof fn lemma_gone_stays_gone<H>(v: ServerView<H>, id: usize)
    requires
        v.wf(),
        !v.registered(id),
        forall|room: Seq<char>| !v.is_member(id, room),
    ensures
        v.disconnect(id) == (v, Seq::<DeliveryView>::empty()),
{
    assert forall|i: int| 0 <= i < v.rooms.len() implies !holding(id)(#[trigger] v.rooms[i]) by {
        lemma_room_index(v, v.rooms[i].name, i);
        assert(!v.is_member(id, v.rooms[i].name));
    }
    lemma_filter_none(v.rooms, holding(id));
    assert(v.sessions.remove(id) =~= v.sessions);
    assert forall|i: int| 0 <= i < v.rooms.len() implies (#[trigger] v.without(id).rooms[i])
        == v.rooms[i] by {
        let members = v.rooms[i].members;
        assert forall|k: int| 0 <= k < members.len() implies is_other(id)(
            #[trigger] members[k],
        ) by {}
        lemma_filter_all(members, is_other(id));
    }
    assert(v.without(id).rooms =~= v.rooms);
}

/// A registration hands out an identifier that is not 0 and was not in
/// use, whatever the candidate; it is the candidate if that was free. The
/// new session is registered with its handle and becomes a member of
/// "main"; nothing else changes.
pub proof fn lemma_register_is_fresh<H>(v: ServerView<H>, addr: H, candidate: usize, count: usize)
    requires
        v.wf(),
        v.sessions.len() < usize::MAX,
    ensures
        v.register(addr, candidate, count).0.wf(),
        v.register(addr, candidate, count).1 != 0,
        !v.registered(v.register(addr, candidate, count).1),
        is_free(v.sessions.dom(), candidate) ==> v.register(addr, candidate, count).1 == candidate,
        v.register(addr, candidate, count).0.sessions == v.sessions.insert(
            v.register(addr, candidate, count).1,
            addr,
        ),
        v.register(addr, candidate, count).0.sessions.len() == v.sessions.len() + 1,
        v.register(addr, candidate, count).0.is_member(
            v.register(addr, candidate, count).1,
            "main"@,
        ),
        forall|room: Seq<char>, other: usize|
            v.register(addr, candidate, count).0.is_member(other, room) == (v.is_member(
                other,
                room,
            ) || (room == "main"@ && other == v.register(addr, candidate, count).1)),
{
    lemma_fresh_id(v.sessions.dom(), candidate);
    let id = fresh_id(v.sessions.dom(), candidate);
    lemma_with_member(v, "main"@, id);
}

/// What a run of registrations leaves behind: the broker after them, and
/// the identifiers handed out, in order.
pub open spec fn register_all<H>(
    v: ServerView<H>,
    addrs: Seq<H>,
    candidates: Seq<usize>,
    counts: Seq<usize>,
) -> (ServerView<H>, Seq<usize>)
    decreases addrs.len(),
{
    if addrs.len() == 0 {
        (v, Seq::empty())
    } else {
        let first = v.register(addrs[0], candidates[0], counts[0]);
        let rest = register_all(
            first.0,
            addrs.drop_first(),
            candidates.drop_first(),
            counts.drop_first(),
        );
        (rest.0, seq![first.1] + rest.1)
    }
}

/// In a run of registrations with no disconnect in between, no identifier
/// is handed out twice, whatever the candidates are, and none that was in
/// use before. All of them are registered afterwards.
pub proof fn lemma_registrations_are_distinct<H>(
    v: ServerView<H>,
    addrs: Seq<H>,
    candidates: Seq<usize>,
    counts: Seq<usize>,
)
    requires
        v.wf(),
        addrs.len() == candidates.len(),
        addrs.len() == counts.len(),
        v.sessions.len() + addrs.len() <= usize::MAX,
    ensures
        register_all(v, addrs, candidates, counts).0.wf(),
        register_all(v, addrs, candidates, counts).1.len() == addrs.len(),
        register_all(v, addrs, candidates, counts).1.no_duplicates(),
        forall|i: int|
            0 <= i < addrs.len() ==> {
                let id = #[trigger] register_all(v, addrs, candidates, counts).1[i];
                &&& id != 0
                &&& !v.registered(id)
                &&& register_all(v, addrs, candidates, counts).0.registered(id)
            },
        forall|id: usize| #[trigger]
            v.registered(id) ==> register_all(v, addrs, candidates, counts).0.registered(id),
        register_all(v, addrs, candidates, counts).0.sessions.len() == v.sessions.len()
            + addrs.len(),
    decreases addrs.len(),
{
    if addrs.len() > 0 {
        let first = v.register(addrs[0], candidates[0], counts[0]);
        lemma_register_is_fresh(v, addrs[0], candidates[0], counts[0]);
        let rest = register_all(
            first.0,
            addrs.drop_first(),
            candidates.drop_first(),
            counts.drop_first(),
        );
        lemma_registrations_are_distinct(
            first.0,
            addrs.drop_first(),
            candidates.drop_first(),
            counts.drop_first(),
        );
        let ids = register_all(v, addrs, candidates, counts).1;
        assert forall|id: usize| #[trigger] v.registered(id) implies rest.0.registered(id) by {
            assert(first.0.registered(id));
        }
        assert forall|i: int| 0 <= i < addrs.len() implies {
            let id = #[trigger] ids[i];
            &&& id != 0
            &&& !v.registered(id)
            &&& rest.0.registered(id)
        } by {
            if i > 0 {
            } else {
                assert(first.0.registered(first.1));
            }
        }
        assert forall|i: int, j: int| 0 <= i < ids.len() && 0 <= j < ids.len() && i != j implies ids[i]
            != ids[j] by {}
    }
}

/// Rooms and registry stay in agreement: if every member of a room is
/// registered and every registered session is in exactly one room, then
/// the same holds after a disconnect, after a registration, and after a
/// join of a registered session.
pub proof fn lemma_consistency_is_kept<H>(
    v: ServerView<H>,
    id: usize,
    name: Seq<char>,
    addr: H,
    candidate: usize,
    count: usize,
)
    requires
        v.wf(),
        v.consistent(),
    ensures
        v.disconnect(id).0.consistent(),
        v.registered(id) ==> v.join(id, name).0.consistent(),
        v.sessions.len() < usize::MAX ==> v.register(addr, candidate, count).0.consistent(),
        v.sessions.len() < usize::MAX ==> v.register(addr, candidate, count).0.only_room(
            v.register(addr, candidate, count).1,
            "main"@,
        ),
{
    lemma_disconnect_is_idempotent(v, id);
    let gone = v.disconnect(id).0;
    assert forall|other: usize, room: Seq<char>| #[trigger]
        gone.is_member(other, room) implies gone.registered(other) by {
        assert(gone.is_member(other, room) == v.is_member(other, room));
    }
    assert forall|other: usize| #[trigger] gone.registered(other) implies exists|room: Seq<char>|
        gone.only_room(other, room) by {
        assert(v.registered(other));
        let room = choose|room: Seq<char>| v.only_room(other, room);
        assert forall|o: Seq<char>| o != room implies !gone.is_member(other, o) by {
            assert(gone.is_member(other, o) == v.is_member(other, o));
        }
        assert(gone.only_room(other, room));
    }

    if v.registered(id) {
        lemma_join_is_exclusive(v, id, name);
        let joined = v.join(id, name).0;
        assert forall|other: usize, room: Seq<char>| #[trigger]
            joined.is_member(other, room) implies joined.registered(other) by {
            if other != id {
                assert(joined.is_member(other, room) == v.is_member(other, room));
            }
        }
        assert forall|other: usize| #[trigger] joined.registered(other) implies exists|
            room: Seq<char>,
        | joined.only_room(other, room) by {
            if other == id {
                assert(joined.only_room(id, name));
            } else {
                assert(v.registered(other));
                let room = choose|room: Seq<char>| v.only_room(other, room);
                assert forall|o: Seq<char>| o != room implies !joined.is_member(other, o) by {
                    assert(joined.is_member(other, o) == v.is_member(other, o));
                }
                assert(joined.only_room(other, room));
            }
        }
    }

    if v.sessions.len() < usize::MAX {
        lemma_register_is_fresh(v, addr, candidate, count);
        let after = v.register(addr, candidate, count).0;
        let new = v.register(addr, candidate, count).1;
        assert forall|room: Seq<char>| !v.is_member(new, room) by {}
        assert forall|other: usize, room: Seq<char>| #[trigger]
            after.is_member(other, room) implies after.registered(other) by {
            assert(after.is_member(other, room) == (v.is_member(other, room) || (room == "main"@
                && other == new)));
        }
        assert forall|o: Seq<char>| o != "main"@ implies !after.is_member(new, o) by {
            assert(after.is_member(new, o) == (v.is_member(new, o) || (o == "main"@ && new
                == new)));
        }
        assert(after.only_room(new, "main"@));
        assert forall|other: usize| #[trigger] after.registered(other) implies exists|
            room: Seq<char>,
        | after.only_room(other, room) by {
            if other != new {
                assert(v.registered(other));
                let room = choose|room: Seq<char>| v.only_room(other, room);
                assert forall|o: Seq<char>| o != room implies !after.is_member(other, o) by {
                    assert(after.is_member(other, o) == v.is_member(other, o));
                }
                assert(after.only_room(other, room));
            }
        }
    }
}

} // verus!
