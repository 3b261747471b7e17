use vstd::prelude::*;
use crate::delivery::{deliver, draw_id, Client};
use crate::room::{
    distinct_ids, has_id, ids_of, index_of, kept, lemma_kept_within, lemma_left_is_gone,
    position_of, reversed, settle_id, without, Member,
};
use crate::message::{
    joined_event, message_event, ChatResponseMessage, JoinRoom, LeaveRoom, ListRooms,
    SendMessage,
};

verus! {

/// A room as the registry stores it.
struct RoomEntry {
    name: String,
    members: Vec<Member>,
}

/// The single owner of all room state.
pub struct WsChatServer {
    rooms: Vec<RoomEntry>,
}

/// The views of a list of names.
pub open spec fn name_views(names: Seq<String>) -> Seq<Seq<char>> {
    Seq::new(names.len(), |i: int| names[i]@)
}

spec fn names_distinct(rooms: Seq<RoomEntry>) -> bool {
    forall|i: int, j: int| 0 <= i < j < rooms.len() ==> rooms[i].name@ != rooms[j].name@
}

spec fn present(rooms: Seq<RoomEntry>, name: Seq<char>) -> bool {
    exists|i: int| 0 <= i < rooms.len() && rooms[i].name@ == name
}

spec fn find(rooms: Seq<RoomEntry>, name: Seq<char>) -> int {
    choose|i: int| 0 <= i < rooms.len() && rooms[i].name@ == name
}

spec fn rooms_view(rooms: Seq<RoomEntry>) -> Map<Seq<char>, Seq<Member>> {
    Map::new(|n: Seq<char>| present(rooms, n), |n: Seq<char>| rooms[find(rooms, n)].members@)
}

proof fn lemma_found(rooms: Seq<RoomEntry>, i: int)
    requires
        names_distinct(rooms),
        0 <= i < rooms.len(),
    ensures
        present(rooms, rooms[i].name@),
        find(rooms, rooms[i].name@) == i,
        rooms_view(rooms).dom().contains(rooms[i].name@),
        rooms_view(rooms)[rooms[i].name@] == rooms[i].members@,
{
}

proof fn lemma_members_replaced(rooms: Seq<RoomEntry>, i: int, entry: RoomEntry)
    requires
        names_distinct(rooms),
        0 <= i < rooms.len(),
        entry.name@ == rooms[i].name@,
    ensures
        names_distinct(rooms.update(i, entry)),
        rooms_view(rooms.update(i, entry)) == rooms_view(rooms).insert(
            entry.name@,
            entry.members@,
        ),
{
    let after = rooms.update(i, entry);
    assert forall|n: Seq<char>| present(rooms, n) implies present(after, n) by {
        let k = find(rooms, n);
        assert(after[k].name@ == n);
    }
    assert forall|n: Seq<char>| present(after, n) implies present(rooms, n) by {
        let k = find(after, n);
        assert(rooms[k].name@ == n);
    }
    assert(after[i].name@ == entry.name@);
    assert forall|n: Seq<char>| present(after, n) implies #[trigger] rooms_view(after)[n]
        == rooms_view(rooms).insert(entry.name@, entry.members@)[n] by {
        let k = find(after, n);
        lemma_found(after, k);
        lemma_found(rooms, k);
    }
    assert(rooms_view(after) =~= rooms_view(rooms).insert(entry.name@, entry.members@));
}

proof fn lemma_room_added(rooms: Seq<RoomEntry>, entry: RoomEntry)
    requires
        names_distinct(rooms),
        !present(rooms, entry.name@),
    ensures
        names_distinct(rooms.push(entry)),
        rooms_view(rooms.push(entry)) == rooms_view(rooms).insert(entry.name@, entry.members@),
{
    let after = rooms.push(entry);
    assert forall|i: int, j: int| 0 <= i < j < after.len() implies after[i].name@
        != after[j].name@ by {
        if j == rooms.len() {
            assert(rooms[i].name@ == after[i].name@);
        }
    }
    assert forall|n: Seq<char>| present(rooms, n) implies present(after, n) by {
        let k = find(rooms, n);
        assert(after[k].name@ == n);
    }
    assert(after[rooms.len() as int].name@ == entry.name@);
    assert forall|n: Seq<char>| present(after, n) && n != entry.name@ implies present(rooms, n) by {
        let k = find(after, n);
        assert(rooms[k].name@ == n);
    }
    assert forall|n: Seq<char>| present(after, n) implies #[trigger] rooms_view(after)[n]
        == rooms_view(rooms).insert(entry.name@, entry.members@)[n] by {
        let k = find(after, n);
        lemma_found(after, k);
        if k < rooms.len() {
            lemma_found(rooms, k);
        }
    }
    assert(rooms_view(after) =~= rooms_view(rooms).insert(entry.name@, entry.members@));
}

impl WsChatServer {
    /// The rooms by name, each with its members in the order in which they
    /// came to stand in it.
    pub closed spec fn view(&self) -> Map<Seq<char>, Seq<Member>> {
        rooms_view(self.rooms@)
    }

    /// Room names are unique, and so are the ids within each room.
    pub closed spec fn wf(&self) -> bool {
        &&& names_distinct(self.rooms@)
        &&& forall|i: int| 0 <= i < self.rooms@.len() ==> distinct_ids(#[trigger] self.rooms@[i].members@)
    }

    /// In a well-formed registry no room holds an id twice.
    pub proof fn lemma_ids_unique(&self, name: Seq<char>)
        requires
            self.wf(),
            self@.dom().contains(name),
        ensures
            distinct_ids(self@[name]),
    {
        let k = find(self.rooms@, name);
        assert(distinct_ids(self.rooms@[k].members@));
    }

    /// A registry without rooms.
    pub fn new() -> (server: Self)
        ensures
            server.wf(),
            server@ == Map::<Seq<char>, Seq<Member>>::empty(),
    {
        let server = WsChatServer { rooms: Vec::new() };
        assert(server@ =~= Map::<Seq<char>, Seq<Member>>::empty());
        server
    }

    fn position(&self, name: &String) -> (at: Option<usize>)
        requires
            self.wf(),
        ensures
            match at {
                Some(i) => i < self.rooms@.len() && self.rooms@[i as int].name@ == name@
                    && self@.dom().contains(name@) && self@[name@] == self.rooms@[i as int].members@,
                None => !self@.dom().contains(name@) && !present(self.rooms@, name@),
            },
    {
        let mut i: usize = 0;
        while i < self.rooms.len()
            invariant
                self.wf(),
                i <= self.rooms@.len(),
                forall|k: int| 0 <= k < i ==> self.rooms@[k].name@ != name@,
            decreases self.rooms@.len() - i,
        {
            if self.rooms[i].name == *name {
                proof {
                    lemma_found(self.rooms@, i as int);
                }
                return Some(i);
            }
            i += 1;
        }
        None
    }

    /// Detaches the whole membership of a room and leaves the room empty.
    /// Without such a room nothing changes.
    pub fn take_room(&mut self, room_name: &str) -> (taken: Option<Vec<Member>>)
        requires
            old(self).wf(),
        ensures
            final(self).wf(),
            old(self)@.dom().contains(room_name@) ==> taken.is_some() && taken.unwrap()@ == old(
                self,
            )@[room_name@] && final(self)@ == old(self)@.insert(room_name@, Seq::empty()),
            !old(self)@.dom().contains(room_name@) ==> taken.is_none() && final(self)@ == old(
                self,
            )@,
    {
        let key = room_name.to_owned();
        match self.position(&key) {
            Some(i) => {
                let mut members: Vec<Member> = Vec::new();
                std::mem::swap(&mut members, &mut self.rooms[i].members);
                proof {
                    let entry = self.rooms@[i as int];
                    assert(self.rooms@ =~= old(self).rooms@.update(i as int, entry));
                    lemma_members_replaced(old(self).rooms@, i as int, entry);
                }
                Some(members)
            },
            None => None,
        }
    }

    /// The members of a room, none where there is no such room.
    pub open spec fn members_of(&self, name: Seq<char>) -> Seq<Member> {
        if self@.dom().contains(name) {
            self@[name]
        } else {
            Seq::empty()
        }
    }

    /// Puts a client into a room, which is created if it is not there yet,
    /// and returns the id under which the client stands in it: the id
    /// offered, where one is offered and the room does not have it, else
    /// one drawn at random that the room does not have.
    pub fn add_client_to_room(&mut self, room_name: &str, id: Option<usize>, client: Client) -> (given: usize)
        requires
            old(self).wf(),
        ensures
            final(self).wf(),
            !has_id(old(self).members_of(room_name@), given),
            id matches Some(c) ==> (!has_id(old(self).members_of(room_name@), c) ==> given == c),
            final(self)@ == old(self)@.insert(
                room_name@,
                old(self).members_of(room_name@).push((Member { id: given, client })),
            ),
    {
        let key = room_name.to_owned();
        let candidate = match id {
            Some(c) => c,
            None => draw_id(),
        };
        match self.position(&key) {
            Some(i) => {
                let given = settle_id(&self.rooms[i].members, candidate);
                self.rooms[i].members.push(Member { id: given, client });
                proof {
                    let entry = self.rooms@[i as int];
                    assert(self.rooms@ =~= old(self).rooms@.update(i as int, entry));
                    lemma_members_replaced(old(self).rooms@, i as int, entry);
                }
                given
            },
            None => {
                let mut members: Vec<Member> = Vec::new();
                members.push(Member { id: candidate, client });
                let entry = RoomEntry { name: key, members };
                proof {
                    lemma_room_added(old(self).rooms@, entry);
                    assert(members@ =~= Seq::<Member>::empty().push(
                        (Member { id: candidate, client }),
                    ));
                }
                self.rooms.push(entry);
                candidate
            },
        }
    }

    /// Settles one member after a delivery attempt of a broadcast: after a
    /// failure the member is dropped for good and `None` is returned; after
    /// a success it goes back into the room, under its old id unless the
    /// room has that id by now, and the id under which it stands is returned.
    pub fn restore_member(&mut self, room_name: &str, member: Member, delivered: bool) -> (given: Option<usize>)
        requires
            old(self).wf(),
        ensures
            final(self).wf(),
            delivered <==> given.is_some(),
            !delivered ==> final(self)@ == old(self)@,
            given matches Some(id) ==> {
                &&& !has_id(old(self).members_of(room_name@), id)
                &&& !has_id(old(self).members_of(room_name@), member.id) ==> id == member.id
                &&& final(self)@ == old(self)@.insert(
                    room_name@,
                    old(self).members_of(room_name@).push((Member { id, client: member.client })),
                )
            },
    {
        if delivered {
            Some(self.add_client_to_room(room_name, Some(member.id), member.client))
        } else {
            None
        }
    }

    /// Delivers an event to every member of a room. Members whose delivery
    /// fails leave the room; the others stay, in their old order. Without
    /// such a room nothing happens and `None` is returned.
    pub fn send_to_room(&mut self, room_name: &str, msg: ChatResponseMessage, _src: usize) -> (sent: Option<()>)
        requires
            old(self).wf(),
        ensures
            final(self).wf(),
            sent.is_some() <==> old(self)@.dom().contains(room_name@),
            sent.is_none() ==> final(self)@ == old(self)@,
            sent.is_some() ==> exists|delivered: Seq<bool>|
                delivered.len() == old(self)@[room_name@].len() && final(self)@ == old(
                    self,
                )@.insert(room_name@, #[trigger] kept(old(self)@[room_name@], delivered)),
    {
        proof {
            if self@.dom().contains(room_name@) {
                self.lemma_ids_unique(room_name@);
            }
        }
        let detached = match self.take_room(room_name) {
            Some(ms) => ms,
            None => {
                return None;
            },
        };
        let ghost whole = detached@;
        let ghost base = self@;
        let mut queue = reversed(detached);
        let ghost mut outcomes: Seq<bool> = Seq::empty();
        while queue.len() > 0
            invariant
                self.wf(),
                distinct_ids(whole),
                outcomes.len() + queue@.len() == whole.len(),
                forall|j: int| 0 <= j < queue@.len() ==> queue@[j] == whole[whole.len() - 1 - j],
                base.dom().contains(room_name@),
                self@ == base.insert(room_name@, kept(whole.take(outcomes.len() as int), outcomes)),
            decreases queue@.len(),
        {
            let member = queue.pop().unwrap();
            let ghost done = outcomes.len() as int;
            let ghost before = outcomes;
            assert(member == whole[done]);
            proof {
                if has_id(kept(whole.take(done), outcomes), member.id) {
                    lemma_kept_within(whole.take(done), outcomes, member.id);
                    let k = index_of(whole.take(done), member.id);
                    assert(whole[k].id == whole[done].id);
                }
            }
            let delivered = deliver(&member.client, msg.clone());
            self.restore_member(room_name, member, delivered);
            proof {
                outcomes = outcomes.push(delivered);
                assert(whole.take(done + 1).drop_last() =~= whole.take(done));
                assert(outcomes.drop_last() =~= before);
                assert(self@ =~= base.insert(
                    room_name@,
                    kept(whole.take(outcomes.len() as int), outcomes),
                ));
            }
        }
        proof {
            assert(whole.take(whole.len() as int) =~= whole);
            assert(self@ =~= old(self)@.insert(room_name@, kept(old(self)@[room_name@], outcomes)));
        }
        Some(())
    }
    /// The ids of the members of a room, none where there is no such room.
    pub fn member_ids(&self, room_name: &str) -> (ids: Vec<usize>)
        requires
            self.wf(),
        ensures
            ids@ == ids_of(self.members_of(room_name@)),
    {
        let key = room_name.to_owned();
        let mut ids: Vec<usize> = Vec::new();
        if let Some(at) = self.position(&key) {
            let members = &self.rooms[at].members;
            let mut j: usize = 0;
            while j < members.len()
                invariant
                    j <= members@.len(),
                    ids@.len() == j,
                    forall|k: int| 0 <= k < j ==> ids@[k] == members@[k].id,
                decreases members@.len() - j,
            {
                ids.push(members[j].id);
                j += 1;
            }
        }
        assert(ids@ =~= ids_of(self.members_of(room_name@)));
        ids
    }

    /// Takes a member out of a room. Where the room or the id is unknown,
    /// nothing changes. The room stays, also when it becomes empty.
    pub fn leave(&mut self, msg: LeaveRoom)
        requires
            old(self).wf(),
        ensures
            final(self).wf(),
            final(self)@ == if old(self)@.dom().contains(msg.0@) {
                old(self)@.insert(msg.0@, without(old(self)@[msg.0@], msg.1))
            } else {
                old(self)@
            },
            final(self)@.dom() == old(self)@.dom(),
    {
        let at = match self.position(&msg.0) {
            Some(i) => i,
            None => {
                return ;
            },
        };
        let slot = match position_of(&self.rooms[at].members, msg.1) {
            Some(j) => j,
            None => {
                assert(self@ =~= self@.insert(msg.0@, self@[msg.0@]));
                return ;
            },
        };
        proof {
            let ms = self.rooms@[at as int].members@;
            let k = index_of(ms, msg.1);
            assert(k == slot) by {
                if k < slot {
                    assert(ms[k].id != ms[slot as int].id);
                } else if slot < k {
                    assert(ms[slot as int].id != ms[k].id);
                }
            }
            lemma_left_is_gone(ms, msg.1);
        }
        self.rooms[at].members.remove(slot);
        proof {
            let entry = self.rooms@[at as int];
            assert(self.rooms@ =~= old(self).rooms@.update(at as int, entry));
            lemma_members_replaced(old(self).rooms@, at as int, entry);
        }
        assert(self@.dom() =~= old(self)@.dom());
    }

    /// The names of all rooms, each once, in no order that a caller may
    /// rely on.
    pub fn list(&self, _msg: ListRooms) -> (names: Vec<String>)
        requires
            self.wf(),
        ensures
            name_views(names@).no_duplicates(),
            name_views(names@).to_set() == self@.dom(),
    {
        let mut names: Vec<String> = Vec::new();
        let mut i: usize = 0;
        while i < self.rooms.len()
            invariant
                i <= self.rooms@.len(),
                names@.len() == i,
                forall|k: int| 0 <= k < i ==> names@[k]@ == self.rooms@[k].name@,
            decreases self.rooms@.len() - i,
        {
            names.push(self.rooms[i].name.clone());
            i += 1;
        }
        proof {
            let views = name_views(names@);
            assert forall|n: Seq<char>| views.to_set().contains(n) implies self@.dom().contains(
                n,
            ) by {
                let k = choose|k: int| 0 <= k < views.len() && views[k] == n;
                assert(self.rooms@[k].name@ == n);
            }
            assert forall|n: Seq<char>| self@.dom().contains(n) implies views.to_set().contains(
                n,
            ) by {
                let k = find(self.rooms@, n);
                assert(views[k] == n);
            }
            assert(views.to_set() =~= self@.dom());
        }
        names
    }

    /// Puts the client into the room, which is created if need be, then
    /// announces the new member to the whole room, the new member included,
    /// under its display name or as "anon". Returns the member's id.
    /// Members whom the announcement does not reach leave the room.
    pub fn join(&mut self, msg: JoinRoom) -> (id: usize)
        requires
            old(self).wf(),
        ensures
            final(self).wf(),
            !has_id(old(self).members_of(msg.0@), id),
            exists|delivered: Seq<bool>|
                delivered.len() == old(self).members_of(msg.0@).len() + 1 && final(self)@ == old(
                    self,
                )@.insert(
                    msg.0@,
                    #[trigger] kept(
                        old(self).members_of(msg.0@).push((Member { id, client: msg.2 })),
                        delivered,
                    ),
                ),
    {
        let JoinRoom(room_name, client_name, client) = msg;
        let id = self.add_client_to_room(room_name.as_str(), None, client);
        let ghost mid = self@;
        let event = joined_event(room_name.as_str(), client_name);
        self.send_to_room(room_name.as_str(), event, id);
        proof {
            let delivered = choose|delivered: Seq<bool>|
                delivered.len() == mid[room_name@].len() && self@ == mid.insert(
                    room_name@,
                    #[trigger] kept(mid[room_name@], delivered),
                );
            let joined = old(self).members_of(room_name@).push((Member { id, client }));
            assert(mid[room_name@] == joined);
            assert(self@ =~= old(self)@.insert(room_name@, kept(joined, delivered)));
        }
        id
    }

    /// Delivers a member's text to every member of its room, the sender
    /// included. Members whom it does not reach leave the room. Without
    /// such a room nothing happens.
    pub fn send(&mut self, msg: SendMessage)
        requires
            old(self).wf(),
        ensures
            final(self).wf(),
            !old(self)@.dom().contains(msg.room_name@) ==> final(self)@ == old(self)@,
            old(self)@.dom().contains(msg.room_name@) ==> exists|delivered: Seq<bool>|
                delivered.len() == old(self)@[msg.room_name@].len() && final(self)@ == old(
                    self,
                )@.insert(
                    msg.room_name@,
                    #[trigger] kept(old(self)@[msg.room_name@], delivered),
                ),
    {
        let SendMessage { name, room_name, id, msg } = msg;
        self.send_to_room(room_name.as_str(), message_event(name, msg), id);
    }
}

impl Default for WsChatServer {
    fn default() -> (server: Self)
        ensures
            server.wf(),
            server@ == Map::<Seq<char>, Seq<Member>>::empty(),
    {
        WsChatServer::new()
    }
}

} // verus!
