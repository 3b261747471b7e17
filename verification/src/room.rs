use vstd::prelude::*;
use crate::delivery::{draw_id, Client};

verus! {

/// One member's slot in a room: the id that the registry gave it and the
/// handle through which events reach its session.
pub struct Member {
    pub id: usize,
    pub client: Client,
}

/// No two members of the sequence share an id.
pub open spec fn distinct_ids(ms: Seq<Member>) -> bool {
    forall|i: int, j: int| 0 <= i < j < ms.len() ==> ms[i].id != ms[j].id
}

/// Some member of the sequence has this id.
pub open spec fn has_id(ms: Seq<Member>, id: usize) -> bool {
    exists|j: int| 0 <= j < ms.len() && ms[j].id == id
}

/// The position of the member with this id, where there is one.
pub open spec fn index_of(ms: Seq<Member>, id: usize) -> int {
    choose|j: int| 0 <= j < ms.len() && ms[j].id == id
}

/// The members that are left when the one with this id, if any, goes.
pub open spec fn without(ms: Seq<Member>, id: usize) -> Seq<Member> {
    if has_id(ms, id) {
        ms.remove(index_of(ms, id))
    } else {
        ms
    }
}

/// The members that a broadcast leaves in a room: those whose delivery
/// succeeded, in their old order. `delivered[i]` is the outcome for `ms[i]`.
pub open spec fn kept(ms: Seq<Member>, delivered: Seq<bool>) -> Seq<Member>
    decreases ms.len(),
{
    if ms.len() == 0 || delivered.len() != ms.len() {
        Seq::empty()
    } else if delivered.last() {
        kept(ms.drop_last(), delivered.drop_last()).push(ms.last())
    } else {
        kept(ms.drop_last(), delivered.drop_last())
    }
}

/// The ids of a sequence of members, in its order.
pub open spec fn ids_of(ms: Seq<Member>) -> Seq<usize> {
    Seq::new(ms.len(), |j: int| ms[j].id)
}

/// How often a colliding id is drawn again before the smallest free id is taken.
pub const REDRAWS: usize = 16;

/// A broadcast keeps only members that the room had.
pub proof fn lemma_kept_within(ms: Seq<Member>, delivered: Seq<bool>, id: usize)
    requires
        has_id(kept(ms, delivered), id),
    ensures
        has_id(ms, id),
    decreases ms.len(),
{
    if ms.len() == 0 || delivered.len() != ms.len() {
    } else {
        let rest = kept(ms.drop_last(), delivered.drop_last());
        let j = index_of(kept(ms, delivered), id);
        if delivered.last() && j == rest.len() {
            assert(ms[ms.len() - 1].id == id);
        } else {
            assert(rest[j].id == id);
            lemma_kept_within(ms.drop_last(), delivered.drop_last(), id);
            let k = index_of(ms.drop_last(), id);
            assert(ms[k].id == id);
        }
    }
}

/// A broadcast keeps the ids of a room distinct.
pub proof fn lemma_kept_distinct(ms: Seq<Member>, delivered: Seq<bool>)
    requires
        distinct_ids(ms),
    ensures
        distinct_ids(kept(ms, delivered)),
    decreases ms.len(),
{
    if ms.len() == 0 || delivered.len() != ms.len() {
    } else {
        let rest = kept(ms.drop_last(), delivered.drop_last());
        lemma_kept_distinct(ms.drop_last(), delivered.drop_last());
        if delivered.last() {
            if has_id(rest, ms.last().id) {
                lemma_kept_within(ms.drop_last(), delivered.drop_last(), ms.last().id);
                let k = index_of(ms.drop_last(), ms.last().id);
                assert(ms[k].id == ms[ms.len() - 1].id);
            }
        }
    }
}

/// A broadcast in which every delivery succeeds leaves the room as it was.
pub proof fn lemma_all_delivered(ms: Seq<Member>, delivered: Seq<bool>)
    requires
        delivered.len() == ms.len(),
        forall|j: int| 0 <= j < delivered.len() ==> delivered[j],
    ensures
        kept(ms, delivered) == ms,
    decreases ms.len(),
{
    if ms.len() == 0 {
        assert(kept(ms, delivered) =~= ms);
    } else {
        lemma_all_delivered(ms.drop_last(), delivered.drop_last());
        assert(ms.drop_last().push(ms.last()) =~= ms);
    }
}

/// A broadcast in which exactly one delivery fails removes exactly that
/// member and keeps all the others, with no leave asked for.
pub proof fn lemma_one_failure(ms: Seq<Member>, delivered: Seq<bool>, failed: int)
    requires
        delivered.len() == ms.len(),
        0 <= failed < ms.len(),
        forall|j: int| 0 <= j < delivered.len() ==> (delivered[j] <==> j != failed),
    ensures
        kept(ms, delivered) == ms.remove(failed),
        kept(ms, delivered).len() == ms.len() - 1,
    decreases ms.len(),
{
    if failed == ms.len() - 1 {
        lemma_all_delivered(ms.drop_last(), delivered.drop_last());
        assert(ms.drop_last() =~= ms.remove(failed));
    } else {
        lemma_one_failure(ms.drop_last(), delivered.drop_last(), failed);
        assert(ms.drop_last().remove(failed).push(ms.last()) =~= ms.remove(failed));
    }
}

/// Once a member has left, its id is not in the room.
pub proof fn lemma_left_is_gone(ms: Seq<Member>, id: usize)
    requires
        distinct_ids(ms),
    ensures
        !has_id(without(ms, id), id),
        distinct_ids(without(ms, id)),
{
    if has_id(ms, id) {
        let at = index_of(ms, id);
        let rest = ms.remove(at);
        if has_id(rest, id) {
            let k = index_of(rest, id);
            if k < at {
                assert(ms[k].id == ms[at].id);
            } else {
                assert(ms[k + 1].id == ms[at].id);
            }
        }
    }
}

/// After a member has left, no later broadcast to the room keeps, and so
/// none reaches, a member under its id.
pub proof fn lemma_left_not_reached(ms: Seq<Member>, id: usize, delivered: Seq<bool>)
    requires
        distinct_ids(ms),
    ensures
        !has_id(kept(without(ms, id), delivered), id),
{
    lemma_left_is_gone(ms, id);
    if has_id(kept(without(ms, id), delivered), id) {
        lemma_kept_within(without(ms, id), delivered, id);
    }
}

/// Joins into one room, one after the other, give pairwise different
/// ids, as long as no member goes in between: `start` is the room before
/// the first join, `added` the members that the joins put in, each under
/// an id that the room as it then stood did not have.
pub proof fn lemma_joins_give_distinct_ids(start: Seq<Member>, added: Seq<Member>)
    requires
        forall|k: int|
            0 <= k < added.len() ==> !has_id(start + added.take(k), #[trigger] added[k].id),
    ensures
        forall|i: int, j: int| 0 <= i < j < added.len() ==> added[i].id != added[j].id,
        distinct_ids(start) ==> distinct_ids(start + added),
{
    assert forall|i: int, j: int| 0 <= i < j < added.len() implies added[i].id
        != added[j].id by {
        let room = start + added.take(j);
        assert(room[start.len() + i] == added[i]);
        assert(!has_id(room, added[j].id));
    }
    if distinct_ids(start) {
        let all = start + added;
        assert forall|i: int, j: int| 0 <= i < j < all.len() implies all[i].id != all[j].id by {
            if j >= start.len() {
                let room = start + added.take(j - start.len());
                assert(!has_id(room, added[j - start.len()].id));
                assert(room[i] == all[i]);
            }
        }
    }
}

/// Ids `0 ..= top` that all stand in a room show that it has more than `top` members.
proof fn lemma_room_holds(ms: Seq<Member>, top: usize)
    requires
        forall|k: usize| k <= top ==> has_id(ms, k),
    ensures
        top < ms.len(),
    decreases top,
{
    assert(has_id(ms, top));
    let j = index_of(ms, top);
    if top > 0 {
        let rest = ms.remove(j);
        assert forall|k: usize| k <= top - 1 implies has_id(rest, k) by {
            assert(has_id(ms, k));
            let i = index_of(ms, k);
            if i < j {
                assert(rest[i].id == k);
            } else {
                assert(rest[i - 1].id == k);
            }
        }
        lemma_room_holds(rest, (top - 1) as usize);
    }
}

pub(crate) fn position_of(ms: &Vec<Member>, id: usize) -> (at: Option<usize>)
    ensures
        match at {
            Some(j) => j < ms@.len() && ms@[j as int].id == id && has_id(ms@, id),
            None => !has_id(ms@, id),
        },
{
    let mut j: usize = 0;
    while j < ms.len()
        invariant
            j <= ms@.len(),
            forall|k: int| 0 <= k < j ==> ms@[k].id != id,
        decreases ms@.len() - j,
    {
        if ms[j].id == id {
            return Some(j);
        }
        j += 1;
    }
    None
}

/// The smallest id that no member of the room has.
pub fn smallest_free(ms: &Vec<Member>) -> (id: usize)
    ensures
        !has_id(ms@, id),
        forall|k: usize| k < id ==> has_id(ms@, k),
{
    let count: usize = ms.len();
    let mut id: usize = 0;
    loop
        invariant
            count == ms@.len(),
            id <= ms@.len(),
            forall|k: usize| k < id ==> has_id(ms@, k),
        ensures
            !has_id(ms@, id),
            forall|k: usize| k < id ==> has_id(ms@, k),
        decreases ms@.len() - id,
    {
        if position_of(ms, id).is_none() {
            break;
        }
        proof {
            lemma_room_holds(ms@, id);
        }
        id += 1;
    }
    id
}

/// Settles the id of a new member: the candidate where the room does not
/// have it, else a fresh draw, and after `REDRAWS` collisions the smallest
/// free id.
pub(crate) fn settle_id(ms: &Vec<Member>, candidate: usize) -> (id: usize)
    ensures
        !has_id(ms@, id),
        !has_id(ms@, candidate) ==> id == candidate,
{
    let mut id: usize = candidate;
    let mut tries: usize = 0;
    while tries < REDRAWS && position_of(ms, id).is_some()
        invariant
            tries <= REDRAWS,
            !has_id(ms@, candidate) ==> id == candidate,
        decreases REDRAWS - tries,
    {
        id = draw_id();
        tries += 1;
    }
    if position_of(ms, id).is_some() {
        smallest_free(ms)
    } else {
        id
    }
}

pub(crate) fn reversed(mut ms: Vec<Member>) -> (turned: Vec<Member>)
    ensures
        turned@.len() == ms@.len(),
        forall|j: int| 0 <= j < turned@.len() ==> turned@[j] == ms@[ms@.len() - 1 - j],
{
    let ghost whole = ms@;
    let mut turned: Vec<Member> = Vec::new();
    while ms.len() > 0
        invariant
            ms@.len() + turned@.len() == whole.len(),
            ms@ == whole.take(ms@.len() as int),
            forall|j: int| 0 <= j < turned@.len() ==> turned@[j] == whole[whole.len() - 1 - j],
        decreases ms@.len(),
    {
        let m = ms.pop().unwrap();
        turned.push(m);
    }
    turned
}

} // verus!
