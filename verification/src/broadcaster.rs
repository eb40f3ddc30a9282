//! The subscriber registry of a broadcasting server: every connection gets
//! a fresh id, a broadcast goes to every subscriber but its sender, and the
//! subscribers whose connection failed are dropped.
//!
//! The registry is generic over the sink `S` through which a subscriber is
//! reached; sending itself is left to the caller.

use vstd::prelude::*;
use std::collections::HashMap;
use vstd::std_specs::iter::IteratorSpec;

verus! {

broadcast use vstd::std_specs::hash::group_hash_axioms;

/// Calls `HashMap::get_mut`: a mutable reference to the value of `key`, when
/// there is one; whatever is written through it becomes that key's value.
/// The lookup of a `usize` key does not panic.
#[verifier::external_body]
fn map_get_mut<'a, S>(m: &'a mut HashMap<usize, S>, key: usize) -> (r: Option<&'a mut S>)
    ensures
        r is None ==> !old(m)@.contains_key(key) && final(m)@ == old(m)@,
        r matches Some(v) ==> old(m)@.contains_key(key) && *v == old(m)@[key] && final(m)@
            == old(m)@.insert(key, *final(v)),
    no_unwind
{
    m.get_mut(&key)
}

/// The registry of the subscribers of a broadcast, keyed by client id.
pub struct Broadcaster<S> {
    next_client_id: usize,
    subscribers: HashMap<usize, S>,
}

impl<S> Broadcaster<S> {
    /// The id that the next subscriber will get.
    pub closed spec fn next_id(&self) -> usize {
        self.next_client_id
    }

    /// The subscribers, by id.
    pub closed spec fn subscriber_map(&self) -> Map<usize, S> {
        self.subscribers@
    }

    /// Every subscriber's id was handed out before: it is below the next id.
    #[verifier::type_invariant]
    spec fn ids_handed_out(&self) -> bool {
        forall|id: usize| #[trigger] self.subscribers@.contains_key(id) ==> id < self.next_client_id
    }

    /// Every subscriber holds an id handed out before: it is below the id
    /// that the next subscriber will get. Every registry satisfies this.
    pub open spec fn ids_below_next(&self) -> bool {
        forall|id: usize| #[trigger] self.subscriber_map().contains_key(id) ==> id < self.next_id()
    }

    /// The id that the next subscriber will get.
    pub fn next_client_id(&self) -> (id: usize)
        ensures
            id == self.next_id(),
            self.ids_below_next(),
    {
        proof {
            use_type_invariant(self);
        }
        self.next_client_id
    }

    /// A registry with no subscribers, whose first id is 0.
    pub fn new() -> (b: Self)
        ensures
            b.ids_below_next(),
            b.next_id() == 0,
            b.subscriber_map() == Map::<usize, S>::empty(),
    {
        Broadcaster { next_client_id: 0, subscribers: HashMap::new() }
    }

    /// Registers `sink` under a fresh id and returns that id.
    pub fn subscribe(&mut self, sink: S) -> (id: usize)
        requires
            old(self).next_id() < usize::MAX,
        ensures
            old(self).ids_below_next(),
            final(self).ids_below_next(),
            id == old(self).next_id(),
            !old(self).subscriber_map().contains_key(id),
            final(self).next_id() == id + 1,
            final(self).subscriber_map() == old(self).subscriber_map().insert(id, sink),
    {
        proof {
            use_type_invariant(&*self);
        }
        let id = self.next_client_id;
        let mut subscribers = HashMap::new();
        std::mem::swap(&mut subscribers, &mut self.subscribers);
        subscribers.insert(id, sink);
        self.next_client_id = id + 1;
        std::mem::swap(&mut subscribers, &mut self.subscribers);
        id
    }

    /// The ids that a broadcast from `ignore_id` goes to: every subscriber
    /// but `ignore_id`, each once, in the map's own order.
    pub fn recipients(&self, ignore_id: usize) -> (ids: Vec<usize>)
        ensures
            self.ids_below_next(),
            ids@.no_duplicates(),
            ids@.to_set() == self.subscriber_map().dom().remove(ignore_id),
    {
        proof {
            use_type_invariant(self);
        }
        let mut ids: Vec<usize> = Vec::new();
        let ghost keys = vstd::std_specs::hash::spec_keys_iter(&self.subscribers).remaining().unref();
        for id in it: self.subscribers.keys()
            invariant
                it.seq().unref() == keys,
                it.seq().unref().no_duplicates(),
                it.seq().unref().to_set() == self.subscribers@.dom(),
                ids@.no_duplicates(),
                forall|k: usize|
                    ids@.contains(k) <==> (k != ignore_id && it.seq().unref().take(
                        it.index() as int,
                    ).contains(k)),
        {
            let ghost keys = it.seq().unref();
            let ghost k = it.index();
            assert(*id == keys[k]);
            assert(keys.take(k + 1) =~= keys.take(k).push(*id));
            let ghost before = ids@;
            if *id != ignore_id {
                proof {
                    if ids@.contains(*id) {
                        let j = choose|j: int| 0 <= j < k && keys.take(k)[j] == *id;
                        assert(keys[j] == keys[k]);
                    }
                }
                ids.push(*id);
            }
            assert forall|x: usize|
                ids@.contains(x) <==> (x != ignore_id && keys.take(k + 1).contains(x)) by {
                assert(before.contains(x) <==> (x != ignore_id && keys.take(k).contains(x)));
                if ids@.contains(x) && x != *id {
                    let j = choose|j: int| 0 <= j < ids@.len() && ids@[j] == x;
                    assert(before[j] == x);
                    assert(before.contains(x));
                    let i = choose|i: int| 0 <= i < k && #[trigger] keys.take(k)[i] == x;
                    assert(keys.take(k + 1)[i] == x);
                }
                if x != ignore_id && keys.take(k + 1).contains(x) && x != *id {
                    let j = choose|j: int| 0 <= j < k + 1 && #[trigger] keys.take(k + 1)[j] == x;
                    assert(keys.take(k)[j] == x);
                    assert(before.contains(x));
                    let i = choose|i: int| 0 <= i < before.len() && before[i] == x;
                    assert(ids@[i] == x);
                }
                if x == *id && x != ignore_id {
                    assert(ids@[ids@.len() - 1] == x);
                    assert(keys.take(k + 1)[k] == x);
                }
                if x == *id && ids@.contains(x) {
                    assert(keys.take(k + 1)[k] == x);
                }
            }
        }
        proof {
            assert(keys.take(keys.len() as int) =~= keys);
            assert forall|k: usize| #[trigger] ids@.to_set().contains(k) <==> self.subscriber_map().dom().remove(ignore_id).contains(k) by {
                assert(ids@.to_set().contains(k) <==> ids@.contains(k));
                assert(keys.to_set().contains(k) <==> keys.contains(k));
            }
            assert(ids@.to_set() =~= self.subscriber_map().dom().remove(ignore_id));
        }
        ids
    }

    /// The sink of the subscriber `id`, to send through; `None` when there is
    /// no such subscriber.
    pub fn subscriber_mut(&mut self, id: usize) -> (r: Option<&mut S>)
        ensures
            old(self).ids_below_next(),
            final(self).ids_below_next(),
            final(self).next_id() == old(self).next_id(),
            r is None ==> !old(self).subscriber_map().contains_key(id)
                && final(self).subscriber_map() == old(self).subscriber_map(),
            r matches Some(v) ==> old(self).subscriber_map().contains_key(id)
                && *v == old(self).subscriber_map()[id]
                && final(self).subscriber_map() == old(self).subscriber_map().insert(id, *final(v)),
    {
        proof {
            use_type_invariant(&*self);
        }
        map_get_mut(&mut self.subscribers, id)
    }

    /// Drops the subscribers whose ids are in `closed`.
    pub fn remove_closed(&mut self, closed: &Vec<usize>)
        ensures
            old(self).ids_below_next(),
            final(self).ids_below_next(),
            final(self).next_id() == old(self).next_id(),
            final(self).subscriber_map() == old(self).subscriber_map().remove_keys(
                closed@.to_set(),
            ),
    {
        proof {
            use_type_invariant(&*self);
        }
        let mut subscribers = HashMap::new();
        std::mem::swap(&mut subscribers, &mut self.subscribers);
        let mut i: usize = 0;
        while i < closed.len()
            invariant
                0 <= i <= closed@.len(),
                subscribers@ == old(self).subscriber_map().remove_keys(
                    closed@.take(i as int).to_set(),
                ),
            decreases closed@.len() - i,
        {
            let id = closed[i];
            subscribers.remove(&id);
            proof {
                assert(closed@.take(i + 1) =~= closed@.take(i as int).push(id));
                closed@.take(i as int).lemma_push_to_set_commute(id);
            }
            i = i + 1;
            assert(subscribers@ =~= old(self).subscriber_map().remove_keys(
                closed@.take(i as int).to_set(),
            ));
        }
        assert(closed@.take(closed@.len() as int) =~= closed@);
        std::mem::swap(&mut subscribers, &mut self.subscribers);
    }
}

/// A subscriber dropped as closed is never reached by a later broadcast,
/// whoever sends it.
pub proof fn lemma_closed_not_reached<S>(
    before: Broadcaster<S>,
    after: Broadcaster<S>,
    closed: Seq<usize>,
    sender: usize,
    id: usize,
)
    requires
        after.subscriber_map() == before.subscriber_map().remove_keys(closed.to_set()),
        closed.contains(id),
    ensures
        !after.subscriber_map().dom().remove(sender).contains(id),
{
    assert(closed.to_set().contains(id));
}

/// Whether going from `before` to `after` is a `subscribe`: it hands out
/// the id `before.next_id()` and moves the next id on by one.
pub open spec fn hands_out_id<S>(before: Broadcaster<S>, after: Broadcaster<S>) -> bool {
    after.next_id() == before.next_id() + 1
}

/// Whether going from `before` to `after` is a call of a `Broadcaster`
/// method: `subscribe` hands out an id, the others keep the next id.
pub open spec fn registry_step<S>(before: Broadcaster<S>, after: Broadcaster<S>) -> bool {
    hands_out_id(before, after) || after.next_id() == before.next_id()
}

/// The next id never goes down over a run of calls.
proof fn lemma_next_id_monotone<S>(run: Seq<Broadcaster<S>>, k: int, l: int)
    requires
        forall|i: int| 0 <= i < run.len() - 1 ==> #[trigger] registry_step(run[i], run[i + 1]),
        0 <= k <= l < run.len(),
    ensures
        run[k].next_id() <= run[l].next_id(),
    decreases l - k,
{
    if k < l {
        lemma_next_id_monotone(run, k, l - 1);
        let m = l - 1;
        assert(registry_step(run[m], run[m + 1]));
        assert(m + 1 == l);
    }
}

/// Over any run of calls on one registry (a `Mutex` puts the calls of
/// several threads in one order), an id is never handed out twice: the id
/// that a `subscribe` hands out is below the next id of every later state,
/// so below every id handed out later. With `ids_below_next`, which every
/// state satisfies, no subscriber ever holds an id handed out later.
pub proof fn lemma_ids_never_reused<S>(run: Seq<Broadcaster<S>>, k: int, l: int)
    requires
        forall|i: int| 0 <= i < run.len() - 1 ==> #[trigger] registry_step(run[i], run[i + 1]),
        0 <= k < l < run.len(),
        hands_out_id(run[k], run[k + 1]),
    ensures
        run[k].next_id() < run[l].next_id(),
{
    lemma_next_id_monotone(run, k + 1, l);
}

} // verus!
