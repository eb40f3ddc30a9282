//! The client list of the single-threaded server: clients join anonymously,
//! their first message becomes their nickname, and every later message is
//! forwarded, prefixed with that nickname, to every other client that has
//! one. Clients that could not be written to are dropped afterwards.
//!
//! The list is generic over the sink `S` through which a client is reached;
//! sending itself is left to the caller.

use vstd::prelude::*;
use crate::messages::{chat_message, has_logged_in_message};

verus! {

broadcast use vstd::string::group_string_axioms;

/// A connected client.
pub struct Client<S> {
    /// The id given to the client when it connected.
    pub id: u32,
    /// The nickname, once the client has sent its first message.
    pub nickname: Option<String>,
    /// Where messages for this client go.
    pub sink: S,
}

/// A message received from the client with id `from`.
pub struct Message {
    pub from: u32,
    pub text: String,
}

/// Hands out the id `*next` and advances the counter.
pub fn take_fresh_id(next: &mut u32) -> (id: u32)
    requires
        *old(next) < u32::MAX,
    ensures
        id == *old(next),
        *final(next) == *old(next) + 1,
{
    let id = *next;
    *next = id + 1;
    id
}

/// Over a run of `take_fresh_id` calls on one counter, the `k`th call hands
/// out the counter's first value plus `k`: connections accepted in order from
/// a counter at 0 get the ids 0, 1, 2, ..., each once.
pub proof fn lemma_fresh_ids_count_up(counters: Seq<u32>, k: int, l: int)
    requires
        forall|i: int| 0 <= i < counters.len() - 1 ==> #[trigger] counters[i + 1] == counters[i] + 1,
        0 <= k < l < counters.len(),
    ensures
        counters[k] == counters[0] + k,
        counters[k] < counters[l],
{
    lemma_counter_at(counters, k);
    lemma_counter_at(counters, l);
}

/// The `j`th counter value is the first plus `j`.
proof fn lemma_counter_at(counters: Seq<u32>, j: int)
    requires
        forall|i: int| 0 <= i < counters.len() - 1 ==> #[trigger] counters[i + 1] == counters[i] + 1,
        0 <= j < counters.len(),
    ensures
        counters[j] == counters[0] + j,
    decreases j,
{
    if j > 0 {
        lemma_counter_at(counters, j - 1);
        let m = j - 1;
        assert(counters[m + 1] == counters[m] + 1);
        assert(m + 1 == j);
    }
}

/// Adds the newly connected client `id`, reached through `sink`, at the end
/// of the list, without a nickname.
pub fn add_client<S>(clients: &mut Vec<Client<S>>, id: u32, sink: S)
    ensures
        final(clients)@ == old(clients)@.push(Client { id, nickname: None, sink }),
{
    clients.push(Client { id, nickname: None, sink });
}

/// Whether `f` is the first position of the list that holds the client `id`.
pub open spec fn first_with_id<S>(clients: Seq<Client<S>>, id: u32, f: int) -> bool {
    &&& 0 <= f < clients.len()
    &&& clients[f].id == id
    &&& forall|j: int| 0 <= j < f ==> #[trigger] clients[j].id != id
}

/// Whether the list holds the client `id`.
pub open spec fn has_client<S>(clients: Seq<Client<S>>, id: u32) -> bool {
    exists|j: int| 0 <= j < clients.len() && #[trigger] clients[j].id == id
}

/// Whether `c` gets the messages sent by the client `from`: it has a
/// nickname and is not `from` itself.
pub open spec fn receives_from<S>(c: Client<S>, from: u32) -> bool {
    c.nickname is Some && c.id != from
}

/// The line that forwards `text` from a client whose nickname is `nickname`.
pub open spec fn forwarded_line(nickname: Seq<char>, text: Seq<char>) -> Seq<char> {
    nickname + ": "@ + text
}

/// The line that announces a client that has just named itself `nickname`.
pub open spec fn login_line(nickname: Seq<char>) -> Seq<char> {
    nickname + " has logged in"@
}

/// Handles `msg` before it is sent around: finds its sender (the first
/// client with its id); when the sender has no nickname yet, the text
/// becomes its nickname and the line to send announces it, otherwise the
/// line is the text prefixed with the nickname. Returns that line and the
/// positions, in increasing order, of the clients that are to receive it.
pub fn prepare_broadcast<S>(clients: &mut Vec<Client<S>>, msg: Message) -> (r: (String, Vec<usize>))
    requires
        exists|j: int| 0 <= j < old(clients)@.len() && #[trigger] old(clients)@[j].id == msg.from,
    ensures
        forall|f: int|
            0 <= f < old(clients)@.len() && old(clients)@[f].id == msg.from && (forall|j: int|
                0 <= j < f ==> #[trigger] old(clients)@[j].id != msg.from) ==> match old(clients)@[f].nickname {
                Some(n) => r.0@ == n@ + ": "@ + msg.text@ && final(clients)@ == old(clients)@,
                None => r.0@ == msg.text@ + " has logged in"@ && final(clients)@ == old(clients)@.update(f, Client { nickname: Some(msg.text), ..old(clients)@[f] }),
            },
        forall|k: int, l: int| 0 <= k < l < r.1@.len() ==> r.1@[k] < r.1@[l],
        forall|k: int| 0 <= k < r.1@.len() ==> r.1@[k] < final(clients)@.len(),
        forall|i: int|
            0 <= i < final(clients)@.len() ==> (r.1@.contains(i as usize) <==> (final(clients)@[i].nickname is Some && final(clients)@[i].id != msg.from)),
        forall|f: int|
            first_with_id(old(clients)@, msg.from, f) ==> match old(clients)@[f].nickname {
                Some(n) => r.0@ == forwarded_line(n@, msg.text@),
                None => r.0@ == login_line(msg.text@),
            },
        forall|i: int|
            0 <= i < final(clients)@.len() ==> (r.1@.contains(i as usize) <==> receives_from(
                final(clients)@[i],
                msg.from,
            )),
{
    let n = clients.len();
    let mut f: usize = 0;
    while clients[f].id != msg.from
        invariant
            0 <= f < clients@.len(),
            n == clients@.len(),
            clients@ == old(clients)@,
            exists|j: int| 0 <= j < old(clients)@.len() && #[trigger] old(clients)@[j].id == msg.from,
            forall|j: int| 0 <= j < f ==> #[trigger] clients@[j].id != msg.from,
        decreases clients@.len() - f,
    {
        f = f + 1;
        if f == n {
            proof {
                let j = choose|j: int| 0 <= j < clients@.len() && #[trigger] clients@[j].id == msg.from;
                assert(clients@[j].id != msg.from);
            }
        }
    }
    let line = match &clients[f].nickname {
        Some(n) => chat_message(n.as_str(), msg.text.as_str()),
        None => {
            let line = has_logged_in_message(msg.text.as_str());
            clients[f].nickname = Some(msg.text);
            line
        },
    };
    let mut recipients: Vec<usize> = Vec::new();
    let mut i: usize = 0;
    while i < clients.len()
        invariant
            0 <= i <= clients@.len(),
            forall|k: int, l: int| 0 <= k < l < recipients@.len() ==> recipients@[k] < recipients@[l],
            forall|k: int| 0 <= k < recipients@.len() ==> recipients@[k] < i,
            forall|j: int|
                0 <= j < i ==> (recipients@.contains(j as usize) <==> (clients@[j].nickname is Some && clients@[j].id != msg.from)),
        decreases clients@.len() - i,
    {
        let ghost before = recipients@;
        if clients[i].nickname.is_some() && clients[i].id != msg.from {
            recipients.push(i);
        }
        proof {
            assert forall|j: int|
                0 <= j <= i implies (recipients@.contains(j as usize) <==> (clients@[j].nickname is Some && clients@[j].id != msg.from)) by {
                if j < i {
                    if recipients@.contains(j as usize) {
                        let k = choose|k: int| 0 <= k < recipients@.len() && recipients@[k] == j as usize;
                        if k < before.len() {
                            assert(before[k] == j as usize);
                        }
                    }
                    if before.contains(j as usize) {
                        let k = choose|k: int| 0 <= k < before.len() && before[k] == j as usize;
                        assert(recipients@[k] == j as usize);
                    }
                } else {
                    if recipients@.contains(j as usize) {
                        let k = choose|k: int| 0 <= k < recipients@.len() && recipients@[k] == j as usize;
                        if k < before.len() {
                            assert(before[k] < i);
                        }
                    }
                    if clients@[j].nickname is Some && clients@[j].id != msg.from {
                        assert(recipients@[recipients@.len() - 1] == i);
                    }
                }
            }
        }
        i = i + 1;
    }
    (line, recipients)
}

/// Whether `positions` lists positions of a list of `len` elements in
/// strictly increasing order.
pub open spec fn increasing_positions(len: nat, positions: Seq<usize>) -> bool {
    &&& forall|k: int, l: int| 0 <= k < l < positions.len() ==> positions[k] < positions[l]
    &&& forall|k: int| 0 <= k < positions.len() ==> positions[k] < len
}

/// Whether `positions` holds the position `i`.
pub open spec fn listed(positions: Seq<usize>, i: int) -> bool {
    exists|m: int| 0 <= m < positions.len() && positions[m] as int == i
}

/// Whether `origin` shows that `new` is `old` without the elements at
/// `positions`, in some order: each element of `new` is the element of `old`
/// at `origin[k]`, those positions are distinct and none of `positions`, and
/// every other position of `old` is among them.
pub open spec fn origin_map<T>(old: Seq<T>, positions: Seq<usize>, new: Seq<T>, origin: Seq<int>) -> bool {
    &&& origin.len() == new.len()
    &&& forall|k: int|
        0 <= k < new.len() ==> 0 <= #[trigger] origin[k] < old.len() && !listed(positions, origin[k])
            && new[k] == old[origin[k]]
    &&& forall|k: int, l: int| 0 <= k < l < new.len() ==> origin[k] != origin[l]
    &&& forall|i: int|
        0 <= i < old.len() && !listed(positions, i) ==> exists|k: int|
            0 <= k < new.len() && #[trigger] origin[k] == i
}

/// Whether `new` holds exactly the elements of `old` at the positions not in
/// `positions`, each once, in some order.
pub open spec fn drops_exactly<T>(old: Seq<T>, positions: Seq<usize>, new: Seq<T>) -> bool {
    exists|origin: Seq<int>| origin_map(old, positions, new, origin)
}

/// Drops the clients at `disconnected`, the positions, in increasing order,
/// of the clients that could not be written to. Every other client stays,
/// unchanged; the order of those that stay is not kept.
pub fn remove_disconnected<S>(clients: &mut Vec<Client<S>>, disconnected: Vec<usize>)
    requires
        forall|k: int, l: int|
            0 <= k < l < disconnected@.len() ==> disconnected@[k] < disconnected@[l],
        forall|k: int| 0 <= k < disconnected@.len() ==> disconnected@[k] < old(clients)@.len(),
    ensures
        final(clients)@.len() == old(clients)@.len() - disconnected@.len(),
        forall|i: int|
            0 <= i < old(clients)@.len() && !disconnected@.contains(i as usize) ==> final(clients)@.contains(#[trigger] old(clients)@[i]),
        forall|k: int|
            0 <= k < final(clients)@.len() ==> old(clients)@.contains(#[trigger] final(clients)@[k]),
        forall|m: int|
            0 <= m < disconnected@.len() && (forall|i: int|
                0 <= i < old(clients)@.len() && i != disconnected@[m] ==> #[trigger] old(clients)@[i] != old(clients)@[disconnected@[m] as int]) ==> !final(clients)@.contains(
                #[trigger] old(clients)@[disconnected@[m] as int],
            ),
        drops_exactly(old(clients)@, disconnected@, final(clients)@),
{
    let ghost n = clients@.len();
    let ghost d = disconnected@;
    let ghost mut origin = Seq::new(n, |i: int| i);
    let mut j: usize = disconnected.len();
    proof {
        let none = d.skip(j as int);
        assert(none.len() == 0);
        assert forall|i: int| 0 <= i < n && !listed(none, i) implies exists|k: int|
            0 <= k < clients@.len() && #[trigger] origin[k] == i by {
            assert(origin[i] == i);
        }
    }
    while j > 0
        invariant
            0 <= j <= d.len(),
            d == disconnected@,
            n == old(clients)@.len(),
            increasing_positions(n, d),
            clients@.len() == n - (d.len() - j),
            (if j < d.len() { d[j as int] as int } else { n as int }) <= clients@.len(),
            origin_map(old(clients)@, d.skip(j as int), clients@, origin),
            forall|k: int|
                0 <= k < clients@.len() && k < (if j < d.len() { d[j as int] as int } else { n as int })
                    ==> #[trigger] origin[k] == k,
        decreases j,
    {
        let p = disconnected[j - 1];
        let ghost before = clients@;
        let ghost d_after = d.skip(j as int);
        let ghost d_now = d.skip(j - 1);
        proof {
            assert forall|x: int| listed(d_now, x) <==> (x == p || listed(d_after, x)) by {
                if listed(d_now, x) {
                    let m = choose|m: int| 0 <= m < d_now.len() && d_now[m] as int == x;
                    if m > 0 {
                        assert(d_after[m - 1] == d_now[m]);
                    }
                }
                if listed(d_after, x) {
                    let m = choose|m: int| 0 <= m < d_after.len() && d_after[m] as int == x;
                    assert(d_now[m + 1] == d_after[m]);
                }
                if x == p {
                    assert(d_now[0] == p);
                }
            }
            if j < d.len() {
                assert(d[j - 1] < d[j as int]);
            }
            assert(origin[p as int] == p as int);
        }
        clients.swap_remove(p);
        proof {
            let last = before.len() - 1;
            let new_origin = origin.update(p as int, origin[last]).drop_last();
            assert forall|k: int| 0 <= k < clients@.len() implies 0 <= #[trigger] new_origin[k]
                < n && !listed(d_now, new_origin[k]) && clients@[k] == old(clients)@[new_origin[k]] by {
                if k == p {
                    assert(new_origin[k] == origin[last]);
                    assert(origin[last] != origin[p as int]);
                } else {
                    assert(new_origin[k] == origin[k]);
                    assert(origin[k] != origin[p as int]);
                }
            }
            assert forall|k: int, l: int| 0 <= k < l < clients@.len() implies new_origin[k]
                != new_origin[l] by {
                let ok = if k == p { last } else { k };
                let ol = if l == p { last } else { l };
                assert(new_origin[k] == origin[ok]);
                assert(new_origin[l] == origin[ol]);
            }
            assert forall|i: int| 0 <= i < n && !listed(d_now, i) implies exists|k: int|
                0 <= k < clients@.len() && #[trigger] new_origin[k] == i by {
                let k0 = choose|k: int| 0 <= k < before.len() && #[trigger] origin[k] == i;
                if k0 == last && last != p {
                    assert(new_origin[p as int] == i);
                } else {
                    assert(k0 != p);
                    assert(new_origin[k0] == i);
                }
            }
            assert forall|k: int| 0 <= k < clients@.len() && k < p implies #[trigger] new_origin[k]
                == k by {
                assert(new_origin[k] == origin[k]);
            }
            origin = new_origin;
        }
        j = j - 1;
    }
    assert(d.skip(0) =~= d);
    proof {
        assert forall|i: int|
            0 <= i < n && !d.contains(i as usize) implies clients@.contains(
            #[trigger] old(clients)@[i],
        ) by {
            if listed(d, i) {
                let m = choose|m: int| 0 <= m < d.len() && d[m] as int == i;
                assert(d[m] == i as usize);
            }
            let k = choose|k: int| 0 <= k < clients@.len() && #[trigger] origin[k] == i;
            assert(clients@[k] == old(clients)@[i]);
        }
        assert forall|k: int| 0 <= k < clients@.len() implies old(clients)@.contains(
            #[trigger] clients@[k],
        ) by {
            let i = origin[k];
            assert(clients@[k] == old(clients)@[i]);
        }
        assert forall|m: int|
            0 <= m < disconnected@.len() && (forall|i: int|
                0 <= i < old(clients)@.len() && i != disconnected@[m] ==> #[trigger] old(clients)@[i] != old(clients)@[disconnected@[m] as int]) implies !clients@.contains(
            #[trigger] old(clients)@[disconnected@[m] as int],
        ) by {
            let p = disconnected@[m] as int;
            if clients@.contains(old(clients)@[p]) {
                let k = choose|k: int| 0 <= k < clients@.len() && clients@[k] == old(clients)@[p];
                let o = origin[k];
                assert(clients@[k] == old(clients)@[o]);
                assert(!listed(d, o));
                assert(d[m] as int == p);
                assert(o != p);
            }
        }
    }
}

/// When the clients' ids are distinct, a client is dropped exactly when its
/// position is among the dropped ones: the ids left are the old ids minus
/// those of the disconnected clients.
pub proof fn lemma_dropped_by_id<S>(
    old: Seq<Client<S>>,
    positions: Seq<usize>,
    new: Seq<Client<S>>,
    i: int,
)
    requires
        drops_exactly(old, positions, new),
        forall|a: int, b: int| 0 <= a < b < old.len() ==> old[a].id != old[b].id,
        0 <= i < old.len(),
    ensures
        (exists|k: int| 0 <= k < new.len() && #[trigger] new[k].id == old[i].id) <==> !listed(
            positions,
            i,
        ),
        !listed(positions, i) ==> exists|k: int| 0 <= k < new.len() && #[trigger] new[k] == old[i],
{
    let origin = choose|origin: Seq<int>| origin_map(old, positions, new, origin);
    if !listed(positions, i) {
        let k = choose|k: int| 0 <= k < new.len() && #[trigger] origin[k] == i;
        assert(new[k] == old[i]);
        assert(new[k].id == old[i].id);
    } else {
        assert forall|k: int| 0 <= k < new.len() implies #[trigger] new[k].id != old[i].id by {
            let o = origin[k];
            assert(!listed(positions, o));
            assert(o != i);
            if o < i {
                assert(old[o].id != old[i].id);
            } else {
                assert(old[i].id != old[o].id);
            }
        }
    }
}

/// Positions collected in increasing order from the recipients of a
/// broadcast can always be dropped.
pub proof fn lemma_recipient_positions_removable(len: nat, recipients: Seq<usize>, failed: Seq<usize>)
    requires
        increasing_positions(len, recipients),
        forall|k: int, l: int| 0 <= k < l < failed.len() ==> failed[k] < failed[l],
        forall|k: int| 0 <= k < failed.len() ==> recipients.contains(#[trigger] failed[k]),
    ensures
        increasing_positions(len, failed),
{
    assert forall|k: int| 0 <= k < failed.len() implies #[trigger] failed[k] < len by {
        assert(recipients.contains(failed[k]));
    }
}

/// A client receives what `from` sends exactly when it has a nickname and
/// is another client than `from`; the line forwarded for a named sender is
/// its whole nickname, `": "` and the whole text, and the line announcing a
/// new nickname is the whole text followed by `" has logged in"`.
pub proof fn lemma_broadcast_rules<S>(c: Client<S>, from: u32, nickname: Seq<char>, text: Seq<char>)
    ensures
        receives_from(c, from) <==> (c.nickname is Some && c.id != from),
        forwarded_line(nickname, text) == nickname + ": "@ + text,
        forwarded_line(nickname, text).len() == nickname.len() + 2 + text.len(),
        forwarded_line(nickname, text).subrange(
            nickname.len() + 2int,
            nickname.len() + 2int + text.len(),
        ) == text,
        login_line(text) == text + " has logged in"@,
        login_line(text).take(text.len() as int) == text,
{
    reveal_strlit(": ");
    reveal_strlit(" has logged in");
    assert(forwarded_line(nickname, text).subrange(
        nickname.len() + 2int,
        nickname.len() + 2int + text.len(),
    ) =~= text);
    assert(login_line(text).take(text.len() as int) =~= text);
}

} // verus!
