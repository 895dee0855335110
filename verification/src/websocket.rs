//! Connections that listen to a lobby.

use tokio::sync::mpsc::UnboundedSender;
use vstd::prelude::*;
use vstd::seq_lib::lemma_no_dup_in_concat;
use vstd::set_lib::{lemma_int_range, lemma_subset_equality, set_int_range};

verus! {

/// The sending half of an unbounded channel.
#[verifier::external_type_specification]
#[verifier::external_body]
#[verifier::reject_recursive_types(T)]
pub struct ExUnboundedSender<T>(UnboundedSender<T>);

/// What was sent through this handle so far, and for each message whether the channel took it.
pub uninterp spec fn send_attempts(tx: UnboundedSender<String>) -> Seq<(Seq<char>, bool)>;

/// The channel that this handle sends into. Handles of one channel, and no others, reach the same
/// receiving half.
pub uninterp spec fn channel_of(tx: UnboundedSender<String>) -> int;

/// `tokio::sync::mpsc::UnboundedSender::send`: one attempt more for this handle, into its channel. Whether the channel
/// takes the message depends on whether its receiving half is still open, so nothing is said of that.
#[verifier::external_body]
fn channel_send(tx: &mut UnboundedSender<String>, msg: String) -> (res: Result<(), ()>)
    ensures
        send_attempts(*final(tx)) == send_attempts(*old(tx)).push((msg@, res is Ok)),
        channel_of(*final(tx)) == channel_of(*old(tx)),
{
    match tx.send(msg) {
        Ok(()) => Ok(()),
        Err(_) => Err(()),
    }
}

/// `tokio::sync::mpsc::UnboundedSender::clone`: another handle on the same channel, through which
/// nothing was sent yet.
#[verifier::external_body]
fn clone_sender(tx: &UnboundedSender<String>) -> (copy: UnboundedSender<String>)
    ensures
        send_attempts(copy) == Seq::<(Seq<char>, bool)>::empty(),
        channel_of(copy) == channel_of(*tx),
{
    tx.clone()
}

/// A connection that is sent what happens in a lobby.
#[derive(Debug)]
pub struct WsConnection {
    conn_id: usize,
    tx: UnboundedSender<String>,
}

impl WsConnection {
    /// The number of the connection.
    pub closed spec fn id(self) -> usize {
        self.conn_id
    }

    /// What was sent to the connection so far, and for each message whether it was taken.
    pub closed spec fn sends(self) -> Seq<(Seq<char>, bool)> {
        send_attempts(self.tx)
    }

    /// The channel through which the connection is reached.
    pub closed spec fn channel(self) -> int {
        channel_of(self.tx)
    }

    /// The connection with number `conn_id`, reached through `tx`.
    pub fn new(conn_id: usize, tx: UnboundedSender<String>) -> (conn: Self)
        ensures
            conn.id() == conn_id,
            conn.sends() == send_attempts(tx),
            conn.channel() == channel_of(tx),
    {
        WsConnection { conn_id, tx }
    }

    /// Sends `msg` to the connection. It fails if nobody listens any more.
    pub fn send(&mut self, msg: String) -> (res: Result<(), ()>)
        ensures
            final(self).id() == old(self).id(),
            final(self).channel() == old(self).channel(),
            final(self).sends() == old(self).sends().push((msg@, res is Ok)),
    {
        channel_send(&mut self.tx, msg)
    }

    /// The same connection, through a handle of its own.
    pub fn share(&self) -> (conn: Self)
        ensures
            conn.id() == self.id(),
            conn.channel() == self.channel(),
            conn.sends() == Seq::<(Seq<char>, bool)>::empty(),
    {
        WsConnection { conn_id: self.conn_id, tx: clone_sender(&self.tx) }
    }
}

/// `after` is the connection `before` once `msg` was sent to it, and was taken or was not.
pub open spec fn was_sent(
    before: WsConnection,
    after: WsConnection,
    msg: Seq<char>,
    taken: bool,
) -> bool {
    &&& after.id() == before.id()
    &&& after.channel() == before.channel()
    &&& after.sends() == before.sends().push((msg, taken))
}

/// `from` picks for each of `after` the one of `before` that it was, and each of them once.
pub open spec fn picks(
    before: Seq<WsConnection>,
    after: Seq<WsConnection>,
    from: Seq<int>,
    msg: Seq<char>,
    taken: bool,
) -> bool {
    &&& from.len() == after.len()
    &&& from.no_duplicates()
    &&& forall|j: int|
        0 <= j < from.len() ==> 0 <= #[trigger] from[j] < before.len() && was_sent(
            before[from[j]],
            after[j],
            msg,
            taken,
        )
}

/// `msg` was sent once to each of `before`: `kept` are those that took it, `dropped` are the others.
pub open spec fn delivered(
    before: Seq<WsConnection>,
    kept: Seq<WsConnection>,
    dropped: Seq<WsConnection>,
    msg: Seq<char>,
) -> bool {
    exists|kept_from: Seq<int>, dropped_from: Seq<int>| #[trigger]
        delivered_from(before, kept, kept_from, dropped, dropped_from, msg)
}

/// As [`delivered`], with where each connection stood before.
pub open spec fn delivered_from(
    before: Seq<WsConnection>,
    kept: Seq<WsConnection>,
    kept_from: Seq<int>,
    dropped: Seq<WsConnection>,
    dropped_from: Seq<int>,
    msg: Seq<char>,
) -> bool {
    &&& kept.len() + dropped.len() == before.len()
    &&& picks(before, kept, kept_from, msg, true)
    &&& picks(before, dropped, dropped_from, msg, false)
    &&& forall|i: int, j: int|
        0 <= i < kept_from.len() && 0 <= j < dropped_from.len() ==> #[trigger] kept_from[i]
            != #[trigger] dropped_from[j]
}

/// Every connection was sent the message: it is one of those that took it, or one of those that did
/// not.
pub proof fn law_delivered_to_all(
    before: Seq<WsConnection>,
    kept: Seq<WsConnection>,
    kept_from: Seq<int>,
    dropped: Seq<WsConnection>,
    dropped_from: Seq<int>,
    msg: Seq<char>,
)
    requires
        delivered_from(before, kept, kept_from, dropped, dropped_from, msg),
    ensures
        forall|i: int|
            0 <= i < before.len() ==> #[trigger] kept_from.contains(i) || dropped_from.contains(i),
{
    let from = kept_from + dropped_from;
    let n = before.len() as int;
    lemma_no_dup_in_concat(kept_from, dropped_from);
    from.unique_seq_to_set();
    lemma_int_range(0, n);
    assert forall|i: int| from.to_set().contains(i) implies set_int_range(0, n).contains(i) by {
        let j = choose|j: int| 0 <= j < from.len() && from[j] == i;
        if j < kept_from.len() {
            assert(kept_from[j] == i);
        } else {
            assert(dropped_from[j - kept_from.len()] == i);
        }
    }
    lemma_subset_equality(from.to_set(), set_int_range(0, n));
    assert forall|i: int| 0 <= i < before.len() implies #[trigger] kept_from.contains(i)
        || dropped_from.contains(i) by {
        assert(from.to_set().contains(i));
        let j = choose|j: int| 0 <= j < from.len() && from[j] == i;
        if j < kept_from.len() {
            assert(kept_from[j] == i);
        } else {
            assert(dropped_from[j - kept_from.len()] == i);
        }
    }
}

/// Whoever was on the list was sent the message through their own channel. Who took it stays on the
/// list, and who did not is off it.
pub proof fn law_delivered_to_each(
    before: Seq<WsConnection>,
    kept: Seq<WsConnection>,
    dropped: Seq<WsConnection>,
    msg: Seq<char>,
    i: int,
)
    requires
        delivered(before, kept, dropped, msg),
        0 <= i < before.len(),
    ensures
        exists|conn: WsConnection, taken: bool|
            {
                &&& #[trigger] was_sent(before[i], conn, msg, taken)
                &&& conn.id() == before[i].id()
                &&& conn.channel() == before[i].channel()
                &&& conn.sends() == before[i].sends().push((msg, taken))
                &&& if taken {
                    kept.contains(conn)
                } else {
                    dropped.contains(conn)
                }
            },
{
    let (kept_from, dropped_from) = choose|kept_from: Seq<int>, dropped_from: Seq<int>| #[trigger]
        delivered_from(before, kept, kept_from, dropped, dropped_from, msg);
    law_delivered_to_all(before, kept, kept_from, dropped, dropped_from, msg);
    if kept_from.contains(i) {
        let j = choose|j: int| 0 <= j < kept_from.len() && kept_from[j] == i;
        assert(was_sent(before[kept_from[j]], kept[j], msg, true));
        assert(kept.contains(kept[j]));
    } else {
        assert(dropped_from.contains(i));
        let j = choose|j: int| 0 <= j < dropped_from.len() && dropped_from[j] == i;
        assert(was_sent(before[dropped_from[j]], dropped[j], msg, false));
        assert(dropped.contains(dropped[j]));
    }
}

/// Sends `msg` to each connection, and takes those that no longer listen off the list.
pub fn deliver(connections: &mut Vec<WsConnection>, msg: &String) -> (dropped: Vec<WsConnection>)
    ensures
        delivered(old(connections)@, final(connections)@, dropped@, msg@),
{
    let ghost before = connections@;
    let mut dropped: Vec<WsConnection> = Vec::new();
    let ghost mut from: Seq<int> = Seq::new(before.len(), |j: int| j);
    let ghost mut dropped_from: Seq<int> = Seq::empty();
    let mut i: usize = 0;
    while i < connections.len()
        invariant
            i <= connections@.len(),
            connections@.len() + dropped@.len() == before.len(),
            from.len() == connections@.len(),
            from.no_duplicates(),
            forall|j: int|
                0 <= j < from.len() ==> 0 <= #[trigger] from[j] < before.len() && if j < i {
                    was_sent(before[from[j]], connections@[j], msg@, true)
                } else {
                    connections@[j] == before[from[j]]
                },
            picks(before, dropped@, dropped_from, msg@, false),
            forall|a: int, b: int|
                0 <= a < from.len() && 0 <= b < dropped_from.len() ==> #[trigger] from[a]
                    != #[trigger] dropped_from[b],
        decreases connections@.len() - i,
    {
        let ghost earlier = connections@;
        let ghost was = from[i as int];
        if connections[i].send(msg.clone()).is_ok() {
            assert(was_sent(before[was], connections@[i as int], msg@, true));
            i += 1;
        } else {
            assert(was_sent(before[was], connections@[i as int], msg@, false));
            // connection dropped, remove it from the list
            let gone = connections.swap_remove(i);
            dropped.push(gone);
            proof {
                let earlier_from = from;
                dropped_from = dropped_from.push(was);
                from = from.update(i as int, from.last()).drop_last();
                assert forall|j: int| 0 <= j < from.len() implies from[j] == earlier_from[if j == i {
                    earlier_from.len() - 1
                } else {
                    j
                }] by {}
            }
        }
    }
    proof {
        assert(picks(before, connections@, from, msg@, true));
        assert(delivered_from(before, connections@, from, dropped@, dropped_from, msg@));
    }
    dropped
}

/// A connection that was sent something is the same connection, and was sent that last.
pub proof fn law_was_sent(before: WsConnection, after: WsConnection, msg: Seq<char>, taken: bool)
    ensures
        was_sent(before, after, msg, taken) <==> {
            &&& after.id() == before.id()
            &&& after.channel() == before.channel()
            &&& after.sends() == before.sends().push((msg, taken))
        },
{
}

/// Nobody is lost and nobody comes in when something is delivered: whoever is still on the list was on it and
/// took the message, whoever is off it was on it and did not take the message, and there are as many of them
/// as before.
pub proof fn law_delivered_from_listed(
    before: Seq<WsConnection>,
    kept: Seq<WsConnection>,
    dropped: Seq<WsConnection>,
    msg: Seq<char>,
    j: int,
)
    requires
        delivered(before, kept, dropped, msg),
    ensures
        kept.len() + dropped.len() == before.len(),
        0 <= j < kept.len() ==> exists|i: int|
            0 <= i < before.len() && {
                &&& (#[trigger] before[i]).id() == kept[j].id()
                &&& before[i].channel() == kept[j].channel()
                &&& kept[j].sends() == before[i].sends().push((msg, true))
            },
        0 <= j < dropped.len() ==> exists|i: int|
            0 <= i < before.len() && {
                &&& (#[trigger] before[i]).id() == dropped[j].id()
                &&& before[i].channel() == dropped[j].channel()
                &&& dropped[j].sends() == before[i].sends().push((msg, false))
            },
{
    let (kept_from, dropped_from) = choose|kept_from: Seq<int>, dropped_from: Seq<int>| #[trigger]
        delivered_from(before, kept, kept_from, dropped, dropped_from, msg);
    if 0 <= j < kept.len() {
        assert(was_sent(before[kept_from[j]], kept[j], msg, true));
    }
    if 0 <= j < dropped.len() {
        assert(was_sent(before[dropped_from[j]], dropped[j], msg, false));
    }
}

} // verus!
