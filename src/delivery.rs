//! What the hub guarantees about delivery, stated over its transition
//! functions and proved.
use vstd::prelude::*;

use crate::hub::{evict_all, round, step, Event, HubView};
use crate::registry::{lemma_without_contains, lemma_without_no_duplicates, without};

verus! {

/// The identifiers `0 .. n`, in order.
pub open spec fn first_ids(n: nat) -> Seq<u64> {
    Seq::new(n, |i: int| i as u64)
}

/// The state after `n` accepted connections.
pub open spec fn accept_many(s: HubView, n: nat) -> HubView
    decreases n,
{
    if n == 0 {
        s
    } else {
        step(accept_many(s, (n - 1) as nat), Event::Accepted).0
    }
}

/// The state after `k` broadcast rounds in a row, with no event between them.
pub open spec fn rounds_after(s: HubView, k: nat) -> HubView
    decreases k,
{
    if k == 0 {
        s
    } else {
        round(rounds_after(s, (k - 1) as nat)).0
    }
}

/// From a fresh hub, `n` accepts register the identifiers `0 .. n` in order.
pub proof fn lemma_accept_many(n: nat)
    requires
        n <= u64::MAX,
    ensures
        accept_many(HubView::initial(), n) == (HubView {
            conns: first_ids(n),
            pending: Seq::empty(),
            next_id: n as u64,
        }),
    decreases n,
{
    if n > 0 {
        lemma_accept_many((n - 1) as nat);
        assert(first_ids((n - 1) as nat).push((n - 1) as u64) =~= first_ids(n));
    } else {
        assert(first_ids(0) =~= Seq::<u64>::empty());
    }
}

/// Rounds with no event between them take the waiting messages front to back
/// and leave the connections alone.
pub proof fn lemma_rounds_after(s: HubView, k: nat)
    requires
        k <= s.pending.len(),
    ensures
        rounds_after(s, k) == (HubView {
            conns: s.conns,
            pending: s.pending.subrange(k as int, s.pending.len() as int),
            next_id: s.next_id,
        }),
    decreases k,
{
    if k == 0 {
        assert(s.pending.subrange(0, s.pending.len() as int) =~= s.pending);
    } else {
        lemma_rounds_after(s, (k - 1) as nat);
        let prev = s.pending.subrange(k - 1, s.pending.len() as int);
        assert(prev.drop_first() =~= s.pending.subrange(k as int, s.pending.len() as int));
    }
}

/// The `k`-th round from `s` broadcasts the `k`-th waiting message to every
/// live connection.
pub proof fn lemma_rounds_in_order(s: HubView, k: nat)
    requires
        k < s.pending.len(),
    ensures
        round(rounds_after(s, k)).1 == Some((s.pending[k as int], s.conns)),
{
    lemma_rounds_after(s, k);
}

/// After `n` clients connect to a fresh hub and one of them sends `m`, the next
/// round writes `m` to all `n` connections, the sender included, each exactly
/// once.
pub proof fn lemma_broadcast_reaches_every_connection(n: nat, sender: u64, m: String)
    requires
        n <= u64::MAX,
        sender < n,
    ensures
        round(step(accept_many(HubView::initial(), n), Event::Received(sender, m)).0).1 == Some(
            (m, first_ids(n)),
        ),
        first_ids(n).no_duplicates(),
        forall|c: u64| c < n ==> #[trigger] first_ids(n).contains(c),
{
    lemma_accept_many(n);
    assert(first_ids(n)[sender as int] == sender);
    assert forall|c: u64| c < n implies #[trigger] first_ids(n).contains(c) by {
        assert(first_ids(n)[c as int] == c);
    }
    let s = step(accept_many(HubView::initial(), n), Event::Received(sender, m)).0;
    assert(s.pending =~= seq![m]);
}

/// Two messages received from live connections `a` and `b` (the same one or
/// two different ones), in that order, are each broadcast to every live
/// connection, after the messages that were already waiting, and the first
/// in an earlier round than the second.
pub proof fn lemma_messages_broadcast_in_order(
    s: HubView,
    a: u64,
    b: u64,
    m1: String,
    m2: String,
)
    requires
        s.wf(),
        s.conns.contains(a),
        s.conns.contains(b),
    ensures
        ({
            let t = step(step(s, Event::Received(a, m1)).0, Event::Received(b, m2)).0;
            let k = s.pending.len();
            &&& round(rounds_after(t, k)).1 == Some((m1, s.conns))
            &&& round(rounds_after(t, k + 1)).1 == Some((m2, s.conns))
        }),
{
    let t = step(step(s, Event::Received(a, m1)).0, Event::Received(b, m2)).0;
    let k = s.pending.len();
    assert(t.pending =~= s.pending.push(m1).push(m2));
    lemma_rounds_in_order(t, k);
    lemma_rounds_in_order(t, k + 1);
}

/// A connection that went away before a round does not keep the others from
/// getting its message: the round goes to exactly the connections that are
/// still there, each once.
pub proof fn lemma_departure_does_not_block(s: HubView, gone: u64, sender: u64, m: String)
    requires
        s.wf(),
        s.pending.len() == 0,
        s.conns.contains(sender),
        sender != gone,
    ensures
        ({
            let t = step(step(s, Event::ReadFailed(gone)).0, Event::Received(sender, m)).0;
            &&& round(t).1 == Some((m, without(s.conns, gone)))
            &&& without(s.conns, gone).no_duplicates()
            &&& forall|c: u64| #[trigger]
                without(s.conns, gone).contains(c) <==> (s.conns.contains(c) && c != gone)
        }),
{
    lemma_without_contains(s.conns, gone, sender);
    assert forall|c: u64| #[trigger]
        without(s.conns, gone).contains(c) <==> (s.conns.contains(c) && c != gone) by {
        lemma_without_contains(s.conns, gone, c);
    }
    let u = step(s, Event::ReadFailed(gone)).0;
    lemma_without_no_duplicates(s.conns, gone);
    let t = step(u, Event::Received(sender, m)).0;
    assert(t.pending =~= seq![m]);
}

/// Failed writes in a round evict exactly the connections they went to: a
/// connection stays if and only if it was live and no write to it failed.
pub proof fn lemma_failed_writes_evict_only_failed(conns: Seq<u64>, failed: Seq<u64>, c: u64)
    ensures
        evict_all(conns, failed).contains(c) <==> (conns.contains(c) && !failed.contains(c)),
    decreases failed.len(),
{
    if failed.len() > 0 {
        let rest = failed.drop_last();
        lemma_failed_writes_evict_only_failed(conns, rest, c);
        lemma_without_contains(evict_all(conns, rest), failed.last(), c);
        assert(failed =~= rest.push(failed.last()));
        if rest.contains(c) {
            let k = choose|k: int| 0 <= k < rest.len() && rest[k] == c;
            assert(failed[k] == c);
        }
        if failed.contains(c) && c != failed.last() {
            let k = choose|k: int| 0 <= k < failed.len() && failed[k] == c;
            assert(rest[k] == c);
        }
    }
}

} // verus!
