//! The per-service bridge for event traffic: bursts of event identifiers
//! drained from the connector's local listener are consolidated into the
//! set of distinct identifiers before crossing the wire, and received
//! identifiers are injected through the connector's local notifier.

use crate::table::TunneledServiceTable;
use vstd::prelude::*;

verus! {

/// An event notification observed on the local bus, tagged with the
/// port identifier of the notifier that raised it.
#[derive(Clone, Copy, PartialEq, Eq, Structural, Debug)]
pub struct EventNotice {
    pub origin: u64,
    pub id: u64,
}

/// An event notification on the wire, tagged with the session that sent
/// it. The wire delivers a message to every session but the originating
/// one.
#[derive(Clone, Copy, PartialEq, Eq, Structural, Debug)]
pub struct WireEvent {
    pub origin: u64,
    pub id: u64,
}

/// The distinct identifiers of `ids` not yet in `seen`, first occurrence
/// only, in arrival order.
pub open spec fn spec_distinct_ids(ids: Seq<u64>, seen: Seq<u64>) -> Seq<u64>
    decreases ids.len(),
{
    if ids.len() == 0 {
        Seq::empty()
    } else {
        let x = ids.first();
        let rest = ids.drop_first();
        if seen.contains(x) {
            spec_distinct_ids(rest, seen)
        } else {
            seq![x] + spec_distinct_ids(rest, seen.push(x))
        }
    }
}

/// Consolidation is exact: the result repeats no identifier, avoids the
/// seen set, and covers precisely the unseen identifiers of the input.
pub proof fn lemma_distinct_ids_exact(ids: Seq<u64>, seen: Seq<u64>)
    ensures
        spec_distinct_ids(ids, seen).no_duplicates(),
        forall|j: int|
            0 <= j < spec_distinct_ids(ids, seen).len() ==> !seen.contains(
                #[trigger] spec_distinct_ids(ids, seen)[j],
            ),
        forall|x: u64|
            spec_distinct_ids(ids, seen).contains(x) <==> (ids.contains(x) && !seen.contains(x)),
    decreases ids.len(),
{
    broadcast use vstd::seq_lib::group_seq_properties;

    let out = spec_distinct_ids(ids, seen);
    if ids.len() > 0 {
        let x0 = ids.first();
        let rest = ids.drop_first();
        assert(ids =~= seq![x0] + rest);
        if seen.contains(x0) {
            lemma_distinct_ids_exact(rest, seen);
            assert forall|x: u64| ids.contains(x) implies (x == x0 || rest.contains(x)) by {
                let i = choose|i: int| 0 <= i < ids.len() && ids[i] == x;
                if i > 0 {
                    assert(rest[i - 1] == x);
                }
            }
        } else {
            lemma_distinct_ids_exact(rest, seen.push(x0));
            let sub = spec_distinct_ids(rest, seen.push(x0));
            assert(out =~= seq![x0] + sub);
            assert(seen.push(x0)[seen.len() as int] == x0);
            assert forall|x: u64| seen.push(x0).contains(x) implies (seen.contains(x) || x
                == x0) by {
                let i = choose|i: int|
                    0 <= i < seen.push(x0).len() && seen.push(x0)[i] == x;
                if i < seen.len() {
                    assert(seen[i] == x);
                }
            }
            assert forall|x: u64| ids.contains(x) implies (x == x0 || rest.contains(x)) by {
                let i = choose|i: int| 0 <= i < ids.len() && ids[i] == x;
                if i > 0 {
                    assert(rest[i - 1] == x);
                }
            }
            assert(out[0] == x0);
            assert forall|j: int| 1 <= j < out.len() implies out[j] != x0 by {
                assert(out[j] == sub[j - 1]);
                assert(!seen.push(x0).contains(sub[j - 1]));
            }
            assert forall|x: u64| out.contains(x) implies (ids.contains(x) && !seen.contains(
                x,
            )) by {
                let j = choose|j: int| 0 <= j < out.len() && out[j] == x;
                if j == 0 {
                    assert(ids[0] == x);
                } else {
                    assert(sub[j - 1] == x);
                }
            }
        }
    }
}

/// Consolidation emits one notification per distinct identifier: for a
/// burst whose distinct-identifier set is D, the wire receives exactly
/// |D| notifications, covering D.
pub proof fn lemma_consolidated_count(ids: Seq<u64>)
    ensures
        spec_distinct_ids(ids, Seq::empty()).len() == ids.to_set().len(),
        spec_distinct_ids(ids, Seq::empty()).to_set() == ids.to_set(),
{
    lemma_distinct_ids_exact(ids, Seq::empty());
    let out = spec_distinct_ids(ids, Seq::empty());
    out.unique_seq_to_set();
    assert(out.to_set() =~= ids.to_set());
}

/// The per-service event bridge. It owns a local listener and a local
/// notifier on the bridged service (both under `local_endpoint_id`) and
/// a wire publisher and subscriber on the service's event key (under
/// `wire_session_id`).
#[derive(Clone, Copy, PartialEq, Eq, Structural, Debug)]
pub struct EventConnector {
    pub fingerprint: u64,
    /// The greatest event identifier the bridged service admits.
    pub greatest_event_id: u64,
    /// The port identifier of the connector's own local notifier: its
    /// loopback mark on the local bus.
    pub local_endpoint_id: u64,
    /// The wire session the connector publishes through: its loopback
    /// mark on the wire.
    pub wire_session_id: u64,
    /// How many notifications could not be relayed; counted, never
    /// surfaced.
    pub failed_relays: u64,
}

impl EventConnector {
    /// The genuine event identifiers of one drain: notifications the
    /// connector did not itself inject, in arrival order.
    pub open spec fn spec_genuine_ids(self, drained: Seq<EventNotice>) -> Seq<u64> {
        drained.filter(|n: EventNotice| n.origin != self.local_endpoint_id).map_values(
            |n: EventNotice| n.id,
        )
    }

    /// What one drain of the local listener sends to the wire: each
    /// distinct genuine identifier exactly once, whatever the burst.
    pub open spec fn spec_outbound(self, drained: Seq<EventNotice>) -> Seq<WireEvent> {
        spec_distinct_ids(self.spec_genuine_ids(drained), Seq::empty()).map_values(
            |id: u64| WireEvent { origin: self.wire_session_id, id },
        )
    }

    /// Whether a wire event is injected locally: it must come from a
    /// foreign session and carry an identifier the service admits.
    pub open spec fn spec_deliverable(self, w: WireEvent) -> bool {
        w.origin != self.wire_session_id && w.id <= self.greatest_event_id
    }

    /// What one poll of the wire subscriber raises on the local
    /// notifier: every deliverable wire event in order, without
    /// consolidation, stamped with the connector's own notifier
    /// identifier.
    pub open spec fn spec_inbound(self, received: Seq<WireEvent>) -> Seq<EventNotice> {
        received.filter(|w: WireEvent| self.spec_deliverable(w)).map_values(
            |w: WireEvent| EventNotice { origin: self.local_endpoint_id, id: w.id },
        )
    }

    /// How many polled wire events were dropped for carrying an
    /// identifier outside the service's range.
    pub open spec fn spec_inbound_dropped(self, received: Seq<WireEvent>) -> nat {
        received.filter(
            |w: WireEvent| w.origin != self.wire_session_id && w.id > self.greatest_event_id,
        ).len()
    }

    /// A connector for one service.
    pub fn create(
        fingerprint: u64,
        greatest_event_id: u64,
        local_endpoint_id: u64,
        wire_session_id: u64,
    ) -> (r: Self)
        ensures
            r == (EventConnector {
                fingerprint,
                greatest_event_id,
                local_endpoint_id,
                wire_session_id,
                failed_relays: 0u64,
            }),
    {
        EventConnector {
            fingerprint,
            greatest_event_id,
            local_endpoint_id,
            wire_session_id,
            failed_relays: 0,
        }
    }

    /// Consolidates one drain of the local listener onto the wire.
    pub fn relay_outbound(&self, drained: &Vec<EventNotice>) -> (out: Vec<WireEvent>)
        ensures
            out@ == self.spec_outbound(drained@),
    {
        let ghost genuine = self.spec_genuine_ids(drained@);
        let mut ids: Vec<u64> = Vec::new();
        let mut i: usize = 0;
        proof {
            reveal(Seq::filter);
            assert(drained@.take(0) =~= Seq::<EventNotice>::empty());
            assert(ids@ =~= self.spec_genuine_ids(drained@.take(0)));
        }
        while i < drained.len()
            invariant
                i <= drained.len(),
                ids@ == self.spec_genuine_ids(drained@.take(i as int)),
            decreases drained.len() - i,
        {
            let n = drained[i];
            proof {
                reveal(Seq::filter);
                assert(drained@.take(i as int + 1).drop_last() =~= drained@.take(i as int));
                assert(drained@.take(i as int + 1).last() == drained@[i as int]);
            }
            if n.origin != self.local_endpoint_id {
                ids.push(n.id);
                proof {
                    assert(ids@ =~= self.spec_genuine_ids(drained@.take(i as int + 1)));
                }
            } else {
                proof {
                    assert(ids@ =~= self.spec_genuine_ids(drained@.take(i as int + 1)));
                }
            }
            i = i + 1;
        }
        proof {
            assert(drained@.take(drained@.len() as int) =~= drained@);
        }
        let mut seen = TunneledServiceTable::new();
        let mut out: Vec<WireEvent> = Vec::new();
        let mut k: usize = 0;
        proof {
            assert(ids@.skip(0) =~= ids@);
            assert(out@ =~= Seq::<u64>::empty().map_values(
                |id: u64| WireEvent { origin: self.wire_session_id, id },
            ));
        }
        while k < ids.len()
            invariant
                k <= ids.len(),
                ids@ == genuine,
                seen.wf(),
                spec_distinct_ids(genuine, Seq::empty()).map_values(
                    |id: u64| WireEvent { origin: self.wire_session_id, id },
                ) == out@ + spec_distinct_ids(genuine.skip(k as int), seen@).map_values(
                    |id: u64| WireEvent { origin: self.wire_session_id, id },
                ),
            decreases ids.len() - k,
        {
            let x = ids[k];
            proof {
                assert(genuine.skip(k as int).first() == genuine[k as int]);
                assert(genuine.skip(k as int).drop_first() =~= genuine.skip(k as int + 1));
            }
            let newly = seen.insert(x);
            if newly {
                let ghost before = out@;
                out.push(WireEvent { origin: self.wire_session_id, id: x });
                proof {
                    let m = |id: u64| WireEvent { origin: self.wire_session_id, id };
                    assert((seq![x] + spec_distinct_ids(genuine.skip(k as int + 1), seen@))
                        .map_values(m) =~= seq![m(x)] + spec_distinct_ids(
                        genuine.skip(k as int + 1),
                        seen@,
                    ).map_values(m));
                    assert(out@ + spec_distinct_ids(genuine.skip(k as int + 1), seen@).map_values(m)
                        =~= before + (seq![m(x)] + spec_distinct_ids(
                        genuine.skip(k as int + 1),
                        seen@,
                    ).map_values(m)));
                }
            }
            k = k + 1;
        }
        proof {
            assert(genuine.skip(ids@.len() as int) =~= Seq::<u64>::empty());
            assert(out@ + Seq::<u64>::empty().map_values(
                |id: u64| WireEvent { origin: self.wire_session_id, id },
            ) =~= out@);
        }
        out
    }

    /// Relays one poll of the wire subscriber onto the local notifier.
    /// An identifier outside the service's range is counted as a failed
    /// relay and skipped; the poll continues with the next event.
    pub fn relay_inbound(&mut self, received: &Vec<WireEvent>) -> (out: Vec<EventNotice>)
        ensures
            out@ == old(self).spec_inbound(received@),
            *final(self) == (EventConnector {
                failed_relays: crate::payload::spec_saturating_add(
                    old(self).failed_relays,
                    old(self).spec_inbound_dropped(received@),
                ),
                ..*old(self)
            }),
    {
        let ghost me = *self;
        let mut out: Vec<EventNotice> = Vec::new();
        let mut dropped: u64 = 0;
        let mut i: usize = 0;
        proof {
            reveal(Seq::filter);
            assert(received@.take(0) =~= Seq::<WireEvent>::empty());
            assert(out@ =~= me.spec_inbound(received@.take(0)));
        }
        while i < received.len()
            invariant
                i <= received.len(),
                *self == me,
                out@ == me.spec_inbound(received@.take(i as int)),
                dropped == me.spec_inbound_dropped(received@.take(i as int)),
                dropped <= i,
            decreases received.len() - i,
        {
            let w = received[i];
            proof {
                reveal(Seq::filter);
                assert(received@.take(i as int + 1).drop_last() =~= received@.take(i as int));
                assert(received@.take(i as int + 1).last() == received@[i as int]);
            }
            if w.origin != self.wire_session_id {
                if w.id <= self.greatest_event_id {
                    out.push(EventNotice { origin: self.local_endpoint_id, id: w.id });
                    proof {
                        assert(out@ =~= me.spec_inbound(received@.take(i as int + 1)));
                    }
                } else {
                    dropped = dropped + 1;
                    proof {
                        assert(out@ =~= me.spec_inbound(received@.take(i as int + 1)));
                    }
                }
            } else {
                proof {
                    assert(out@ =~= me.spec_inbound(received@.take(i as int + 1)));
                }
            }
            i = i + 1;
        }
        proof {
            assert(received@.take(received@.len() as int) =~= received@);
        }
        if dropped > u64::MAX - self.failed_relays {
            self.failed_relays = u64::MAX;
        } else {
            self.failed_relays = self.failed_relays + dropped;
        }
        out
    }

    /// Drains both directions once. Neither direction can block; a
    /// failed notification is counted and skipped, never aborting the
    /// cycle.
    pub fn propagate(&mut self, drained: &Vec<EventNotice>, received: &Vec<WireEvent>) -> (r: (
        Vec<WireEvent>,
        Vec<EventNotice>,
    ))
        ensures
            r.0@ == old(self).spec_outbound(drained@),
            r.1@ == old(self).spec_inbound(received@),
            *final(self) == (EventConnector {
                failed_relays: crate::payload::spec_saturating_add(
                    old(self).failed_relays,
                    old(self).spec_inbound_dropped(received@),
                ),
                ..*old(self)
            }),
    {
        let to_wire = self.relay_outbound(drained);
        let to_local = self.relay_inbound(received);
        (to_wire, to_local)
    }
}

/// Every element kept by a filter is an element of the source.
proof fn lemma_filter_provenance<A>(s: Seq<A>, pred: spec_fn(A) -> bool)
    ensures
        forall|j: int|
            0 <= j < s.filter(pred).len() ==> s.contains(#[trigger] s.filter(pred)[j]),
    decreases s.len(),
{
    reveal(Seq::filter);
    if s.len() > 0 {
        lemma_filter_provenance(s.drop_last(), pred);
        assert forall|j: int|
            0 <= j < s.filter(pred).len() implies s.contains(#[trigger] s.filter(pred)[j]) by {
            broadcast use vstd::seq_lib::group_seq_properties;

            if j < s.drop_last().filter(pred).len() {
                assert(s.drop_last().contains(s.drop_last().filter(pred)[j]));
                let i = choose|i: int|
                    0 <= i < s.drop_last().len() && s.drop_last()[i] == s.filter(pred)[j];
                assert(s[i] == s.filter(pred)[j]);
            } else {
                assert(s.filter(pred)[j] == s.last());
            }
        }
    }
}

/// No sequence element satisfies the predicate, so the filter is empty.
proof fn lemma_filter_none<A>(s: Seq<A>, pred: spec_fn(A) -> bool)
    requires
        forall|i: int| 0 <= i < s.len() ==> !pred(#[trigger] s[i]),
    ensures
        s.filter(pred) == Seq::<A>::empty(),
    decreases s.len(),
{
    reveal(Seq::filter);
    if s.len() > 0 {
        assert(forall|i: int| 0 <= i < s.drop_last().len() ==> !pred(#[trigger] s.drop_last()[i]));
        lemma_filter_none(s.drop_last(), pred);
        assert(!pred(s.last()));
    }
}

/// No loopback for events: everything a connector raises on the local
/// notifier carries its own notifier identifier, and a following drain
/// relays none of it back to the wire. A notification that crossed the
/// tunnel once can never cross it again through the same connector.
pub proof fn lemma_no_event_loopback(c: EventConnector, received: Seq<WireEvent>)
    ensures
        forall|i: int|
            0 <= i < c.spec_inbound(received).len() ==> (#[trigger] c.spec_inbound(
                received,
            )[i]).origin == c.local_endpoint_id,
        c.spec_outbound(c.spec_inbound(received)) == Seq::<WireEvent>::empty(),
{
    let injected = c.spec_inbound(received);
    assert forall|i: int|
        0 <= i < injected.len() implies (#[trigger] injected[i]).origin
        == c.local_endpoint_id by {
        broadcast use vstd::seq_lib::group_seq_properties;

    }
    lemma_filter_none(injected, |n: EventNotice| n.origin != c.local_endpoint_id);
    assert(c.spec_genuine_ids(injected).len() == 0);
    assert(c.spec_outbound(injected) =~= Seq::<WireEvent>::empty());
}

/// Event consolidation across the wire: what a peer connector of a
/// distinct session raises locally after one exchange is exactly the set
/// of distinct genuine identifiers drained at the origin — each one
/// once, provided the two services admit the same identifier range.
pub proof fn lemma_event_consolidation(
    a: EventConnector,
    b: EventConnector,
    drained: Seq<EventNotice>,
)
    requires
        a.wire_session_id != b.wire_session_id,
        a.greatest_event_id == b.greatest_event_id,
        forall|i: int|
            0 <= i < drained.len() ==> (#[trigger] drained[i]).id <= a.greatest_event_id,
    ensures
        b.spec_inbound(a.spec_outbound(drained)).map_values(|n: EventNotice| n.id)
            == spec_distinct_ids(a.spec_genuine_ids(drained), Seq::empty()),
        b.spec_inbound(a.spec_outbound(drained)).map_values(
            |n: EventNotice| n.id,
        ).no_duplicates(),
        forall|x: u64|
            spec_distinct_ids(a.spec_genuine_ids(drained), Seq::empty()).contains(x) <==> (
            a.spec_genuine_ids(drained).contains(x)),
{
    broadcast use vstd::seq_lib::group_seq_properties;

    let genuine = a.spec_genuine_ids(drained);
    let consolidated = spec_distinct_ids(genuine, Seq::empty());
    lemma_distinct_ids_exact(genuine, Seq::empty());
    let kept = drained.filter(|n: EventNotice| n.origin != a.local_endpoint_id);
    lemma_filter_provenance(drained, |n: EventNotice| n.origin != a.local_endpoint_id);
    assert forall|j: int|
        0 <= j < consolidated.len() implies #[trigger] consolidated[j]
        <= a.greatest_event_id by {
        assert(consolidated.contains(consolidated[j]));
        assert(genuine.contains(consolidated[j]));
        let i = choose|i: int| 0 <= i < genuine.len() && genuine[i] == consolidated[j];
        assert(genuine[i] == kept[i].id);
        assert(drained.contains(kept[i]));
        let k = choose|k: int| 0 <= k < drained.len() && drained[k] == kept[i];
        assert(drained[k].id <= a.greatest_event_id);
    }
    let sent = a.spec_outbound(drained);
    assert forall|j: int| 0 <= j < sent.len() implies b.spec_deliverable(#[trigger] sent[j]) by {
        assert(sent[j] == WireEvent { origin: a.wire_session_id, id: consolidated[j] });
    }
    let raised = b.spec_inbound(sent);
    assert(sent.filter(|w: WireEvent| b.spec_deliverable(w)) =~= sent) by {
        lemma_filter_all(sent, |w: WireEvent| b.spec_deliverable(w));
    }
    assert(raised.map_values(|n: EventNotice| n.id) =~= consolidated);
}

/// Every sequence element satisfies the predicate, so the filter keeps
/// all of them.
proof fn lemma_filter_all<A>(s: Seq<A>, pred: spec_fn(A) -> bool)
    requires
        forall|i: int| 0 <= i < s.len() ==> pred(#[trigger] s[i]),
    ensures
        s.filter(pred) == s,
    decreases s.len(),
{
    reveal(Seq::filter);
    if s.len() > 0 {
        assert(forall|i: int| 0 <= i < s.drop_last().len() ==> pred(#[trigger] s.drop_last()[i]));
        lemma_filter_all(s.drop_last(), pred);
        assert(pred(s.last()));
        assert(s.drop_last().push(s.last()) =~= s);
    }
}

} // verus!
