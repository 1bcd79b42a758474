//! The per-service bridge for publish-subscribe traffic: samples drained
//! from the connector's local subscriber go to the wire, and wire samples
//! are injected through the connector's local publisher — with loopback
//! suppression in both directions and byte-exact payloads.

use crate::descriptor::PayloadShape;
use vstd::prelude::*;

verus! {

/// A payload sample on the local bus, tagged with the port identifier of
/// the publisher that emitted it. The identifier is what lets a
/// connector tell its own injections apart from genuine local traffic.
pub struct LocalSample {
    pub origin: u64,
    pub payload: Vec<u8>,
}

/// The mathematical value of a [`LocalSample`].
pub struct LocalSampleView {
    pub origin: u64,
    pub payload: Seq<u8>,
}

impl View for LocalSample {
    type V = LocalSampleView;

    open spec fn view(&self) -> LocalSampleView {
        LocalSampleView { origin: self.origin, payload: self.payload@ }
    }
}

/// A payload message on the wire, tagged with the session that sent it.
/// The wire delivers a message to every session but the originating one.
pub struct WireSample {
    pub origin: u64,
    pub payload: Vec<u8>,
}

/// The mathematical value of a [`WireSample`].
pub struct WireSampleView {
    pub origin: u64,
    pub payload: Seq<u8>,
}

impl View for WireSample {
    type V = WireSampleView;

    open spec fn view(&self) -> WireSampleView {
        WireSampleView { origin: self.origin, payload: self.payload@ }
    }
}

/// The mathematical values of a sequence of local samples.
pub open spec fn local_views(s: Seq<LocalSample>) -> Seq<LocalSampleView> {
    s.map_values(|x: LocalSample| x@)
}

/// The mathematical values of a sequence of wire samples.
pub open spec fn wire_views(s: Seq<WireSample>) -> Seq<WireSampleView> {
    s.map_values(|x: WireSample| x@)
}

/// The per-service payload bridge. It owns a local subscriber and a
/// local publisher on the bridged service (both under
/// `local_endpoint_id`) and a wire publisher and subscriber on the
/// service's payload key (under `wire_session_id`).
#[derive(Clone, Copy, PartialEq, Eq, Structural, Debug)]
pub struct PayloadConnector {
    pub fingerprint: u64,
    pub shape: PayloadShape,
    /// The byte size of one record, for fixed-shape payloads.
    pub payload_size: u64,
    /// The greatest slice length the connector can loan locally.
    pub max_slice_len: u64,
    /// The port identifier of the connector's own local endpoints: its
    /// loopback mark on the local bus.
    pub local_endpoint_id: u64,
    /// The wire session the connector publishes through: its loopback
    /// mark on the wire.
    pub wire_session_id: u64,
    /// How many samples could not be relayed; counted, never surfaced.
    pub failed_relays: u64,
}

impl PayloadConnector {
    /// Whether a local slot of the given length can be loaned and
    /// filled for this service.
    pub open spec fn spec_accepts(self, len: nat) -> bool {
        match self.shape {
            PayloadShape::Fixed => len == self.payload_size,
            PayloadShape::Slice => len <= self.max_slice_len,
        }
    }

    /// What one drain of the local subscriber sends to the wire: every
    /// drained sample that the connector did not itself inject, in FIFO
    /// order, its payload bytes unchanged.
    pub open spec fn spec_outbound(self, drained: Seq<LocalSampleView>) -> Seq<WireSampleView> {
        drained.filter(|s: LocalSampleView| s.origin != self.local_endpoint_id).map_values(
            |s: LocalSampleView| WireSampleView { origin: self.wire_session_id, payload: s.payload },
        )
    }

    /// Whether a wire sample is injected locally: it must come from a
    /// foreign session and fit a loanable slot.
    pub open spec fn spec_deliverable(self, w: WireSampleView) -> bool {
        w.origin != self.wire_session_id && self.spec_accepts(w.payload.len())
    }

    /// What one poll of the wire subscriber injects into the local bus:
    /// every deliverable wire sample, in FIFO order, its payload bytes
    /// unchanged, stamped with the connector's own endpoint identifier.
    pub open spec fn spec_inbound(self, received: Seq<WireSampleView>) -> Seq<LocalSampleView> {
        received.filter(|w: WireSampleView| self.spec_deliverable(w)).map_values(
            |w: WireSampleView| LocalSampleView {
                origin: self.local_endpoint_id,
                payload: w.payload,
            },
        )
    }

    /// How many polled wire samples were dropped for not fitting a
    /// loanable slot.
    pub open spec fn spec_inbound_dropped(self, received: Seq<WireSampleView>) -> nat {
        received.filter(
            |w: WireSampleView| w.origin != self.wire_session_id && !self.spec_accepts(
                w.payload.len(),
            ),
        ).len()
    }

    /// A connector for one service.
    pub fn create(
        fingerprint: u64,
        shape: PayloadShape,
        payload_size: u64,
        max_slice_len: u64,
        local_endpoint_id: u64,
        wire_session_id: u64,
    ) -> (r: Self)
        ensures
            r == (PayloadConnector {
                fingerprint,
                shape,
                payload_size,
                max_slice_len,
                local_endpoint_id,
                wire_session_id,
                failed_relays: 0u64,
            }),
    {
        PayloadConnector {
            fingerprint,
            shape,
            payload_size,
            max_slice_len,
            local_endpoint_id,
            wire_session_id,
            failed_relays: 0,
        }
    }

    /// Relays one drain of the local subscriber onto the wire.
    pub fn relay_outbound(&self, drained: &Vec<LocalSample>) -> (out: Vec<WireSample>)
        ensures
            wire_views(out@) == self.spec_outbound(local_views(drained@)),
    {
        let ghost dvs = local_views(drained@);
        let mut out: Vec<WireSample> = Vec::new();
        let mut i: usize = 0;
        proof {
            reveal(Seq::filter);
            assert(dvs.take(0) =~= Seq::<LocalSampleView>::empty());
            assert(wire_views(out@) =~= self.spec_outbound(dvs.take(0)));
        }
        while i < drained.len()
            invariant
                i <= drained.len(),
                dvs == local_views(drained@),
                dvs.len() == drained.len(),
                wire_views(out@) == self.spec_outbound(dvs.take(i as int)),
            decreases drained.len() - i,
        {
            let s = &drained[i];
            proof {
                reveal(Seq::filter);
                assert(dvs.take(i as int + 1).drop_last() =~= dvs.take(i as int));
                assert(dvs.take(i as int + 1).last() == dvs[i as int]);
                assert(dvs[i as int] == drained@[i as int]@);
            }
            if s.origin != self.local_endpoint_id {
                let ghost before = out@;
                let payload = vstd::slice::slice_to_vec(s.payload.as_slice());
                out.push(WireSample { origin: self.wire_session_id, payload });
                proof {
                    assert(wire_views(out@) =~= wire_views(before).push(out@.last()@));
                    assert(wire_views(out@) =~= self.spec_outbound(dvs.take(i as int + 1)));
                }
            } else {
                proof {
                    assert(wire_views(out@) =~= self.spec_outbound(dvs.take(i as int + 1)));
                }
            }
            i = i + 1;
        }
        proof {
            assert(dvs.take(drained@.len() as int) =~= dvs);
        }
        out
    }

    /// Relays one poll of the wire subscriber into the local bus. A
    /// sample that does not fit a loanable slot is counted as a failed
    /// relay and skipped; the poll continues with the next sample.
    pub fn relay_inbound(&mut self, received: &Vec<WireSample>) -> (out: Vec<LocalSample>)
        ensures
            local_views(out@) == old(self).spec_inbound(wire_views(received@)),
            *final(self) == (PayloadConnector {
                failed_relays: spec_saturating_add(
                    old(self).failed_relays,
                    old(self).spec_inbound_dropped(wire_views(received@)),
                ),
                ..*old(self)
            }),
    {
        let ghost wvs = wire_views(received@);
        let ghost me = *self;
        let mut out: Vec<LocalSample> = Vec::new();
        let mut dropped: u64 = 0;
        let mut i: usize = 0;
        proof {
            reveal(Seq::filter);
            assert(wvs.take(0) =~= Seq::<WireSampleView>::empty());
            assert(local_views(out@) =~= me.spec_inbound(wvs.take(0)));
        }
        while i < received.len()
            invariant
                i <= received.len(),
                wvs == wire_views(received@),
                wvs.len() == received.len(),
                *self == me,
                local_views(out@) == me.spec_inbound(wvs.take(i as int)),
                dropped == me.spec_inbound_dropped(wvs.take(i as int)),
                dropped <= i,
            decreases received.len() - i,
        {
            let w = &received[i];
            proof {
                reveal(Seq::filter);
                assert(wvs.take(i as int + 1).drop_last() =~= wvs.take(i as int));
                assert(wvs.take(i as int + 1).last() == wvs[i as int]);
                assert(wvs[i as int] == received@[i as int]@);
            }
            if w.origin != self.wire_session_id {
                let fits = match self.shape {
                    PayloadShape::Fixed => w.payload.len() as u64 == self.payload_size,
                    PayloadShape::Slice => w.payload.len() as u64 <= self.max_slice_len,
                };
                if fits {
                    let ghost before = out@;
                    let payload = vstd::slice::slice_to_vec(w.payload.as_slice());
                    out.push(LocalSample { origin: self.local_endpoint_id, payload });
                    proof {
                        assert(local_views(out@) =~= local_views(before).push(out@.last()@));
                        assert(local_views(out@) =~= me.spec_inbound(wvs.take(i as int + 1)));
                    }
                } else {
                    dropped = dropped + 1;
                    proof {
                        assert(local_views(out@) =~= me.spec_inbound(wvs.take(i as int + 1)));
                    }
                }
            } else {
                proof {
                    assert(local_views(out@) =~= me.spec_inbound(wvs.take(i as int + 1)));
                }
            }
            i = i + 1;
        }
        proof {
            assert(wvs.take(received@.len() as int) =~= wvs);
        }
        if dropped > u64::MAX - self.failed_relays {
            self.failed_relays = u64::MAX;
        } else {
            self.failed_relays = self.failed_relays + dropped;
        }
        out
    }

    /// Drains both directions once: what the local subscriber yielded
    /// goes to the wire, what the wire subscriber yielded goes to the
    /// local bus. Neither direction can block; a failed sample is
    /// counted and skipped, never aborting the cycle.
    pub fn propagate(&mut self, drained: &Vec<LocalSample>, received: &Vec<WireSample>) -> (r: (
        Vec<WireSample>,
        Vec<LocalSample>,
    ))
        ensures
            wire_views(r.0@) == old(self).spec_outbound(local_views(drained@)),
            local_views(r.1@) == old(self).spec_inbound(wire_views(received@)),
            *final(self) == (PayloadConnector {
                failed_relays: spec_saturating_add(
                    old(self).failed_relays,
                    old(self).spec_inbound_dropped(wire_views(received@)),
                ),
                ..*old(self)
            }),
    {
        let to_wire = self.relay_outbound(drained);
        let to_local = self.relay_inbound(received);
        (to_wire, to_local)
    }
}

/// Addition that sticks at the greatest representable count.
pub open spec fn spec_saturating_add(a: u64, n: nat) -> u64 {
    if a + n <= u64::MAX {
        (a + n) as u64
    } else {
        u64::MAX
    }
}

/// No sequence element satisfies the predicate, so the filter is empty.
proof fn lemma_filter_none<A>(s: Seq<A>, pred: spec_fn(A) -> bool)
    requires
        forall|i: int| 0 <= i < s.len() ==> !pred(#[trigger] s[i]),
    ensures
        s.filter(pred) == Seq::<A>::empty(),
    decreases s.len(),
{
    reveal(Seq::filter);
    if s.len() > 0 {
        assert(forall|i: int| 0 <= i < s.drop_last().len() ==> !pred(#[trigger] s.drop_last()[i]));
        lemma_filter_none(s.drop_last(), pred);
        assert(!pred(s.last()));
    }
}

/// No loopback for payloads: everything a connector injects into the
/// local bus carries its own endpoint identifier, and a following drain
/// relays none of it back to the wire. A payload that crossed the tunnel
/// once can never cross it again through the same connector.
pub proof fn lemma_no_payload_loopback(c: PayloadConnector, received: Seq<WireSampleView>)
    ensures
        forall|i: int|
            0 <= i < c.spec_inbound(received).len() ==> (#[trigger] c.spec_inbound(
                received,
            )[i]).origin == c.local_endpoint_id,
        c.spec_outbound(c.spec_inbound(received)) == Seq::<WireSampleView>::empty(),
{
    let injected = c.spec_inbound(received);
    assert forall|i: int|
        0 <= i < injected.len() implies (#[trigger] injected[i]).origin
        == c.local_endpoint_id by {
        broadcast use vstd::seq_lib::group_seq_properties;

    }
    lemma_filter_none(injected, |s: LocalSampleView| s.origin != c.local_endpoint_id);
    assert(c.spec_outbound(injected) =~= Seq::<WireSampleView>::empty());
}

/// Payload fidelity: when two connectors of distinct wire sessions share
/// one service configuration, the bytes injected on the receiving host
/// are exactly the bytes drained on the origin host, sample for sample,
/// in order — provided each genuine drained sample fits the service's
/// slot shape.
pub proof fn lemma_payload_fidelity(
    a: PayloadConnector,
    b: PayloadConnector,
    drained: Seq<LocalSampleView>,
)
    requires
        a.wire_session_id != b.wire_session_id,
        a.shape == b.shape,
        a.payload_size == b.payload_size,
        a.max_slice_len == b.max_slice_len,
        forall|i: int|
            0 <= i < drained.len() ==> ((#[trigger] drained[i]).origin != a.local_endpoint_id
                ==> a.spec_accepts(drained[i].payload.len())),
    ensures
        b.spec_inbound(a.spec_outbound(drained)).map_values(|s: LocalSampleView| s.payload)
            == drained.filter(|s: LocalSampleView| s.origin != a.local_endpoint_id).map_values(
            |s: LocalSampleView| s.payload,
        ),
    decreases drained.len(),
{
    reveal(Seq::filter);
    if drained.len() == 0 {
        assert(b.spec_inbound(a.spec_outbound(drained)).map_values(
            |s: LocalSampleView| s.payload,
        ) =~= drained.filter(|s: LocalSampleView| s.origin != a.local_endpoint_id).map_values(
            |s: LocalSampleView| s.payload,
        ));
    } else {
        let init = drained.drop_last();
        let last = drained.last();
        assert(forall|i: int|
            0 <= i < init.len() ==> ((#[trigger] init[i]).origin != a.local_endpoint_id
                ==> a.spec_accepts(init[i].payload.len())));
        lemma_payload_fidelity(a, b, init);
        let f_out = |s: LocalSampleView| s.origin != a.local_endpoint_id;
        let m_out = |s: LocalSampleView|
            WireSampleView { origin: a.wire_session_id, payload: s.payload };
        let f_in = |w: WireSampleView| b.spec_deliverable(w);
        let m_in = |w: WireSampleView|
            LocalSampleView { origin: b.local_endpoint_id, payload: w.payload };
        let pay = |s: LocalSampleView| s.payload;
        if f_out(last) {
            assert(drained.filter(f_out) == init.filter(f_out).push(last));
            assert(a.spec_outbound(drained) =~= a.spec_outbound(init).push(m_out(last)));
            assert(a.spec_outbound(drained).drop_last() =~= a.spec_outbound(init));
            assert(b.spec_deliverable(m_out(last)));
            assert(b.spec_inbound(a.spec_outbound(drained)) =~= b.spec_inbound(
                a.spec_outbound(init),
            ).push(m_in(m_out(last))));
            assert(b.spec_inbound(a.spec_outbound(drained)).map_values(pay) =~= b.spec_inbound(
                a.spec_outbound(init),
            ).map_values(pay).push(last.payload));
            assert(drained.filter(f_out).map_values(pay) =~= init.filter(f_out).map_values(
                pay,
            ).push(last.payload));
        } else {
            assert(drained.filter(f_out) == init.filter(f_out));
            assert(a.spec_outbound(drained) =~= a.spec_outbound(init));
        }
    }
}

} // verus!
