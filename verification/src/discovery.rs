//! Discovery of services to bridge, from three sources: a polling tracker
//! that diffs the local registry, a subscription to a discovery daemon's
//! event stream, and the wire's announcement channel.
//!
//! All three are level-triggered and exactly-once: a service is reported
//! the first time it appears at that source and never again, and polling
//! an unchanged world reports nothing.

use crate::codec::{decode_descriptor, spec_decode};
use crate::descriptor::{views_of, ServiceDescriptor, ServiceDescriptorView};
use crate::table::TunneledServiceTable;
use vstd::prelude::*;

verus! {

/// A failure surfaced by discovery.
#[derive(Debug, Eq, PartialEq, Clone, Copy, Structural)]
pub enum DiscoveryError {
    /// The local registry snapshot could not be synchronized.
    TrackerSynchronization,
    /// Processing a discovered item failed.
    DiscoveryProcessing,
}

/// The descriptors of `events` whose fingerprint is not in `seen`, first
/// occurrence only, in arrival order.
pub open spec fn spec_dedup_new(
    events: Seq<ServiceDescriptorView>,
    seen: Seq<u64>,
) -> Seq<ServiceDescriptorView>
    decreases events.len(),
{
    if events.len() == 0 {
        Seq::empty()
    } else {
        let d = events.first();
        let rest = events.drop_first();
        if seen.contains(d.fingerprint) {
            spec_dedup_new(rest, seen)
        } else {
            seq![d] + spec_dedup_new(rest, seen.push(d.fingerprint))
        }
    }
}

/// The seen-set after processing `events` starting from `seen`: each new
/// fingerprint appended at its first occurrence.
pub open spec fn spec_seen_after(events: Seq<ServiceDescriptorView>, seen: Seq<u64>) -> Seq<u64>
    decreases events.len(),
{
    if events.len() == 0 {
        seen
    } else {
        let d = events.first();
        let rest = events.drop_first();
        if seen.contains(d.fingerprint) {
            spec_seen_after(rest, seen)
        } else {
            spec_seen_after(rest, seen.push(d.fingerprint))
        }
    }
}

/// A fingerprint is seen afterwards exactly when it was seen before or
/// occurs in the events.
pub proof fn lemma_seen_after_membership(
    events: Seq<ServiceDescriptorView>,
    seen: Seq<u64>,
    f: u64,
)
    ensures
        spec_seen_after(events, seen).contains(f) <==> (seen.contains(f)
            || crate::descriptor::fingerprints_of(events).contains(f)),
    decreases events.len(),
{
    broadcast use vstd::seq_lib::group_seq_properties;

    let fe = crate::descriptor::fingerprints_of(events);
    if events.len() == 0 {
        assert(fe.len() == 0);
    } else {
        let d = events.first();
        let rest = events.drop_first();
        let fr = crate::descriptor::fingerprints_of(rest);
        assert(fe =~= seq![d.fingerprint] + fr);
        assert(fe.contains(f) <==> (f == d.fingerprint || fr.contains(f))) by {
            if fe.contains(f) {
                let i = choose|i: int| 0 <= i < fe.len() && fe[i] == f;
                if i > 0 {
                    assert(fr[i - 1] == f);
                }
            }
            if f == d.fingerprint {
                assert(fe[0] == f);
            }
            if fr.contains(f) {
                let i = choose|i: int| 0 <= i < fr.len() && fr[i] == f;
                assert(fe[i + 1] == f);
            }
        }
        if seen.contains(d.fingerprint) {
            lemma_seen_after_membership(rest, seen, f);
        } else {
            lemma_seen_after_membership(rest, seen.push(d.fingerprint), f);
            assert(seen.push(d.fingerprint).contains(f) <==> (seen.contains(f) || f
                == d.fingerprint)) by {
                if seen.push(d.fingerprint).contains(f) {
                    let i = choose|i: int|
                        0 <= i < seen.push(d.fingerprint).len() && seen.push(d.fingerprint)[i]
                            == f;
                    if i < seen.len() {
                        assert(seen[i] == f);
                    }
                }
                assert(seen.push(d.fingerprint)[seen.len() as int] == d.fingerprint);
            }
        }
    }
}

/// Deduplicated reports are exactly the unseen fingerprints, each once.
pub proof fn lemma_dedup_new_exactly_once(events: Seq<ServiceDescriptorView>, seen: Seq<u64>)
    ensures
        crate::descriptor::fingerprints_of(spec_dedup_new(events, seen)).no_duplicates(),
        forall|j: int|
            0 <= j < spec_dedup_new(events, seen).len() ==> !seen.contains(
                (#[trigger] spec_dedup_new(events, seen)[j]).fingerprint,
            ),
        forall|j: int|
            0 <= j < spec_dedup_new(events, seen).len() ==> exists|i: int|
                0 <= i < events.len() && events[i] == #[trigger] spec_dedup_new(events, seen)[j],
        forall|f: u64|
            (exists|i: int| 0 <= i < events.len() && (#[trigger] events[i]).fingerprint == f)
                && !seen.contains(f) ==> exists|j: int|
                0 <= j < spec_dedup_new(events, seen).len() && (#[trigger] spec_dedup_new(
                    events,
                    seen,
                )[j]).fingerprint == f,
    decreases events.len(),
{
    broadcast use vstd::seq_lib::group_seq_properties;

    let out = spec_dedup_new(events, seen);
    let fps = crate::descriptor::fingerprints_of(out);
    if events.len() == 0 {
        assert(fps =~= Seq::<u64>::empty());
    } else {
        let d = events.first();
        let rest = events.drop_first();
        if seen.contains(d.fingerprint) {
            lemma_dedup_new_exactly_once(rest, seen);
            assert forall|j: int|
                0 <= j < out.len() implies exists|i: int|
                0 <= i < events.len() && events[i] == #[trigger] out[j] by {
                let i = choose|i: int| 0 <= i < rest.len() && rest[i] == out[j];
                assert(events[i + 1] == out[j]);
            }
            assert forall|f: u64|
                (exists|i: int| 0 <= i < events.len() && (#[trigger] events[i]).fingerprint == f)
                    && !seen.contains(f) implies exists|j: int|
                0 <= j < out.len() && (#[trigger] out[j]).fingerprint == f by {
                let i = choose|i: int|
                    0 <= i < events.len() && (#[trigger] events[i]).fingerprint == f;
                assert(i != 0);
                assert(rest[i - 1].fingerprint == f);
            }
        } else {
            lemma_dedup_new_exactly_once(rest, seen.push(d.fingerprint));
            let sub = spec_dedup_new(rest, seen.push(d.fingerprint));
            let subfps = crate::descriptor::fingerprints_of(sub);
            assert(fps =~= seq![d.fingerprint] + subfps);
            assert(fps[0] == d.fingerprint);
            assert forall|j: int| 1 <= j < fps.len() implies fps[j] != d.fingerprint by {
                assert(fps[j] == subfps[j - 1]);
                assert(!seen.push(d.fingerprint).contains(sub[j - 1].fingerprint));
                assert(seen.push(d.fingerprint)[seen.len() as int] == d.fingerprint);
            }
            assert forall|j: int|
                0 <= j < out.len() implies exists|i: int|
                0 <= i < events.len() && events[i] == #[trigger] out[j] by {
                if j == 0 {
                    assert(events[0] == out[0]);
                } else {
                    let i = choose|i: int| 0 <= i < rest.len() && rest[i] == sub[j - 1];
                    assert(events[i + 1] == out[j]);
                }
            }
            assert forall|f: u64|
                (exists|i: int| 0 <= i < events.len() && (#[trigger] events[i]).fingerprint == f)
                    && !seen.contains(f) implies exists|j: int|
                0 <= j < out.len() && (#[trigger] out[j]).fingerprint == f by {
                if f == d.fingerprint {
                    assert(out[0].fingerprint == f);
                } else {
                    let i = choose|i: int|
                        0 <= i < events.len() && (#[trigger] events[i]).fingerprint == f;
                    assert(i != 0);
                    assert(rest[i - 1].fingerprint == f);
                    assert(!seen.push(d.fingerprint).contains(f)) by {
                        assert forall|k: int|
                            0 <= k < seen.push(d.fingerprint).len() implies seen.push(
                            d.fingerprint,
                        )[k] != f by {
                            if k < seen.len() {
                                assert(seen[k] != f);
                            }
                        }
                    }
                    let j = choose|j: int|
                        0 <= j < sub.len() && (#[trigger] sub[j]).fingerprint == f;
                    assert(out[j + 1].fingerprint == f);
                }
            }
        }
    }
}

/// Polling an unchanged world reports nothing: once every fingerprint is
/// seen, deduplication yields the empty report.
pub proof fn lemma_dedup_new_all_seen(events: Seq<ServiceDescriptorView>, seen: Seq<u64>)
    requires
        forall|i: int|
            0 <= i < events.len() ==> seen.contains((#[trigger] events[i]).fingerprint),
    ensures
        spec_dedup_new(events, seen) == Seq::<ServiceDescriptorView>::empty(),
    decreases events.len(),
{
    if events.len() > 0 {
        let rest = events.drop_first();
        assert forall|i: int|
            0 <= i < rest.len() implies seen.contains((#[trigger] rest[i]).fingerprint) by {
            assert(rest[i] == events[i + 1]);
        }
        lemma_dedup_new_all_seen(rest, seen);
    }
}

/// The polling tracker over the local registry: it synchronizes a
/// snapshot of the registry and reports each service that has appeared
/// since the previous synchronization. Removals are observed in the
/// dropped previous snapshot but not acted upon.
pub struct DiscoveryTracker {
    known: TunneledServiceTable,
}

impl DiscoveryTracker {
    /// The fingerprints present in the previously synchronized snapshot.
    pub closed spec fn known(self) -> Seq<u64> {
        self.known@
    }

    pub closed spec fn wf(self) -> bool {
        self.known.wf()
    }

    /// A tracker that has seen no services yet.
    pub fn create() -> (r: Self)
        ensures
            r.known() == Seq::<u64>::empty(),
            r.wf(),
    {
        DiscoveryTracker { known: TunneledServiceTable::new() }
    }

    /// Synchronizes against a registry snapshot, handed in by the host as
    /// `Some(snapshot)`, or `None` where reading the registry failed.
    /// Reports each service whose fingerprint was absent from the
    /// previous snapshot, exactly once, in snapshot order.
    pub fn discover(&mut self, snapshot: Option<&Vec<ServiceDescriptor>>) -> (r: Result<
        Vec<ServiceDescriptor>,
        DiscoveryError,
    >)
        requires
            old(self).wf(),
        ensures
            final(self).wf(),
            match r {
                Ok(added) => {
                    &&& snapshot is Some
                    &&& views_of(added@) == spec_dedup_new(
                        views_of(snapshot.unwrap()@),
                        old(self).known(),
                    )
                    &&& final(self).known() == spec_seen_after(
                        views_of(snapshot.unwrap()@),
                        Seq::<u64>::empty(),
                    )
                },
                Err(e) => {
                    &&& snapshot is None
                    &&& e == DiscoveryError::TrackerSynchronization
                    &&& *final(self) == *old(self)
                },
            },
    {
        let snap = match snapshot {
            Some(s) => s,
            None => {
                return Err(DiscoveryError::TrackerSynchronization);
            },
        };
        let ghost evs = views_of(snap@);
        let ghost known0 = self.known@;
        let mut guard = self.known.duplicate();
        let mut fresh = TunneledServiceTable::new();
        let mut added: Vec<ServiceDescriptor> = Vec::new();
        let mut i: usize = 0;
        proof {
            assert(evs.skip(0) =~= evs);
            assert(views_of(added@) =~= Seq::<ServiceDescriptorView>::empty());
        }
        while i < snap.len()
            invariant
                i <= snap.len(),
                evs == views_of(snap@),
                evs.len() == snap.len(),
                guard.wf(),
                fresh.wf(),
                spec_dedup_new(evs, known0) == views_of(added@) + spec_dedup_new(
                    evs.skip(i as int),
                    guard@,
                ),
                spec_seen_after(evs, Seq::<u64>::empty()) == spec_seen_after(
                    evs.skip(i as int),
                    fresh@,
                ),
            decreases snap.len() - i,
        {
            let d = &snap[i];
            proof {
                assert(evs.skip(i as int).first() == evs[i as int]);
                assert(evs.skip(i as int).drop_first() =~= evs.skip(i as int + 1));
                assert(evs[i as int] == snap@[i as int]@);
            }
            let newly = guard.insert(d.fingerprint);
            if newly {
                let ghost before = added@;
                added.push(d.duplicate());
                proof {
                    assert(views_of(added@) =~= views_of(before).push(snap@[i as int]@));
                    assert(views_of(added@) + spec_dedup_new(evs.skip(i as int + 1), guard@)
                        =~= (views_of(before) + (seq![evs[i as int]] + spec_dedup_new(
                        evs.skip(i as int + 1),
                        guard@,
                    ))));
                }
            }
            fresh.insert(d.fingerprint);
            i = i + 1;
        }
        proof {
            assert(evs.skip(snap@.len() as int) =~= Seq::<ServiceDescriptorView>::empty());
            assert(views_of(added@) + Seq::<ServiceDescriptorView>::empty() =~= views_of(added@));
        }
        self.known = fresh;
        Ok(added)
    }
}

/// The subscription to a discovery daemon's event stream. The stream may
/// retransmit a descriptor; each fingerprint is reported only the first
/// time it arrives.
pub struct DaemonDiscovery {
    seen: TunneledServiceTable,
}

impl DaemonDiscovery {
    /// The fingerprints already reported.
    pub closed spec fn seen(self) -> Seq<u64> {
        self.seen@
    }

    pub closed spec fn wf(self) -> bool {
        self.seen.wf()
    }

    /// A subscription that has reported nothing yet.
    pub fn create() -> (r: Self)
        ensures
            r.seen() == Seq::<u64>::empty(),
            r.wf(),
    {
        DaemonDiscovery { seen: TunneledServiceTable::new() }
    }

    /// Processes one batch of descriptor events received from the daemon
    /// topic, reporting each newly seen fingerprint exactly once.
    pub fn poll(&mut self, events: &Vec<ServiceDescriptor>) -> (added: Vec<ServiceDescriptor>)
        requires
            old(self).wf(),
        ensures
            final(self).wf(),
            views_of(added@) == spec_dedup_new(views_of(events@), old(self).seen()),
            final(self).seen() == spec_seen_after(views_of(events@), old(self).seen()),
    {
        let ghost evs = views_of(events@);
        let ghost seen0 = self.seen@;
        let mut added: Vec<ServiceDescriptor> = Vec::new();
        let mut i: usize = 0;
        proof {
            assert(evs.skip(0) =~= evs);
            assert(views_of(added@) =~= Seq::<ServiceDescriptorView>::empty());
        }
        while i < events.len()
            invariant
                i <= events.len(),
                evs == views_of(events@),
                evs.len() == events.len(),
                self.seen.wf(),
                spec_dedup_new(evs, seen0) == views_of(added@) + spec_dedup_new(
                    evs.skip(i as int),
                    self.seen@,
                ),
                spec_seen_after(evs, seen0) == spec_seen_after(evs.skip(i as int), self.seen@),
            decreases events.len() - i,
        {
            let d = &events[i];
            proof {
                assert(evs.skip(i as int).first() == evs[i as int]);
                assert(evs.skip(i as int).drop_first() =~= evs.skip(i as int + 1));
                assert(evs[i as int] == events@[i as int]@);
            }
            let newly = self.seen.insert(d.fingerprint);
            if newly {
                let ghost before = added@;
                added.push(d.duplicate());
                proof {
                    assert(views_of(added@) =~= views_of(before).push(events@[i as int]@));
                    assert(views_of(added@) + spec_dedup_new(evs.skip(i as int + 1), self.seen@)
                        =~= (views_of(before) + (seq![evs[i as int]] + spec_dedup_new(
                        evs.skip(i as int + 1),
                        self.seen@,
                    ))));
                }
            }
            i = i + 1;
        }
        proof {
            assert(evs.skip(events@.len() as int) =~= Seq::<ServiceDescriptorView>::empty());
            assert(views_of(added@) + Seq::<ServiceDescriptorView>::empty() =~= views_of(added@));
        }
        added
    }
}

/// Whether every announcement decodes to a descriptor.
pub open spec fn spec_decode_all(announcements: Seq<Seq<char>>) -> Option<
    Seq<ServiceDescriptorView>,
>
    decreases announcements.len(),
{
    if announcements.len() == 0 {
        Some(Seq::empty())
    } else {
        match spec_decode(announcements.first()) {
            None => None,
            Some(d) => match spec_decode_all(announcements.drop_first()) {
                None => None,
                Some(ds) => Some(seq![d] + ds),
            },
        }
    }
}

/// Encoding a batch of well-formed descriptors and decoding the batch
/// gives back the descriptors: announcements survive the wire.
#[verifier::rlimit(100)]
pub proof fn lemma_decode_all_encodes(ds: Seq<ServiceDescriptorView>)
    requires
        forall|i: int| 0 <= i < ds.len() ==> (#[trigger] ds[i]).wf(),
    ensures
        spec_decode_all(ds.map_values(|d: ServiceDescriptorView| crate::codec::spec_encode(d)))
            == Some(ds),
    decreases ds.len(),
{
    let encs = ds.map_values(|d: ServiceDescriptorView| crate::codec::spec_encode(d));
    if ds.len() == 0 {
        assert(encs.len() == 0);
    } else {
        let rest = ds.drop_first();
        assert(forall|i: int| 0 <= i < rest.len() ==> (#[trigger] rest[i]).wf()) by {
            assert forall|i: int| 0 <= i < rest.len() implies (#[trigger] rest[i]).wf() by {
                assert(rest[i] == ds[i + 1]);
            }
        }
        lemma_decode_all_encodes(rest);
        crate::codec::lemma_descriptor_round_trip(ds.first());
        assert(encs.first() == crate::codec::spec_encode(ds.first()));
        assert(encs.drop_first() =~= rest.map_values(
            |d: ServiceDescriptorView| crate::codec::spec_encode(d),
        ));
        assert(seq![ds.first()] + rest =~= ds);
    }
}

/// The view of a sequence of announcement strings.
pub open spec fn string_views(s: Seq<String>) -> Seq<Seq<char>> {
    s.map_values(|a: String| a@)
}

/// Decodes every announcement in a batch, or reports the batch bad.
fn decode_all(announcements: &Vec<String>) -> (r: Option<Vec<ServiceDescriptor>>)
    ensures
        match r {
            Some(ds) => {
                &&& spec_decode_all(string_views(announcements@)) == Some(views_of(ds@))
                &&& forall|j: int| 0 <= j < ds@.len() ==> (#[trigger] ds@[j])@.wf()
            },
            None => spec_decode_all(string_views(announcements@)) is None,
        },
{
    let ghost anns = string_views(announcements@);
    let mut decoded: Vec<ServiceDescriptor> = Vec::new();
    let mut i: usize = 0;
    proof {
        assert(anns.skip(0) =~= anns);
        assert(views_of(decoded@) =~= Seq::<ServiceDescriptorView>::empty());
    }
    while i < announcements.len()
        invariant
            i <= announcements.len(),
            anns == string_views(announcements@),
            anns.len() == announcements.len(),
            spec_decode_all(anns) matches Some(ds) ==> ds == views_of(decoded@) + spec_decode_all(
                anns.skip(i as int),
            ).unwrap(),
            spec_decode_all(anns) is Some ==> spec_decode_all(anns.skip(i as int)) is Some,
            spec_decode_all(anns) is None ==> spec_decode_all(anns.skip(i as int)) is None,
            forall|j: int| 0 <= j < decoded@.len() ==> (#[trigger] decoded@[j])@.wf(),
        decreases announcements.len() - i,
    {
        proof {
            assert(anns.skip(i as int).first() == anns[i as int]);
            assert(anns.skip(i as int).drop_first() =~= anns.skip(i as int + 1));
            assert(anns[i as int] == announcements@[i as int]@);
        }
        let d = match decode_descriptor(announcements[i].as_str()) {
            Some(d) => d,
            None => {
                return None;
            },
        };
        let ghost before = decoded@;
        decoded.push(d);
        proof {
            assert(views_of(decoded@) =~= views_of(before).push(decoded@.last()@));
            if spec_decode_all(anns) is Some {
                assert(views_of(decoded@) + spec_decode_all(anns.skip(i as int + 1)).unwrap()
                    =~= (views_of(before) + (seq![decoded@.last()@] + spec_decode_all(
                    anns.skip(i as int + 1),
                ).unwrap())));
            }
        }
        i = i + 1;
    }
    proof {
        assert(anns.skip(announcements@.len() as int) =~= Seq::<Seq<char>>::empty());
        if spec_decode_all(anns) is Some {
            assert(views_of(decoded@) + Seq::<ServiceDescriptorView>::empty() =~= views_of(
                decoded@,
            ));
        }
    }
    Some(decoded)
}

/// The port that watches the wire's announcement channel. Announcements
/// are retransmitted on the wire; reports are de-duplicated by
/// fingerprint across retransmissions.
pub struct RemoteDiscovery {
    seen: TunneledServiceTable,
}

impl RemoteDiscovery {
    /// The fingerprints already reported.
    pub closed spec fn seen(self) -> Seq<u64> {
        self.seen@
    }

    pub closed spec fn wf(self) -> bool {
        self.seen.wf()
    }

    /// A port that has reported nothing yet.
    pub fn create() -> (r: Self)
        ensures
            r.seen() == Seq::<u64>::empty(),
            r.wf(),
    {
        RemoteDiscovery { seen: TunneledServiceTable::new() }
    }

    /// Processes one batch of announcement payloads received from the
    /// wire. An announcement that does not decode fails the whole poll
    /// with [`DiscoveryError::DiscoveryProcessing`] and leaves the port
    /// unchanged; otherwise each newly seen fingerprint is reported
    /// exactly once.
    pub fn poll(&mut self, announcements: &Vec<String>) -> (r: Result<
        Vec<ServiceDescriptor>,
        DiscoveryError,
    >)
        requires
            old(self).wf(),
        ensures
            final(self).wf(),
            match r {
                Ok(added) => {
                    &&& spec_decode_all(string_views(announcements@)) is Some
                    &&& views_of(added@) == spec_dedup_new(
                        spec_decode_all(string_views(announcements@)).unwrap(),
                        old(self).seen(),
                    )
                    &&& final(self).seen() == spec_seen_after(
                        spec_decode_all(string_views(announcements@)).unwrap(),
                        old(self).seen(),
                    )
                    &&& forall|j: int| 0 <= j < added@.len() ==> (#[trigger] added@[j])@.wf()
                },
                Err(e) => {
                    &&& e == DiscoveryError::DiscoveryProcessing
                    &&& spec_decode_all(string_views(announcements@)) is None
                    &&& *final(self) == *old(self)
                },
            },
    {
        let decoded = match decode_all(announcements) {
            Some(ds) => ds,
            None => {
                return Err(DiscoveryError::DiscoveryProcessing);
            },
        };
        let ghost ds = views_of(decoded@);
        let ghost seen0 = self.seen@;
        let mut added: Vec<ServiceDescriptor> = Vec::new();
        let mut i: usize = 0;
        proof {
            assert(ds.skip(0) =~= ds);
            assert(views_of(added@) =~= Seq::<ServiceDescriptorView>::empty());
        }
        while i < decoded.len()
            invariant
                i <= decoded.len(),
                ds == views_of(decoded@),
                ds.len() == decoded.len(),
                self.seen.wf(),
                forall|j: int| 0 <= j < decoded@.len() ==> (#[trigger] decoded@[j])@.wf(),
                forall|j: int| 0 <= j < added@.len() ==> (#[trigger] added@[j])@.wf(),
                spec_dedup_new(ds, seen0) == views_of(added@) + spec_dedup_new(
                    ds.skip(i as int),
                    self.seen@,
                ),
                spec_seen_after(ds, seen0) == spec_seen_after(ds.skip(i as int), self.seen@),
            decreases decoded.len() - i,
        {
            let d = &decoded[i];
            proof {
                assert(ds.skip(i as int).first() == ds[i as int]);
                assert(ds.skip(i as int).drop_first() =~= ds.skip(i as int + 1));
                assert(ds[i as int] == decoded@[i as int]@);
            }
            let newly = self.seen.insert(d.fingerprint);
            if newly {
                let ghost before = added@;
                added.push(d.duplicate());
                proof {
                    assert(views_of(added@) =~= views_of(before).push(decoded@[i as int]@));
                    assert(views_of(added@) + spec_dedup_new(ds.skip(i as int + 1), self.seen@)
                        =~= (views_of(before) + (seq![ds[i as int]] + spec_dedup_new(
                        ds.skip(i as int + 1),
                        self.seen@,
                    ))));
                }
            }
            i = i + 1;
        }
        proof {
            assert(ds.skip(decoded@.len() as int) =~= Seq::<ServiceDescriptorView>::empty());
            assert(views_of(added@) + Seq::<ServiceDescriptorView>::empty() =~= views_of(added@));
        }
        Ok(added)
    }
}

} // verus!
