//! The tunnel facade: owns the table of bridged services, one connector
//! per service, the discovery and announcement ports, and exposes the
//! two verbs of the host loop, `discover` and `propagate`.
//!
//! The host drains the local bus and the wire and hands the drained
//! values in; the facade decides what is bridged and what every cycle
//! must publish, send or notify, and the contracts pin those decisions
//! down exactly.

use crate::announce::AnnouncementPort;
use crate::codec::spec_encode;
use crate::descriptor::{
    views_of, MessagingPattern, MessagingPatternView, ServiceDescriptor, ServiceDescriptorView,
};
use crate::discovery::{
    spec_decode_all, spec_dedup_new, spec_seen_after, string_views, DaemonDiscovery,
    DiscoveryError, DiscoveryTracker, RemoteDiscovery,
};
use crate::event::EventConnector;
use crate::keys::{spec_service_key, ChannelKind};
use crate::payload::PayloadConnector;
use crate::table::TunneledServiceTable;
use vstd::prelude::*;
use vstd::string::StringExecFns;

verus! {

/// Which discovery plane a `discover` call consults.
#[derive(Clone, Copy, PartialEq, Eq, Structural, Debug)]
pub enum Scope {
    Local,
    Wire,
    Both,
}

/// Whether a scope consults the local plane.
pub open spec fn scope_local(scope: Scope) -> bool {
    scope is Local || scope is Both
}

/// Whether a scope consults the wire plane.
pub open spec fn scope_wire(scope: Scope) -> bool {
    scope is Wire || scope is Both
}

/// Host-supplied configuration of a tunnel.
pub struct TunnelConfig {
    /// The topic of a discovery daemon's event stream. When set, local
    /// discovery subscribes to that stream; when absent, it polls the
    /// registry through the tracker.
    pub discovery_service: Option<String>,
}

impl Default for TunnelConfig {
    /// By default no daemon topic is named and the tracker is used.
    fn default() -> (r: Self)
        ensures
            r.discovery_service is None,
    {
        TunnelConfig { discovery_service: None }
    }
}

/// The identity of the local bus the tunnel bridges from.
pub struct LocalBusConfig {
    pub node_id: u64,
}

/// The identity of the tunnel's session on the wire.
pub struct WireConfig {
    pub session_id: u64,
}

/// The connector of one bridged service: exactly one per service,
/// matching its messaging pattern.
#[derive(Clone, Copy, PartialEq, Eq, Structural, Debug)]
pub enum Connector {
    Payload(PayloadConnector),
    Event(EventConnector),
}

/// One entry of the table: a bridged service, its connector and the
/// wire keys it occupies.
pub struct TunneledService {
    pub fingerprint: u64,
    pub connector: Connector,
    pub channel_key: String,
    pub details_key: String,
}

/// The mathematical value of a [`TunneledService`].
pub struct TunneledServiceView {
    pub fingerprint: u64,
    pub connector: Connector,
    pub channel_key: Seq<char>,
    pub details_key: Seq<char>,
}

impl View for TunneledService {
    type V = TunneledServiceView;

    open spec fn view(&self) -> TunneledServiceView {
        TunneledServiceView {
            fingerprint: self.fingerprint,
            connector: self.connector,
            channel_key: self.channel_key@,
            details_key: self.details_key@,
        }
    }
}

/// The mathematical values of a sequence of table entries.
pub open spec fn service_views(s: Seq<TunneledService>) -> Seq<TunneledServiceView> {
    s.map_values(|x: TunneledService| x@)
}

/// The entry created for a newly admitted service.
pub open spec fn spec_service_entry(d: ServiceDescriptorView, session: u64) -> TunneledServiceView {
    match d.pattern {
        MessagingPatternView::PublishSubscribe { shape, payload_type, .. } => TunneledServiceView {
            fingerprint: d.fingerprint,
            connector: Connector::Payload(
                PayloadConnector {
                    fingerprint: d.fingerprint,
                    shape,
                    payload_size: payload_type.size,
                    max_slice_len: u64::MAX,
                    local_endpoint_id: d.fingerprint,
                    wire_session_id: session,
                    failed_relays: 0u64,
                },
            ),
            channel_key: spec_service_key(d.fingerprint, ChannelKind::Payload),
            details_key: spec_service_key(d.fingerprint, ChannelKind::Details),
        },
        MessagingPatternView::Event { greatest_event_id, .. } => TunneledServiceView {
            fingerprint: d.fingerprint,
            connector: Connector::Event(
                EventConnector {
                    fingerprint: d.fingerprint,
                    greatest_event_id,
                    local_endpoint_id: d.fingerprint,
                    wire_session_id: session,
                    failed_relays: 0u64,
                },
            ),
            channel_key: spec_service_key(d.fingerprint, ChannelKind::Event),
            details_key: spec_service_key(d.fingerprint, ChannelKind::Details),
        },
    }
}

/// Whether a reported descriptor enters the table: its fingerprint must
/// be new and its endpoints constructible.
pub open spec fn spec_admissible(table: Seq<u64>, d: ServiceDescriptorView) -> bool {
    !table.contains(d.fingerprint) && d.constructible()
}

/// The state a batch admission starts from and produces: the table, the
/// table entries, the remembered announcements, and the outputs of the
/// call — wire publishes and rejected fingerprints.
pub struct AdmitOutcome {
    pub table: Seq<u64>,
    pub services: Seq<TunneledServiceView>,
    pub announced: Seq<(u64, Seq<char>)>,
    pub announcements: Seq<(Seq<char>, Seq<char>)>,
    pub rejected: Seq<u64>,
}

/// Admits one batch of reported descriptors in order. A fingerprint
/// already bridged is skipped; a service whose endpoints cannot be
/// built is rejected, and the rest of the batch is still processed;
/// every other service gets a connector and, when `announce` holds, an
/// announcement under its details key.
pub open spec fn spec_admit(
    session: u64,
    pre: AdmitOutcome,
    ds: Seq<ServiceDescriptorView>,
    announce: bool,
) -> AdmitOutcome
    decreases ds.len(),
{
    if ds.len() == 0 {
        pre
    } else {
        let d = ds.first();
        let rest = ds.drop_first();
        if spec_admissible(pre.table, d) {
            let step = AdmitOutcome {
                table: pre.table.push(d.fingerprint),
                services: pre.services.push(spec_service_entry(d, session)),
                announced: if announce {
                    pre.announced.push((d.fingerprint, spec_encode(d)))
                } else {
                    pre.announced
                },
                announcements: if announce {
                    pre.announcements.push(
                        (spec_service_key(d.fingerprint, ChannelKind::Details), spec_encode(d)),
                    )
                } else {
                    pre.announcements
                },
                rejected: pre.rejected,
            };
            spec_admit(session, step, rest, announce)
        } else if !pre.table.contains(d.fingerprint) {
            let step = AdmitOutcome { rejected: pre.rejected.push(d.fingerprint), ..pre };
            spec_admit(session, step, rest, announce)
        } else {
            spec_admit(session, pre, rest, announce)
        }
    }
}

/// One well-formed table entry: its connector belongs to its
/// fingerprint, marks its local endpoints with that fingerprint, sends
/// through the tunnel's wire session, and sits under the right keys.
pub open spec fn entry_wf(e: TunneledServiceView, session: u64) -> bool {
    match e.connector {
        Connector::Payload(c) => {
            &&& c.fingerprint == e.fingerprint
            &&& c.local_endpoint_id == e.fingerprint
            &&& c.wire_session_id == session
            &&& e.channel_key == spec_service_key(e.fingerprint, ChannelKind::Payload)
            &&& e.details_key == spec_service_key(e.fingerprint, ChannelKind::Details)
        },
        Connector::Event(c) => {
            &&& c.fingerprint == e.fingerprint
            &&& c.local_endpoint_id == e.fingerprint
            &&& c.wire_session_id == session
            &&& e.channel_key == spec_service_key(e.fingerprint, ChannelKind::Event)
            &&& e.details_key == spec_service_key(e.fingerprint, ChannelKind::Details)
        },
    }
}


/// A table admitting nothing, bridging nothing, with no outputs.
pub open spec fn spec_fresh_outcome() -> AdmitOutcome {
    AdmitOutcome {
        table: Seq::empty(),
        services: Seq::empty(),
        announced: Seq::empty(),
        announcements: Seq::empty(),
        rejected: Seq::empty(),
    }
}

/// The descriptors of a batch that enter the table, in order.
pub open spec fn spec_admitted(table: Seq<u64>, ds: Seq<ServiceDescriptorView>) -> Seq<
    ServiceDescriptorView,
>
    decreases ds.len(),
{
    if ds.len() == 0 {
        Seq::empty()
    } else {
        let d = ds.first();
        let rest = ds.drop_first();
        if spec_admissible(table, d) {
            seq![d] + spec_admitted(table.push(d.fingerprint), rest)
        } else {
            spec_admitted(table, rest)
        }
    }
}

/// A fingerprint is bridged after a batch exactly when it was bridged
/// before or the batch reported it with constructible endpoints.
pub proof fn lemma_admit_table_membership(
    session: u64,
    pre: AdmitOutcome,
    ds: Seq<ServiceDescriptorView>,
    announce: bool,
    f: u64,
)
    ensures
        spec_admit(session, pre, ds, announce).table.contains(f) <==> (pre.table.contains(f)
            || exists|i: int|
            0 <= i < ds.len() && (#[trigger] ds[i]).fingerprint == f && ds[i].constructible()),
    decreases ds.len(),
{
    broadcast use vstd::seq_lib::group_seq_properties;

    if ds.len() > 0 {
        let d = ds.first();
        let rest = ds.drop_first();
        assert forall|i: int|
            0 <= i < rest.len() && (#[trigger] rest[i]).fingerprint == f
                && rest[i].constructible() implies exists|i2: int|
            0 <= i2 < ds.len() && (#[trigger] ds[i2]).fingerprint == f
                && ds[i2].constructible() by {
            assert(ds[i + 1] == rest[i]);
        }
        if spec_admissible(pre.table, d) {
            let step = AdmitOutcome {
                table: pre.table.push(d.fingerprint),
                services: pre.services.push(spec_service_entry(d, session)),
                announced: if announce {
                    pre.announced.push((d.fingerprint, spec_encode(d)))
                } else {
                    pre.announced
                },
                announcements: if announce {
                    pre.announcements.push(
                        (spec_service_key(d.fingerprint, ChannelKind::Details), spec_encode(d)),
                    )
                } else {
                    pre.announcements
                },
                rejected: pre.rejected,
            };
            lemma_admit_table_membership(session, step, rest, announce, f);
            assert(step.table[pre.table.len() as int] == d.fingerprint);
            assert forall|x: u64| step.table.contains(x) implies (pre.table.contains(x) || x
                == d.fingerprint) by {
                let i = choose|i: int| 0 <= i < step.table.len() && step.table[i] == x;
                if i < pre.table.len() {
                    assert(pre.table[i] == x);
                }
            }
            if f == d.fingerprint {
                assert(ds[0].fingerprint == f && ds[0].constructible());
            }
            if spec_admit(session, pre, ds, announce).table.contains(f) && !pre.table.contains(f)
                && f != d.fingerprint {
                let i = choose|i: int|
                    0 <= i < rest.len() && (#[trigger] rest[i]).fingerprint == f
                        && rest[i].constructible();
                assert(ds[i + 1].fingerprint == f && ds[i + 1].constructible());
            }
            if (exists|i: int|
                0 <= i < ds.len() && (#[trigger] ds[i]).fingerprint == f
                    && ds[i].constructible()) && !pre.table.contains(f) && f != d.fingerprint {
                let i = choose|i: int|
                    0 <= i < ds.len() && (#[trigger] ds[i]).fingerprint == f
                        && ds[i].constructible();
                assert(i != 0);
                assert(rest[i - 1].fingerprint == f && rest[i - 1].constructible());
            }
        } else if !pre.table.contains(d.fingerprint) {
            let step = AdmitOutcome { rejected: pre.rejected.push(d.fingerprint), ..pre };
            lemma_admit_table_membership(session, step, rest, announce, f);
            if (exists|i: int|
                0 <= i < ds.len() && (#[trigger] ds[i]).fingerprint == f
                    && ds[i].constructible()) {
                let i = choose|i: int|
                    0 <= i < ds.len() && (#[trigger] ds[i]).fingerprint == f
                        && ds[i].constructible();
                if i > 0 {
                    assert(rest[i - 1].fingerprint == f && rest[i - 1].constructible());
                }
            }
        } else {
            lemma_admit_table_membership(session, pre, rest, announce, f);
            if (exists|i: int|
                0 <= i < ds.len() && (#[trigger] ds[i]).fingerprint == f
                    && ds[i].constructible()) {
                let i = choose|i: int|
                    0 <= i < ds.len() && (#[trigger] ds[i]).fingerprint == f
                        && ds[i].constructible();
                if i > 0 {
                    assert(rest[i - 1].fingerprint == f && rest[i - 1].constructible());
                } else {
                    assert(pre.table.contains(f));
                }
            }
        }
    }
}

/// Admission never duplicates a fingerprint in the table.
pub proof fn lemma_admit_table_no_duplicates(
    session: u64,
    pre: AdmitOutcome,
    ds: Seq<ServiceDescriptorView>,
    announce: bool,
)
    requires
        pre.table.no_duplicates(),
    ensures
        spec_admit(session, pre, ds, announce).table.no_duplicates(),
    decreases ds.len(),
{
    broadcast use vstd::seq_lib::group_seq_properties;

    if ds.len() > 0 {
        let d = ds.first();
        let rest = ds.drop_first();
        if spec_admissible(pre.table, d) {
            let step = AdmitOutcome {
                table: pre.table.push(d.fingerprint),
                services: pre.services.push(spec_service_entry(d, session)),
                announced: if announce {
                    pre.announced.push((d.fingerprint, spec_encode(d)))
                } else {
                    pre.announced
                },
                announcements: if announce {
                    pre.announcements.push(
                        (spec_service_key(d.fingerprint, ChannelKind::Details), spec_encode(d)),
                    )
                } else {
                    pre.announcements
                },
                rejected: pre.rejected,
            };
            assert(step.table.no_duplicates()) by {
                assert forall|i: int, j: int|
                    0 <= i < step.table.len() && 0 <= j < step.table.len() && i
                        != j implies step.table[i] != step.table[j] by {
                    if i < pre.table.len() && j < pre.table.len() {
                        assert(pre.table[i] != pre.table[j]);
                    } else if i < pre.table.len() {
                        assert(pre.table.contains(pre.table[i]));
                    } else if j < pre.table.len() {
                        assert(pre.table.contains(pre.table[j]));
                    }
                }
            }
            lemma_admit_table_no_duplicates(session, step, rest, announce);
        } else if !pre.table.contains(d.fingerprint) {
            let step = AdmitOutcome { rejected: pre.rejected.push(d.fingerprint), ..pre };
            lemma_admit_table_no_duplicates(session, step, rest, announce);
        } else {
            lemma_admit_table_no_duplicates(session, pre, rest, announce);
        }
    }
}

/// What a batch announces is exactly what it admits, in order: the
/// details key and encoded descriptor of each newly bridged service.
pub proof fn lemma_admit_announcements(
    session: u64,
    pre: AdmitOutcome,
    ds: Seq<ServiceDescriptorView>,
)
    ensures
        spec_admit(session, pre, ds, true).announcements.len() == pre.announcements.len()
            + spec_admitted(pre.table, ds).len(),
        forall|j: int|
            0 <= j < pre.announcements.len() ==> spec_admit(session, pre, ds, true).announcements[j]
                == pre.announcements[j],
        forall|j: int|
            0 <= j < spec_admitted(pre.table, ds).len() ==> spec_admit(
                session,
                pre,
                ds,
                true,
            ).announcements[pre.announcements.len() + j] == (
            spec_service_key(
                (#[trigger] spec_admitted(pre.table, ds)[j]).fingerprint,
                ChannelKind::Details,
            ),
            spec_encode(spec_admitted(pre.table, ds)[j]),
            ),
    decreases ds.len(),
{
    if ds.len() > 0 {
        let d = ds.first();
        let rest = ds.drop_first();
        let out = spec_admit(session, pre, ds, true);
        if spec_admissible(pre.table, d) {
            let step = AdmitOutcome {
                table: pre.table.push(d.fingerprint),
                services: pre.services.push(spec_service_entry(d, session)),
                announced: pre.announced.push((d.fingerprint, spec_encode(d))),
                announcements: pre.announcements.push(
                    (spec_service_key(d.fingerprint, ChannelKind::Details), spec_encode(d)),
                ),
                rejected: pre.rejected,
            };
            lemma_admit_announcements(session, step, rest);
            let sub = spec_admitted(step.table, rest);
            assert(spec_admitted(pre.table, ds) =~= seq![d] + sub);
            assert forall|j: int|
                0 <= j < pre.announcements.len() implies out.announcements[j]
                == pre.announcements[j] by {
                assert(out.announcements[j] == step.announcements[j]);
                assert(step.announcements[j] == pre.announcements[j]);
            }
            assert forall|j: int|
                0 <= j < spec_admitted(pre.table, ds).len() implies out.announcements[pre.announcements.len()
                + j] == (
            spec_service_key(
                (#[trigger] spec_admitted(pre.table, ds)[j]).fingerprint,
                ChannelKind::Details,
            ),
            spec_encode(spec_admitted(pre.table, ds)[j]),
            ) by {
                if j == 0 {
                    assert(out.announcements[pre.announcements.len() as int]
                        == step.announcements[pre.announcements.len() as int]);
                    assert(spec_admitted(pre.table, ds)[0] == d);
                } else {
                    assert(spec_admitted(pre.table, ds)[j] == sub[j - 1]);
                    assert(out.announcements[step.announcements.len() + (j - 1)] == (
                    spec_service_key(sub[j - 1].fingerprint, ChannelKind::Details),
                    spec_encode(sub[j - 1]),
                    ));
                }
            }
        } else {
            lemma_admit_announcements(
                session,
                if !pre.table.contains(d.fingerprint) {
                    AdmitOutcome { rejected: pre.rejected.push(d.fingerprint), ..pre }
                } else {
                    pre
                },
                rest,
            );
        }
    }
}

/// Admitted descriptors come from the batch, are constructible, and
/// cover exactly the new constructible fingerprints of the batch.
pub proof fn lemma_admitted_properties(table: Seq<u64>, ds: Seq<ServiceDescriptorView>)
    ensures
        forall|j: int|
            0 <= j < spec_admitted(table, ds).len() ==> (#[trigger] spec_admitted(
                table,
                ds,
            )[j]).constructible(),
        forall|j: int|
            0 <= j < spec_admitted(table, ds).len() ==> exists|i: int|
                0 <= i < ds.len() && ds[i] == #[trigger] spec_admitted(table, ds)[j],
        forall|f: u64|
            crate::descriptor::fingerprints_of(spec_admitted(table, ds)).contains(f) <==> (
            !table.contains(f) && exists|i: int|
                0 <= i < ds.len() && (#[trigger] ds[i]).fingerprint == f
                    && ds[i].constructible()),
    decreases ds.len(),
{
    broadcast use vstd::seq_lib::group_seq_properties;

    let out = spec_admitted(table, ds);
    let fps = crate::descriptor::fingerprints_of(out);
    if ds.len() == 0 {
        assert(fps =~= Seq::<u64>::empty());
    } else {
        let d = ds.first();
        let rest = ds.drop_first();
        assert forall|i: int|
            0 <= i < rest.len() && (#[trigger] rest[i]).fingerprint == rest[i].fingerprint
                implies ds[i + 1] == rest[i] by {}
        if spec_admissible(table, d) {
            let t2 = table.push(d.fingerprint);
            lemma_admitted_properties(t2, rest);
            let sub = spec_admitted(t2, rest);
            let subfps = crate::descriptor::fingerprints_of(sub);
            assert(out =~= seq![d] + sub);
            assert(fps =~= seq![d.fingerprint] + subfps);
            assert(t2[table.len() as int] == d.fingerprint);
            assert forall|x: u64| t2.contains(x) implies (table.contains(x) || x
                == d.fingerprint) by {
                let i = choose|i: int| 0 <= i < t2.len() && t2[i] == x;
                if i < table.len() {
                    assert(table[i] == x);
                }
            }
            assert forall|j: int|
                0 <= j < out.len() implies exists|i: int|
                0 <= i < ds.len() && ds[i] == #[trigger] out[j] by {
                if j == 0 {
                    assert(ds[0] == out[0]);
                } else {
                    let i = choose|i: int| 0 <= i < rest.len() && rest[i] == sub[j - 1];
                    assert(ds[i + 1] == out[j]);
                }
            }
            assert forall|f: u64| fps.contains(f) implies (!table.contains(f) && exists|i: int|
                0 <= i < ds.len() && (#[trigger] ds[i]).fingerprint == f
                    && ds[i].constructible()) by {
                let j = choose|j: int| 0 <= j < fps.len() && fps[j] == f;
                if j == 0 {
                    assert(ds[0].fingerprint == f && ds[0].constructible());
                } else {
                    assert(subfps[j - 1] == f);
                    assert(subfps.contains(f));
                    assert(!t2.contains(f) && exists|i: int|
                        0 <= i < rest.len() && (#[trigger] rest[i]).fingerprint == f
                            && rest[i].constructible());
                    let i = choose|i: int|
                        0 <= i < rest.len() && (#[trigger] rest[i]).fingerprint == f
                            && rest[i].constructible();
                    assert(ds[i + 1].fingerprint == f && ds[i + 1].constructible());
                }
            }
            assert forall|f: u64|
                (!table.contains(f) && exists|i: int|
                    0 <= i < ds.len() && (#[trigger] ds[i]).fingerprint == f
                        && ds[i].constructible()) implies fps.contains(f) by {
                if f == d.fingerprint {
                    assert(fps[0] == f);
                } else {
                    let i = choose|i: int|
                        0 <= i < ds.len() && (#[trigger] ds[i]).fingerprint == f
                            && ds[i].constructible();
                    assert(i != 0);
                    assert(rest[i - 1].fingerprint == f && rest[i - 1].constructible());
                    assert(!t2.contains(f));
                    assert(subfps.contains(f));
                    let j = choose|j: int| 0 <= j < subfps.len() && subfps[j] == f;
                    assert(fps[j + 1] == f);
                }
            }
        } else {
            lemma_admitted_properties(table, rest);
            let sub = spec_admitted(table, rest);
            assert forall|j: int|
                0 <= j < out.len() implies exists|i: int|
                0 <= i < ds.len() && ds[i] == #[trigger] out[j] by {
                let i = choose|i: int| 0 <= i < rest.len() && rest[i] == sub[j];
                assert(ds[i + 1] == out[j]);
            }
            assert forall|f: u64|
                (!table.contains(f) && exists|i: int|
                    0 <= i < ds.len() && (#[trigger] ds[i]).fingerprint == f
                        && ds[i].constructible()) implies fps.contains(f) by {
                let i = choose|i: int|
                    0 <= i < ds.len() && (#[trigger] ds[i]).fingerprint == f
                        && ds[i].constructible();
                assert(i != 0);
                assert(rest[i - 1].fingerprint == f && rest[i - 1].constructible());
            }
        }
    }
}


/// The payloads of a batch of announcements.
pub open spec fn announcement_payloads(anns: Seq<(Seq<char>, Seq<char>)>) -> Seq<Seq<char>> {
    anns.map_values(|p: (Seq<char>, Seq<char>)| p.1)
}

/// In a batch of constructible descriptors, the first reports carry
/// exactly the batch's fingerprints, constructible each.
proof fn lemma_dedup_fps(events: Seq<ServiceDescriptorView>)
    requires
        forall|i: int| 0 <= i < events.len() ==> (#[trigger] events[i]).constructible(),
    ensures
        forall|j: int|
            0 <= j < spec_dedup_new(events, Seq::empty()).len() ==> (#[trigger] spec_dedup_new(
                events,
                Seq::empty(),
            )[j]).constructible(),
        forall|f: u64|
            (exists|i: int|
                0 <= i < spec_dedup_new(events, Seq::empty()).len() && (#[trigger] spec_dedup_new(
                    events,
                    Seq::empty(),
                )[i]).fingerprint == f && spec_dedup_new(events, Seq::empty())[i].constructible())
                <==> crate::descriptor::fingerprints_of(events).contains(f),
{
    broadcast use vstd::seq_lib::group_seq_properties;

    let out = spec_dedup_new(events, Seq::empty());
    let fps = crate::descriptor::fingerprints_of(events);
    crate::discovery::lemma_dedup_new_exactly_once(events, Seq::empty());
    assert forall|j: int|
        0 <= j < out.len() implies (#[trigger] out[j]).constructible() by {
        let i = choose|i: int| 0 <= i < events.len() && events[i] == out[j];
        assert(events[i].constructible());
    }
    assert forall|f: u64|
        (exists|i: int|
            0 <= i < out.len() && (#[trigger] out[i]).fingerprint == f
                && out[i].constructible()) implies fps.contains(f) by {
        let j = choose|j: int|
            0 <= j < out.len() && (#[trigger] out[j]).fingerprint == f && out[j].constructible();
        let i = choose|i: int| 0 <= i < events.len() && events[i] == out[j];
        assert(fps[i] == f);
    }
    assert forall|f: u64| fps.contains(f) implies (exists|i: int|
        0 <= i < out.len() && (#[trigger] out[i]).fingerprint == f
            && out[i].constructible()) by {
        let k = choose|k: int| 0 <= k < fps.len() && fps[k] == f;
        assert(events[k].fingerprint == f);
        assert(!Seq::<u64>::empty().contains(f));
        let j = choose|j: int| 0 <= j < out.len() && (#[trigger] out[j]).fingerprint == f;
        assert(out[j].constructible());
    }
}

/// Idempotent discovery: discovering a stable set of local services
/// fills the table with exactly their fingerprints, without
/// duplication, and any further poll of the unchanged world reports
/// nothing and moves nothing.
pub proof fn lemma_idempotent_discovery(session: u64, snap: Seq<ServiceDescriptorView>)
    requires
        forall|i: int| 0 <= i < snap.len() ==> (#[trigger] snap[i]).constructible(),
    ensures
        ({
            let once = spec_admit(
                session,
                spec_fresh_outcome(),
                spec_dedup_new(snap, Seq::empty()),
                true,
            );
            &&& spec_dedup_new(snap, spec_seen_after(snap, Seq::empty())) == Seq::<
                ServiceDescriptorView,
            >::empty()
            &&& forall|o: AdmitOutcome, announce: bool|
                #[trigger] spec_admit(
                    session,
                    o,
                    spec_dedup_new(snap, spec_seen_after(snap, Seq::empty())),
                    announce,
                ) == o
            &&& forall|f: u64|
                once.table.contains(f) <==> crate::descriptor::fingerprints_of(snap).contains(f)
            &&& once.table.no_duplicates()
        }),
{
    broadcast use vstd::seq_lib::group_seq_properties;

    let added = spec_dedup_new(snap, Seq::empty());
    let once = spec_admit(session, spec_fresh_outcome(), added, true);
    let known = spec_seen_after(snap, Seq::empty());
    let fps = crate::descriptor::fingerprints_of(snap);
    assert forall|i: int|
        0 <= i < snap.len() implies known.contains((#[trigger] snap[i]).fingerprint) by {
        crate::discovery::lemma_seen_after_membership(snap, Seq::empty(), snap[i].fingerprint);
        assert(fps[i] == snap[i].fingerprint);
    }
    crate::discovery::lemma_dedup_new_all_seen(snap, known);
    lemma_admit_table_no_duplicates(session, spec_fresh_outcome(), added, true);
    lemma_dedup_fps(snap);
    assert forall|f: u64| once.table.contains(f) <==> fps.contains(f) by {
        lemma_admit_table_membership(session, spec_fresh_outcome(), added, true, f);
    }
}

/// Cross-scope convergence, seen from the receiving host: when one host
/// announces its local services and a peer ingests those announcements
/// beside its own local set, the peer's table holds exactly the union
/// of both fingerprint sets, without duplication. Exchanging the two
/// roles gives the same for the other host, so both converge on the
/// union after one announcement exchange.
pub proof fn lemma_cross_scope_convergence(
    session_a: u64,
    session_b: u64,
    sa: Seq<ServiceDescriptorView>,
    sb: Seq<ServiceDescriptorView>,
)
    requires
        forall|i: int| 0 <= i < sa.len() ==> (#[trigger] sa[i]).constructible(),
        forall|i: int| 0 <= i < sa.len() ==> (#[trigger] sa[i]).wf(),
        forall|i: int| 0 <= i < sb.len() ==> (#[trigger] sb[i]).constructible(),
    ensures
        ({
            let oa = spec_admit(
                session_a,
                spec_fresh_outcome(),
                spec_dedup_new(sa, Seq::empty()),
                true,
            );
            let payloads = announcement_payloads(oa.announcements);
            let ob1 = spec_admit(
                session_b,
                spec_fresh_outcome(),
                spec_dedup_new(sb, Seq::empty()),
                true,
            );
            let ob2 = spec_admit(
                session_b,
                AdmitOutcome { announcements: Seq::empty(), rejected: Seq::empty(), ..ob1 },
                spec_dedup_new(spec_decode_all(payloads).unwrap(), Seq::empty()),
                false,
            );
            &&& spec_decode_all(payloads) is Some
            &&& forall|f: u64|
                ob2.table.contains(f) <==> (crate::descriptor::fingerprints_of(sa).contains(f)
                    || crate::descriptor::fingerprints_of(sb).contains(f))
            &&& ob2.table.no_duplicates()
        }),
{
    broadcast use vstd::seq_lib::group_seq_properties;

    let added_a = spec_dedup_new(sa, Seq::empty());
    let oa = spec_admit(session_a, spec_fresh_outcome(), added_a, true);
    let admitted_a = spec_admitted(Seq::empty(), added_a);
    crate::discovery::lemma_dedup_new_exactly_once(sa, Seq::empty());
    assert forall|j: int|
        0 <= j < added_a.len() implies (#[trigger] added_a[j]).wf()
        && added_a[j].constructible() by {
        let i = choose|i: int| 0 <= i < sa.len() && sa[i] == added_a[j];
        assert(sa[i].wf() && sa[i].constructible());
    }
    lemma_admit_announcements(session_a, spec_fresh_outcome(), added_a);
    lemma_admitted_properties(Seq::empty(), added_a);
    assert forall|j: int|
        0 <= j < admitted_a.len() implies (#[trigger] admitted_a[j]).wf() by {
        let i = choose|i: int| 0 <= i < added_a.len() && added_a[i] == admitted_a[j];
        assert(added_a[i].wf());
    }
    let payloads = announcement_payloads(oa.announcements);
    let encs = admitted_a.map_values(|d: ServiceDescriptorView| spec_encode(d));
    assert(payloads =~= encs) by {
        assert(oa.announcements.len() == admitted_a.len());
        assert forall|j: int| 0 <= j < admitted_a.len() implies payloads[j] == encs[j] by {
            assert(oa.announcements[j] == (
            spec_service_key(admitted_a[j].fingerprint, ChannelKind::Details),
            spec_encode(admitted_a[j]),
            ));
        }
    }
    crate::discovery::lemma_decode_all_encodes(admitted_a);
    assert(spec_decode_all(payloads) == Some(admitted_a));
    let added_b = spec_dedup_new(sb, Seq::empty());
    let ob1 = spec_admit(session_b, spec_fresh_outcome(), added_b, true);
    let pre2 = AdmitOutcome { announcements: Seq::empty(), rejected: Seq::empty(), ..ob1 };
    let wire_b = spec_dedup_new(admitted_a, Seq::empty());
    let ob2 = spec_admit(session_b, pre2, wire_b, false);
    lemma_admit_table_no_duplicates(session_b, spec_fresh_outcome(), added_b, true);
    lemma_admit_table_no_duplicates(session_b, pre2, wire_b, false);
    lemma_dedup_fps(sb);
    assert forall|j: int|
        0 <= j < admitted_a.len() implies (#[trigger] admitted_a[j]).constructible() by {}
    lemma_dedup_fps(admitted_a);
    lemma_dedup_fps(sa);
    assert forall|f: u64|
        ob2.table.contains(f) <==> (crate::descriptor::fingerprints_of(sa).contains(f)
            || crate::descriptor::fingerprints_of(sb).contains(f)) by {
        lemma_admit_table_membership(session_b, pre2, wire_b, false, f);
        lemma_admit_table_membership(session_b, spec_fresh_outcome(), added_b, true, f);
        assert(crate::descriptor::fingerprints_of(admitted_a).contains(f) <==> (
        crate::descriptor::fingerprints_of(sa).contains(f)));
    }
}

/// The local discovery port a tunnel was configured with.
pub enum LocalDiscoverySource {
    Tracker(DiscoveryTracker),
    Daemon(DaemonDiscovery),
}

/// The inputs one `discover` call works from, as drained by the host.
pub struct DiscoveryInput {
    /// A snapshot of the local registry, or `None` where reading it
    /// failed. Consulted by the tracker variant.
    pub snapshot: Option<Vec<ServiceDescriptor>>,
    /// Descriptor events received on the daemon topic since the last
    /// call. Consulted by the daemon variant.
    pub daemon_events: Vec<ServiceDescriptor>,
    /// Whether the daemon topic subscriber overflowed and lost events
    /// since the last call. A loss must be reported, never silently
    /// dropped. Consulted by the daemon variant.
    pub daemon_events_missed: bool,
    /// Announcement payloads received on the wire details keyspace.
    pub announcements: Vec<String>,
}

/// What one `discover` call asks the host to do, besides what it did to
/// the table: publish the announcements on the wire, and note the
/// fingerprints whose endpoint construction failed.
#[derive(Debug)]
pub struct DiscoverOutcome {
    pub announcements: Vec<(String, String)>,
    pub rejected: Vec<u64>,
}

/// The mathematical values of announcement pairs.
pub open spec fn pair_views(s: Seq<(String, String)>) -> Seq<(Seq<char>, Seq<char>)> {
    s.map_values(|p: (String, String)| (p.0@, p.1@))
}


/// The traffic one host cycle drained for one bridged service, in FIFO
/// order of each source.
pub struct ServiceTraffic {
    pub fingerprint: u64,
    /// Samples the connector's local subscriber yielded.
    pub local_samples: Vec<crate::payload::LocalSample>,
    /// Samples the connector's wire subscriber yielded.
    pub wire_samples: Vec<crate::payload::WireSample>,
    /// Notifications the connector's local listener yielded.
    pub local_events: Vec<crate::event::EventNotice>,
    /// Events the connector's wire subscriber yielded.
    pub wire_events: Vec<crate::event::WireEvent>,
}

/// The mathematical value of a [`ServiceTraffic`].
pub struct ServiceTrafficView {
    pub fingerprint: u64,
    pub local_samples: Seq<crate::payload::LocalSampleView>,
    pub wire_samples: Seq<crate::payload::WireSampleView>,
    pub local_events: Seq<crate::event::EventNotice>,
    pub wire_events: Seq<crate::event::WireEvent>,
}

impl View for ServiceTraffic {
    type V = ServiceTrafficView;

    open spec fn view(&self) -> ServiceTrafficView {
        ServiceTrafficView {
            fingerprint: self.fingerprint,
            local_samples: crate::payload::local_views(self.local_samples@),
            wire_samples: crate::payload::wire_views(self.wire_samples@),
            local_events: self.local_events@,
            wire_events: self.wire_events@,
        }
    }
}

/// What one cycle must perform for one bridged service: publishes onto
/// the wire and injections into the local bus.
pub struct ServiceOutput {
    pub fingerprint: u64,
    pub to_wire_samples: Vec<crate::payload::WireSample>,
    pub to_local_samples: Vec<crate::payload::LocalSample>,
    pub to_wire_events: Vec<crate::event::WireEvent>,
    pub to_local_events: Vec<crate::event::EventNotice>,
}

/// The mathematical value of a [`ServiceOutput`].
pub struct ServiceOutputView {
    pub fingerprint: u64,
    pub to_wire_samples: Seq<crate::payload::WireSampleView>,
    pub to_local_samples: Seq<crate::payload::LocalSampleView>,
    pub to_wire_events: Seq<crate::event::WireEvent>,
    pub to_local_events: Seq<crate::event::EventNotice>,
}

impl View for ServiceOutput {
    type V = ServiceOutputView;

    open spec fn view(&self) -> ServiceOutputView {
        ServiceOutputView {
            fingerprint: self.fingerprint,
            to_wire_samples: crate::payload::wire_views(self.to_wire_samples@),
            to_local_samples: crate::payload::local_views(self.to_local_samples@),
            to_wire_events: self.to_wire_events@,
            to_local_events: self.to_local_events@,
        }
    }
}

/// What one propagation step does for one service: the outputs of both
/// directions, and the connector with its failure count brought up to
/// date.
pub open spec fn spec_service_propagate(conn: Connector, t: ServiceTrafficView) -> (
    ServiceOutputView,
    Connector,
) {
    match conn {
        Connector::Payload(c) => (
            ServiceOutputView {
                fingerprint: t.fingerprint,
                to_wire_samples: c.spec_outbound(t.local_samples),
                to_local_samples: c.spec_inbound(t.wire_samples),
                to_wire_events: Seq::empty(),
                to_local_events: Seq::empty(),
            },
            Connector::Payload(
                PayloadConnector {
                    failed_relays: crate::payload::spec_saturating_add(
                        c.failed_relays,
                        c.spec_inbound_dropped(t.wire_samples),
                    ),
                    ..c
                },
            ),
        ),
        Connector::Event(c) => (
            ServiceOutputView {
                fingerprint: t.fingerprint,
                to_wire_samples: Seq::empty(),
                to_local_samples: Seq::empty(),
                to_wire_events: c.spec_outbound(t.local_events),
                to_local_events: c.spec_inbound(t.wire_events),
            },
            Connector::Event(
                EventConnector {
                    failed_relays: crate::payload::spec_saturating_add(
                        c.failed_relays,
                        c.spec_inbound_dropped(t.wire_events),
                    ),
                    ..c
                },
            ),
        ),
    }
}

/// The tunnel: one per host, bridging its local bus to the wire.
pub struct Tunnel {
    config: TunnelConfig,
    local_config: LocalBusConfig,
    wire_config: WireConfig,
    table: TunneledServiceTable,
    services: Vec<TunneledService>,
    local_source: LocalDiscoverySource,
    remote: RemoteDiscovery,
    announcer: AnnouncementPort,
}

impl Tunnel {
    /// The fingerprints currently bridged, in insertion order.
    pub closed spec fn table_view(self) -> Seq<u64> {
        self.table@
    }

    /// The table entries, parallel to `table_view`.
    pub closed spec fn services_view(self) -> Seq<TunneledServiceView> {
        service_views(self.services@)
    }

    /// Whether local discovery subscribes to a daemon topic.
    pub closed spec fn uses_daemon(self) -> bool {
        self.local_source is Daemon
    }

    /// The fingerprints the local discovery port has already reported.
    pub closed spec fn local_seen(self) -> Seq<u64> {
        match self.local_source {
            LocalDiscoverySource::Tracker(t) => t.known(),
            LocalDiscoverySource::Daemon(d) => d.seen(),
        }
    }

    /// The fingerprints the wire discovery port has already reported.
    pub closed spec fn remote_seen(self) -> Seq<u64> {
        self.remote.seen()
    }

    /// The announcements remembered for queries.
    pub closed spec fn announced(self) -> Seq<(u64, Seq<char>)> {
        self.announcer@
    }

    /// The tunnel's session on the wire.
    pub closed spec fn session_id(self) -> u64 {
        self.wire_config.session_id
    }

    pub closed spec fn wf(self) -> bool {
        &&& self.table.wf()
        &&& match self.local_source {
            LocalDiscoverySource::Tracker(t) => t.wf(),
            LocalDiscoverySource::Daemon(d) => d.wf(),
        }
        &&& self.remote.wf()
        &&& self.services_view().len() == self.table_view().len()
        &&& forall|i: int|
            0 <= i < self.services_view().len() ==> (#[trigger] self.services_view()[i]).fingerprint
                == self.table_view()[i]
        &&& forall|i: int|
            0 <= i < self.services_view().len() ==> entry_wf(
                #[trigger] self.services_view()[i],
                self.session_id(),
            )
    }

    /// Builds a tunnel from its three configurations. It bridges
    /// nothing until `discover` is called.
    pub fn create(
        config: &TunnelConfig,
        local_config: &LocalBusConfig,
        wire_config: &WireConfig,
    ) -> (r: Tunnel)
        ensures
            r.wf(),
            r.table_view() == Seq::<u64>::empty(),
            r.services_view() == Seq::<TunneledServiceView>::empty(),
            r.local_seen() == Seq::<u64>::empty(),
            r.remote_seen() == Seq::<u64>::empty(),
            r.announced() == Seq::<(u64, Seq<char>)>::empty(),
            r.uses_daemon() == (config.discovery_service is Some),
            r.session_id() == wire_config.session_id,
    {
        let own_config = TunnelConfig {
            discovery_service: match &config.discovery_service {
                Some(topic) => Some(topic.clone()),
                None => None,
            },
        };
        let local_source = match &config.discovery_service {
            Some(_) => LocalDiscoverySource::Daemon(DaemonDiscovery::create()),
            None => LocalDiscoverySource::Tracker(DiscoveryTracker::create()),
        };
        let r = Tunnel {
            config: own_config,
            local_config: LocalBusConfig { node_id: local_config.node_id },
            wire_config: WireConfig { session_id: wire_config.session_id },
            table: TunneledServiceTable::new(),
            services: Vec::new(),
            local_source,
            remote: RemoteDiscovery::create(),
            announcer: AnnouncementPort::new(),
        };
        proof {
            assert(r.services_view() =~= Seq::<TunneledServiceView>::empty());
        }
        r
    }

    /// The fingerprints of the currently bridged services.
    pub fn tunneled_services(&self) -> (r: Vec<u64>)
        ensures
            r@ == self.table_view(),
    {
        self.table.to_vec()
    }

    /// The announced descriptor payload of a bridged service, if one
    /// was announced.
    pub fn announcement_of(&self, fingerprint: u64) -> (r: Option<String>)
        ensures
            match r {
                Some(p) => crate::announce::spec_lookup(self.announced(), fingerprint) == Some(p@),
                None => crate::announce::spec_lookup(self.announced(), fingerprint) is None,
            },
    {
        self.announcer.query(fingerprint)
    }

    /// Admits one batch of reported descriptors, extending the table,
    /// the connectors and, when announcing, the announcement port.
    fn admit_batch(
        &mut self,
        batch: &Vec<ServiceDescriptor>,
        announce: bool,
        out: &mut DiscoverOutcome,
    )
        requires
            old(self).wf(),
        ensures
            final(self).wf(),
            ({
                let o = spec_admit(
                    old(self).session_id(),
                    AdmitOutcome {
                        table: old(self).table_view(),
                        services: old(self).services_view(),
                        announced: old(self).announced(),
                        announcements: pair_views(old(out).announcements@),
                        rejected: old(out).rejected@,
                    },
                    views_of(batch@),
                    announce,
                );
                &&& final(self).table_view() == o.table
                &&& final(self).services_view() == o.services
                &&& final(self).announced() == o.announced
                &&& pair_views(final(out).announcements@) == o.announcements
                &&& final(out).rejected@ == o.rejected
            }),
            final(self).session_id() == old(self).session_id(),
            final(self).uses_daemon() == old(self).uses_daemon(),
            final(self).local_seen() == old(self).local_seen(),
            final(self).remote_seen() == old(self).remote_seen(),
    {
        let ghost session = self.wire_config.session_id;
        let ghost ds = views_of(batch@);
        let ghost pre0 = AdmitOutcome {
            table: self.table_view(),
            services: self.services_view(),
            announced: self.announced(),
            announcements: pair_views(out.announcements@),
            rejected: out.rejected@,
        };
        let mut i: usize = 0;
        proof {
            assert(ds.skip(0) =~= ds);
        }
        while i < batch.len()
            invariant
                i <= batch.len(),
                ds == views_of(batch@),
                ds.len() == batch.len(),
                self.wf(),
                self.session_id() == session,
                spec_admit(session, pre0, ds, announce) == spec_admit(
                    session,
                    AdmitOutcome {
                        table: self.table_view(),
                        services: self.services_view(),
                        announced: self.announced(),
                        announcements: pair_views(out.announcements@),
                        rejected: out.rejected@,
                    },
                    ds.skip(i as int),
                    announce,
                ),
                self.uses_daemon() == old(self).uses_daemon(),
                self.local_seen() == old(self).local_seen(),
                self.remote_seen() == old(self).remote_seen(),
            decreases batch.len() - i,
        {
            let d = &batch[i];
            let fp = d.fingerprint;
            proof {
                assert(ds.skip(i as int).first() == ds[i as int]);
                assert(ds.skip(i as int).drop_first() =~= ds.skip(i as int + 1));
                assert(ds[i as int] == batch@[i as int]@);
            }
            if self.table.contains(fp) {
                // already bridged: insertion is a no-op
            } else if !d.is_constructible() {
                out.rejected.push(fp);
            } else {
                self.table.insert(fp);
                let session_now = self.wire_config.session_id;
                let (connector, channel_key) = match &d.pattern {
                    MessagingPattern::PublishSubscribe { shape, payload_type, .. } => {
                        (
                            Connector::Payload(
                                PayloadConnector::create(
                                    fp,
                                    *shape,
                                    payload_type.size,
                                    u64::MAX,
                                    fp,
                                    session_now,
                                ),
                            ),
                            crate::keys::publish_subscribe(fp),
                        )
                    },
                    MessagingPattern::Event { greatest_event_id, .. } => {
                        (
                            Connector::Event(
                                EventConnector::create(fp, *greatest_event_id, fp, session_now),
                            ),
                            crate::keys::event(fp),
                        )
                    },
                };
                let details_key = crate::keys::service_details(fp);
                let ghost services_before = self.services@;
                self.services.push(
                    TunneledService { fingerprint: fp, connector, channel_key, details_key },
                );
                proof {
                    assert(service_views(self.services@) =~= service_views(services_before).push(
                        spec_service_entry(ds[i as int], session),
                    ));
                }
                if announce {
                    let (key, payload) = self.announcer.announce(d);
                    let ghost anns_before = out.announcements@;
                    out.announcements.push((key, payload));
                    proof {
                        assert(pair_views(out.announcements@) =~= pair_views(anns_before).push(
                            (
                                spec_service_key(fp, ChannelKind::Details),
                                spec_encode(ds[i as int]),
                            ),
                        ));
                    }
                }
            }
            i = i + 1;
        }
        proof {
            assert(ds.skip(batch@.len() as int) =~= Seq::<ServiceDescriptorView>::empty());
        }
    }

    /// Grows the table from the named discovery plane or planes. Local
    /// reports are admitted first and announced on the wire; wire
    /// reports are admitted after them, without announcement. A
    /// discovery failure is surfaced and leaves the tunnel unchanged; a
    /// per-service endpoint construction failure only skips that
    /// fingerprint, and the rest of the batch is still processed.
    pub fn discover(&mut self, scope: Scope, input: &DiscoveryInput) -> (r: Result<
        DiscoverOutcome,
        DiscoveryError,
    >)
        requires
            old(self).wf(),
        ensures
            final(self).wf(),
            final(self).session_id() == old(self).session_id(),
            final(self).uses_daemon() == old(self).uses_daemon(),
            match r {
                Ok(outcome) => {
                    let local_added = if scope_local(scope) {
                        if old(self).uses_daemon() {
                            spec_dedup_new(views_of(input.daemon_events@), old(self).local_seen())
                        } else {
                            spec_dedup_new(
                                views_of(input.snapshot.unwrap()@),
                                old(self).local_seen(),
                            )
                        }
                    } else {
                        Seq::<ServiceDescriptorView>::empty()
                    };
                    let wire_added = if scope_wire(scope) {
                        spec_dedup_new(
                            spec_decode_all(string_views(input.announcements@)).unwrap(),
                            old(self).remote_seen(),
                        )
                    } else {
                        Seq::<ServiceDescriptorView>::empty()
                    };
                    let o1 = spec_admit(
                        old(self).session_id(),
                        AdmitOutcome {
                            table: old(self).table_view(),
                            services: old(self).services_view(),
                            announced: old(self).announced(),
                            announcements: Seq::empty(),
                            rejected: Seq::empty(),
                        },
                        local_added,
                        true,
                    );
                    let o2 = spec_admit(old(self).session_id(), o1, wire_added, false);
                    &&& scope_local(scope) && !old(self).uses_daemon() ==> input.snapshot is Some
                    &&& scope_local(scope) && old(self).uses_daemon()
                        ==> !input.daemon_events_missed
                    &&& scope_wire(scope) ==> spec_decode_all(string_views(input.announcements@))
                        is Some
                    &&& final(self).table_view() == o2.table
                    &&& final(self).services_view() == o2.services
                    &&& final(self).announced() == o2.announced
                    &&& pair_views(outcome.announcements@) == o2.announcements
                    &&& outcome.rejected@ == o2.rejected
                    &&& final(self).local_seen() == if scope_local(scope) {
                        if old(self).uses_daemon() {
                            spec_seen_after(views_of(input.daemon_events@), old(self).local_seen())
                        } else {
                            spec_seen_after(views_of(input.snapshot.unwrap()@), Seq::empty())
                        }
                    } else {
                        old(self).local_seen()
                    }
                    &&& final(self).remote_seen() == if scope_wire(scope) {
                        spec_seen_after(
                            spec_decode_all(string_views(input.announcements@)).unwrap(),
                            old(self).remote_seen(),
                        )
                    } else {
                        old(self).remote_seen()
                    }
                },
                Err(e) => {
                    &&& *final(self) == *old(self)
                    &&& (e == DiscoveryError::TrackerSynchronization ==> (scope_local(scope)
                        && !old(self).uses_daemon() && input.snapshot is None))
                    &&& (e == DiscoveryError::DiscoveryProcessing ==> ((scope_local(scope)
                        && old(self).uses_daemon() && input.daemon_events_missed) || (scope_wire(
                        scope,
                    ) && spec_decode_all(string_views(input.announcements@)) is None)))
                },
            },
    {
        let do_local = match scope {
            Scope::Local => true,
            Scope::Wire => false,
            Scope::Both => true,
        };
        let do_wire = match scope {
            Scope::Local => false,
            Scope::Wire => true,
            Scope::Both => true,
        };
        // Validate the tracker input first, so that a failure leaves the
        // tunnel untouched.
        if do_local {
            let tracker_variant = match &self.local_source {
                LocalDiscoverySource::Tracker(_) => true,
                LocalDiscoverySource::Daemon(_) => false,
            };
            if tracker_variant && input.snapshot.is_none() {
                return Err(DiscoveryError::TrackerSynchronization);
            }
            if !tracker_variant && input.daemon_events_missed {
                return Err(DiscoveryError::DiscoveryProcessing);
            }
        }
        // Decode and de-duplicate wire announcements; a bad batch fails
        // before anything is mutated beyond the wire port itself.
        let wire_added: Vec<ServiceDescriptor> = if do_wire {
            match self.remote.poll(&input.announcements) {
                Ok(v) => v,
                Err(e) => {
                    return Err(e);
                },
            }
        } else {
            Vec::new()
        };
        // Poll the configured local discovery port.
        let local_added: Vec<ServiceDescriptor> = if do_local {
            match &mut self.local_source {
                LocalDiscoverySource::Tracker(t) => {
                    let snapshot_ref = match &input.snapshot {
                        Some(v) => Some(v),
                        None => None,
                    };
                    match t.discover(snapshot_ref) {
                        Ok(v) => v,
                        Err(e) => {
                            return Err(e);
                        },
                    }
                },
                LocalDiscoverySource::Daemon(d) => d.poll(&input.daemon_events),
            }
        } else {
            Vec::new()
        };
        let mut outcome = DiscoverOutcome { announcements: Vec::new(), rejected: Vec::new() };
        proof {
            assert(pair_views(outcome.announcements@) =~= Seq::<(Seq<char>, Seq<char>)>::empty());
        }
        self.admit_batch(&local_added, true, &mut outcome);
        self.admit_batch(&wire_added, false, &mut outcome);
        Ok(outcome)
    }

    /// Drains both directions once for every bridged service, in table
    /// order. Non-blocking: a sample or notification that cannot be
    /// relayed is counted on its connector and skipped, and never
    /// aborts the cycle or is surfaced to the host.
    pub fn propagate(&mut self, traffic: &Vec<ServiceTraffic>) -> (out: Vec<ServiceOutput>)
        requires
            old(self).wf(),
            traffic@.len() == old(self).services_view().len(),
            forall|i: int|
                0 <= i < traffic@.len() ==> (#[trigger] traffic@[i])@.fingerprint == old(self).services_view()[i].fingerprint,
        ensures
            final(self).wf(),
            final(self).table_view() == old(self).table_view(),
            final(self).announced() == old(self).announced(),
            final(self).local_seen() == old(self).local_seen(),
            final(self).remote_seen() == old(self).remote_seen(),
            final(self).session_id() == old(self).session_id(),
            final(self).uses_daemon() == old(self).uses_daemon(),
            out@.len() == traffic@.len(),
            final(self).services_view().len() == old(self).services_view().len(),
            forall|i: int|
                0 <= i < out@.len() ==> ((#[trigger] out@[i])@, final(self).services_view()[i].connector) == spec_service_propagate(
                    old(self).services_view()[i].connector,
                    traffic@[i]@,
                ),
            forall|i: int|
                0 <= i < out@.len() ==> #[trigger] final(self).services_view()[i]
                    == (TunneledServiceView {
                    connector: final(self).services_view()[i].connector,
                    ..old(self).services_view()[i]
                }),
        {
        let ghost old_views = self.services_view();
        let ghost session = self.session_id();
        let mut out: Vec<ServiceOutput> = Vec::new();
        let mut updated: Vec<TunneledService> = Vec::new();
        let mut i: usize = 0;
        let n = self.services.len();
        while i < n
            invariant
                i <= n,
                n == self.services@.len(),
                self.wf(),
                old_views == self.services_view(),
                session == self.session_id(),
                traffic@.len() == old_views.len(),
                forall|k: int|
                    0 <= k < traffic@.len() ==> (#[trigger] traffic@[k])@.fingerprint
                        == old_views[k].fingerprint,
                out@.len() == i,
                updated@.len() == i,
                forall|k: int|
                    0 <= k < i ==> ((#[trigger] out@[k])@, service_views(updated@)[k].connector)
                        == spec_service_propagate(old_views[k].connector, traffic@[k]@),
                forall|k: int|
                    0 <= k < i ==> #[trigger] service_views(updated@)[k]
                        == (TunneledServiceView {
                        connector: service_views(updated@)[k].connector,
                        ..old_views[k]
                    }),
            decreases n - i,
        {
            let t = &traffic[i];
            let svc = &self.services[i];
            let fp = svc.fingerprint;
            let channel_key = svc.channel_key.clone();
            let details_key = svc.details_key.clone();
            match svc.connector {
                Connector::Payload(c0) => {
                    let mut c = c0;
                    let (to_wire, to_local) = c.propagate(&t.local_samples, &t.wire_samples);
                    out.push(
                        ServiceOutput {
                            fingerprint: t.fingerprint,
                            to_wire_samples: to_wire,
                            to_local_samples: to_local,
                            to_wire_events: Vec::new(),
                            to_local_events: Vec::new(),
                        },
                    );
                    let ghost upd_before = updated@;
                    updated.push(
                        TunneledService {
                            fingerprint: fp,
                            connector: Connector::Payload(c),
                            channel_key,
                            details_key,
                        },
                    );
                    proof {
                        assert forall|k: int| 0 <= k < upd_before.len() implies #[trigger] service_views(
                            updated@,
                        )[k] == service_views(upd_before)[k] by {
                            assert(updated@[k] == upd_before[k]);
                            assert(service_views(upd_before)[k] == upd_before[k]@);
                        }
                        assert(service_views(updated@)[i as int] == updated@[i as int]@);
                        assert(out@[i as int]@.to_wire_events =~= Seq::<
                            crate::event::WireEvent,
                        >::empty());
                        assert(out@[i as int]@.to_local_events =~= Seq::<
                            crate::event::EventNotice,
                        >::empty());
                        assert((out@[i as int]@, service_views(updated@)[i as int].connector)
                            == spec_service_propagate(
                            old_views[i as int].connector,
                            traffic@[i as int]@,
                        ));
                        assert(service_views(updated@)[i as int] == (TunneledServiceView {
                            connector: service_views(updated@)[i as int].connector,
                            ..old_views[i as int]
                        }));
                    }
                },
                Connector::Event(c0) => {
                    let mut c = c0;
                    let (to_wire, to_local) = c.propagate(&t.local_events, &t.wire_events);
                    out.push(
                        ServiceOutput {
                            fingerprint: t.fingerprint,
                            to_wire_samples: Vec::new(),
                            to_local_samples: Vec::new(),
                            to_wire_events: to_wire,
                            to_local_events: to_local,
                        },
                    );
                    let ghost upd_before = updated@;
                    updated.push(
                        TunneledService {
                            fingerprint: fp,
                            connector: Connector::Event(c),
                            channel_key,
                            details_key,
                        },
                    );
                    proof {
                        assert forall|k: int| 0 <= k < upd_before.len() implies #[trigger] service_views(
                            updated@,
                        )[k] == service_views(upd_before)[k] by {
                            assert(updated@[k] == upd_before[k]);
                            assert(service_views(upd_before)[k] == upd_before[k]@);
                        }
                        assert(service_views(updated@)[i as int] == updated@[i as int]@);
                        assert(out@[i as int]@.to_wire_samples =~= crate::payload::wire_views(
                            Seq::<crate::payload::WireSample>::empty(),
                        ));
                        assert(out@[i as int]@.to_local_samples =~= crate::payload::local_views(
                            Seq::<crate::payload::LocalSample>::empty(),
                        ));
                        assert(out@[i as int]@.to_wire_samples =~= Seq::<
                            crate::payload::WireSampleView,
                        >::empty());
                        assert(out@[i as int]@.to_local_samples =~= Seq::<
                            crate::payload::LocalSampleView,
                        >::empty());
                        assert((out@[i as int]@, service_views(updated@)[i as int].connector)
                            == spec_service_propagate(
                            old_views[i as int].connector,
                            traffic@[i as int]@,
                        ));
                        assert(service_views(updated@)[i as int] == (TunneledServiceView {
                            connector: service_views(updated@)[i as int].connector,
                            ..old_views[i as int]
                        }));
                    }
                },
            }
            i = i + 1;
        }
        proof {
            assert forall|k: int| 0 <= k < service_views(updated@).len() implies entry_wf(
                #[trigger] service_views(updated@)[k],
                session,
            ) && service_views(updated@)[k].fingerprint == old_views[k].fingerprint by {
                assert(entry_wf(old_views[k], session));
                assert(service_views(updated@)[k] == (TunneledServiceView {
                    connector: service_views(updated@)[k].connector,
                    ..old_views[k]
                }));
                assert((out@[k]@, service_views(updated@)[k].connector) == spec_service_propagate(
                    old_views[k].connector,
                    traffic@[k]@,
                ));
            }
        }
        self.services = updated;
        out
    }
}

} // verus!
