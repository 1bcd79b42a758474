//! The announcement port: publishes the descriptor of each locally
//! discovered service on the wire under its details key, and answers
//! queries for the current descriptor. The wire retains the last value
//! for late-joining queriers.

use crate::codec::{encode_descriptor, spec_encode};
use crate::descriptor::ServiceDescriptor;
use crate::keys::{service_details, spec_service_key, ChannelKind};
use vstd::prelude::*;
use vstd::string::StringExecFns;

verus! {

/// The payload announced for a fingerprint, if one was announced.
pub open spec fn spec_lookup(entries: Seq<(u64, Seq<char>)>, f: u64) -> Option<Seq<char>>
    decreases entries.len(),
{
    if entries.len() == 0 {
        None
    } else if entries.last().0 == f {
        Some(entries.last().1)
    } else {
        spec_lookup(entries.drop_last(), f)
    }
}

/// Publishes descriptors of locally discovered services and remembers
/// them for queries, one entry per fingerprint.
pub struct AnnouncementPort {
    entries: Vec<(u64, String)>,
}

impl View for AnnouncementPort {
    type V = Seq<(u64, Seq<char>)>;

    closed spec fn view(&self) -> Seq<(u64, Seq<char>)> {
        self.entries@.map_values(|e: (u64, String)| (e.0, e.1@))
    }
}

impl AnnouncementPort {
    /// A port that has announced nothing yet.
    pub fn new() -> (r: Self)
        ensures
            r@ == Seq::<(u64, Seq<char>)>::empty(),
    {
        let r = AnnouncementPort { entries: Vec::new() };
        proof {
            assert(r@ =~= Seq::<(u64, Seq<char>)>::empty());
        }
        r
    }

    /// Announces one descriptor: returns the wire key and payload to
    /// publish, and remembers the payload for queries.
    pub fn announce(&mut self, d: &ServiceDescriptor) -> (r: (String, String))
        ensures
            r.0@ == spec_service_key(d.fingerprint, ChannelKind::Details),
            r.1@ == spec_encode(d@),
            d@.wf(),
            final(self)@ == old(self)@.push((d.fingerprint, spec_encode(d@))),
    {
        let key = service_details(d.fingerprint);
        let payload = encode_descriptor(d);
        let ghost before = self@;
        let stored = payload.clone();
        self.entries.push((d.fingerprint, stored));
        proof {
            assert(self@ =~= before.push((d.fingerprint, spec_encode(d@))));
        }
        (key, payload)
    }

    /// The payload announced for a fingerprint, if any.
    pub fn query(&self, f: u64) -> (r: Option<String>)
        ensures
            match r {
                Some(p) => spec_lookup(self@, f) == Some(p@),
                None => spec_lookup(self@, f) is None,
            },
    {
        let mut i: usize = self.entries.len();
        proof {
            assert(self@.take(i as int) =~= self@);
        }
        while i > 0
            invariant
                i <= self.entries.len(),
                spec_lookup(self@, f) == spec_lookup(self@.take(i as int), f),
            decreases i,
        {
            i = i - 1;
            proof {
                assert(self@.take(i as int + 1).last() == self@[i as int]);
                assert(self@.take(i as int + 1).drop_last() =~= self@.take(i as int));
                assert(self@[i as int] == (self.entries@[i as int].0, self.entries@[i as int].1@));
            }
            if self.entries[i].0 == f {
                let p = self.entries[i].1.clone();
                return Some(p);
            }
        }
        proof {
            assert(self@.take(0) =~= Seq::<(u64, Seq<char>)>::empty());
        }
        None
    }
}

} // verus!
