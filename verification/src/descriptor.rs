//! Descriptors of bridged services: what a tunnel announces on the wire
//! and what it learns from peer announcements.

use vstd::prelude::*;

verus! {

/// Whether a payload is a fixed-size record or a variable-length slice.
#[derive(Clone, Copy, PartialEq, Eq, Structural, Debug)]
pub enum PayloadShape {
    Fixed,
    Slice,
}

/// The identity of a payload element type: its name, size and alignment.
/// Two services with the same fingerprint must agree on it; a mismatch
/// makes endpoint construction fail rather than reinterpret memory.
#[derive(Debug)]
pub struct TypeIdentity {
    pub name: String,
    pub size: u64,
    pub align: u64,
}

/// The mathematical value of a [`TypeIdentity`].
pub struct TypeIdentityView {
    pub name: Seq<char>,
    pub size: u64,
    pub align: u64,
}

impl View for TypeIdentity {
    type V = TypeIdentityView;

    open spec fn view(&self) -> TypeIdentityView {
        TypeIdentityView { name: self.name@, size: self.size, align: self.align }
    }
}

/// The messaging pattern of a service, with its pattern-specific
/// parameters.
#[derive(Debug)]
pub enum MessagingPattern {
    PublishSubscribe {
        shape: PayloadShape,
        payload_type: TypeIdentity,
        history_size: u64,
        max_subscribers: u64,
    },
    Event { max_notifiers: u64, greatest_event_id: u64 },
}

/// The mathematical value of a [`MessagingPattern`].
pub enum MessagingPatternView {
    PublishSubscribe {
        shape: PayloadShape,
        payload_type: TypeIdentityView,
        history_size: u64,
        max_subscribers: u64,
    },
    Event { max_notifiers: u64, greatest_event_id: u64 },
}

impl View for MessagingPattern {
    type V = MessagingPatternView;

    open spec fn view(&self) -> MessagingPatternView {
        match self {
            MessagingPattern::PublishSubscribe {
                shape,
                payload_type,
                history_size,
                max_subscribers,
            } => MessagingPatternView::PublishSubscribe {
                shape: *shape,
                payload_type: payload_type@,
                history_size: *history_size,
                max_subscribers: *max_subscribers,
            },
            MessagingPattern::Event { max_notifiers, greatest_event_id } => {
                MessagingPatternView::Event {
                    max_notifiers: *max_notifiers,
                    greatest_event_id: *greatest_event_id,
                }
            },
        }
    }
}

/// A serializable record describing one service: its fingerprint, its
/// human-readable name, and its messaging pattern with parameters.
#[derive(Debug)]
pub struct ServiceDescriptor {
    pub fingerprint: u64,
    pub name: String,
    pub pattern: MessagingPattern,
}

/// The mathematical value of a [`ServiceDescriptor`].
pub struct ServiceDescriptorView {
    pub fingerprint: u64,
    pub name: Seq<char>,
    pub pattern: MessagingPatternView,
}

impl View for ServiceDescriptor {
    type V = ServiceDescriptorView;

    open spec fn view(&self) -> ServiceDescriptorView {
        ServiceDescriptorView {
            fingerprint: self.fingerprint,
            name: self.name@,
            pattern: self.pattern@,
        }
    }
}

impl MessagingPatternView {
    /// The machine limit that every pattern held in memory meets: its
    /// variable-length parts are countable in 64 bits.
    pub open spec fn wf(self) -> bool {
        match self {
            MessagingPatternView::PublishSubscribe { payload_type, .. } => payload_type.name.len()
                < 0x1_0000_0000_0000_0000,
            MessagingPatternView::Event { .. } => true,
        }
    }
}

impl ServiceDescriptorView {
    /// The machine limit that every descriptor held in memory meets: its
    /// variable-length parts are countable in 64 bits.
    pub open spec fn wf(self) -> bool {
        &&& self.name.len() < 0x1_0000_0000_0000_0000
        &&& self.pattern.wf()
    }

    /// Whether local endpoints can be built for the described service: a
    /// payload element must have a nonzero size and alignment.
    pub open spec fn constructible(self) -> bool {
        match self.pattern {
            MessagingPatternView::PublishSubscribe { payload_type, .. } => payload_type.size > 0
                && payload_type.align > 0,
            MessagingPatternView::Event { .. } => true,
        }
    }
}

/// The mathematical values of a sequence of descriptors.
pub open spec fn views_of(s: Seq<ServiceDescriptor>) -> Seq<ServiceDescriptorView> {
    s.map_values(|d: ServiceDescriptor| d@)
}

/// The fingerprints of a sequence of descriptor values.
pub open spec fn fingerprints_of(s: Seq<ServiceDescriptorView>) -> Seq<u64> {
    s.map_values(|d: ServiceDescriptorView| d.fingerprint)
}

impl ServiceDescriptor {
    /// A copy of this descriptor with the same mathematical value.
    pub fn duplicate(&self) -> (r: Self)
        ensures
            r@ == self@,
    {
        let pattern = match &self.pattern {
            MessagingPattern::PublishSubscribe {
                shape,
                payload_type,
                history_size,
                max_subscribers,
            } => MessagingPattern::PublishSubscribe {
                shape: *shape,
                payload_type: TypeIdentity {
                    name: payload_type.name.clone(),
                    size: payload_type.size,
                    align: payload_type.align,
                },
                history_size: *history_size,
                max_subscribers: *max_subscribers,
            },
            MessagingPattern::Event { max_notifiers, greatest_event_id } => {
                MessagingPattern::Event {
                    max_notifiers: *max_notifiers,
                    greatest_event_id: *greatest_event_id,
                }
            },
        };
        ServiceDescriptor { fingerprint: self.fingerprint, name: self.name.clone(), pattern }
    }

    /// Whether local endpoints can be built for the described service.
    pub fn is_constructible(&self) -> (r: bool)
        ensures
            r == self@.constructible(),
    {
        match &self.pattern {
            MessagingPattern::PublishSubscribe { payload_type, .. } => {
                payload_type.size > 0 && payload_type.align > 0
            },
            MessagingPattern::Event { .. } => true,
        }
    }
}

} // verus!
