//! Services and features, and what contracts say of them.

use vstd::prelude::*;
use crate::ids::{AdapterId, CapabilityId, FeatureId, Named, ServiceId};
use crate::tags::TagSet;
use crate::value::Value;

verus! {

/// How a feature is used: read, written, or both.
#[derive(Clone, Copy, Debug, PartialEq, Eq, Structural)]
pub enum Mechanism {
    Getter,
    Setter,
    Both,
}

/// One endpoint of a service: something that can be read or set.
#[derive(Debug)]
pub struct Feature {
    pub id: FeatureId,
    /// The service that owns the feature.
    pub service: ServiceId,
    pub tags: TagSet,
    /// What the feature does.
    pub capability: CapabilityId,
    pub mechanism: Mechanism,
    /// The value that the feature reported last, if it has reported one.
    pub last_value: Option<Value>,
}

/// A feature, as contracts see it.
pub struct FeatureView {
    pub id: Seq<char>,
    pub service: Seq<char>,
    pub tags: Set<Seq<char>>,
    pub capability: Seq<char>,
    pub mechanism: Mechanism,
    pub last_value: Option<Value>,
}

impl View for Feature {
    type V = FeatureView;

    open spec fn view(&self) -> FeatureView {
        FeatureView {
            id: self.id@,
            service: self.service@,
            tags: self.tags@,
            capability: self.capability@,
            mechanism: self.mechanism,
            last_value: self.last_value,
        }
    }
}

impl Feature {
    /// A feature without tags that has reported no value yet.
    pub fn new(id: FeatureId, service: ServiceId, capability: CapabilityId, mechanism: Mechanism) -> (r:
        Feature)
        ensures
            r@ == (FeatureView {
                id: id@,
                service: service@,
                tags: Set::empty(),
                capability: capability@,
                mechanism,
                last_value: None,
            }),
    {
        Feature { id, service, tags: TagSet::new(), capability, mechanism, last_value: None }
    }
}

impl Clone for Feature {
    fn clone(&self) -> (r: Feature)
        ensures
            r@ == self@,
    {
        Feature {
            id: self.id.duplicate(),
            service: self.service.duplicate(),
            tags: self.tags.clone(),
            capability: self.capability.duplicate(),
            mechanism: self.mechanism,
            last_value: self.last_value,
        }
    }
}

/// What the catalog keeps of a service. The features of the service are
/// not listed here: they are the features that name it.
#[derive(Debug)]
pub struct ServiceRecord {
    pub id: ServiceId,
    pub tags: TagSet,
    /// The adapter that registered the service.
    pub adapter: AdapterId,
}

/// A service of the catalog, as contracts see it.
pub struct ServiceRecordView {
    pub id: Seq<char>,
    pub tags: Set<Seq<char>>,
    pub adapter: Seq<char>,
}

impl View for ServiceRecord {
    type V = ServiceRecordView;

    open spec fn view(&self) -> ServiceRecordView {
        ServiceRecordView { id: self.id@, tags: self.tags@, adapter: self.adapter@ }
    }
}

impl Clone for ServiceRecord {
    fn clone(&self) -> (r: ServiceRecord)
        ensures
            r@ == self@,
    {
        ServiceRecord {
            id: self.id.duplicate(),
            tags: self.tags.clone(),
            adapter: self.adapter.duplicate(),
        }
    }
}

/// A service: a device, or a group of capabilities, with its features.
#[derive(Debug)]
pub struct Service {
    pub id: ServiceId,
    pub tags: TagSet,
    /// The features of the service, each once.
    pub features: Vec<FeatureId>,
    /// The adapter that registered the service.
    pub adapter: AdapterId,
}

/// A service with its features, as contracts see it.
pub struct ServiceView {
    pub id: Seq<char>,
    pub tags: Set<Seq<char>>,
    pub features: Seq<Seq<char>>,
    pub adapter: Seq<char>,
}

/// The names of a sequence of feature identifiers, in its order.
pub open spec fn feature_names(ids: Seq<FeatureId>) -> Seq<Seq<char>> {
    ids.map_values(|f: FeatureId| f@)
}

impl View for Service {
    type V = ServiceView;

    open spec fn view(&self) -> ServiceView {
        ServiceView {
            id: self.id@,
            tags: self.tags@,
            features: feature_names(self.features@),
            adapter: self.adapter@,
        }
    }
}

impl Service {
    /// A service without tags and without features.
    pub fn new(id: ServiceId, adapter: AdapterId) -> (r: Service)
        ensures
            r@ == (ServiceView {
                id: id@,
                tags: Set::empty(),
                features: Seq::empty(),
                adapter: adapter@,
            }),
    {
        let r = Service { id, tags: TagSet::new(), features: Vec::new(), adapter };
        assert(feature_names(r.features@) =~= Seq::empty());
        r
    }
}

/// The views of a sequence of features, in its order.
pub open spec fn feature_views(features: Seq<Feature>) -> Seq<FeatureView> {
    features.map_values(|f: Feature| f@)
}

/// The views of a sequence of service records, in its order.
pub open spec fn record_views(services: Seq<ServiceRecord>) -> Seq<ServiceRecordView> {
    services.map_values(|s: ServiceRecord| s@)
}

/// The views of a sequence of services, in its order.
pub open spec fn service_views(services: Seq<Service>) -> Seq<ServiceView> {
    services.map_values(|s: Service| s@)
}

} // verus!
