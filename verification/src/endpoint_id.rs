//! Identifiers for the nodes of the three-tier endpoint namespace.
//!
//! A region owns services, a service owns methods.  Each node gets a single
//! integer id, with the three tiers laid out in disjoint ranges so that one
//! flat table can hold every endpoint while the id still tells which tier it
//! belongs to.

use vstd::prelude::*;

verus! {

/// Number of known regions.
pub const REGION_COUNT: usize = 1;

/// Number of known services per region.
pub const SERVICE_COUNT: usize = 2;

/// Reserved id space for the methods of one service.
pub const MAX_METHODS_PER_SERVICE: usize = 128;

/// A region of the API (one host per region).
#[derive(Debug, PartialEq, Eq, Structural, Hash, Clone, Copy)]
pub enum Region {
    Na1,
}

/// A service within a region.
#[derive(Debug, PartialEq, Eq, Structural, Hash, Clone, Copy)]
pub enum Service {
    SummonerV4,
    MatchV4,
}

impl Region {
    /// Position of the region in the id layout.
    pub open spec fn spec_ordinal(self) -> usize {
        match self {
            Region::Na1 => 0,
        }
    }

    /// Position of the region in the id layout.
    pub fn ordinal(self) -> (r: usize)
        ensures
            r == self.spec_ordinal(),
            r < REGION_COUNT,
    {
        match self {
            Region::Na1 => 0,
        }
    }
}

impl Service {
    /// Position of the service in the id layout.
    pub open spec fn spec_ordinal(self) -> usize {
        match self {
            Service::SummonerV4 => 0,
            Service::MatchV4 => 1,
        }
    }

    /// Position of the service in the id layout.
    pub fn ordinal(self) -> (r: usize)
        ensures
            r == self.spec_ordinal(),
            r < SERVICE_COUNT,
    {
        match self {
            Service::SummonerV4 => 0,
            Service::MatchV4 => 1,
        }
    }
}

/// The flat id of one endpoint.  Region ids occupy `[0, REGION_COUNT)`,
/// service ids the next `SERVICE_COUNT * REGION_COUNT` values, and method
/// ids everything from there on, `MAX_METHODS_PER_SERVICE` slots per
/// service.
#[derive(Debug, PartialEq, Eq, Structural, Hash, Clone, Copy)]
pub struct Id(usize);

impl Id {
    /// The raw slot of this id in the flat layout.
    pub closed spec fn spec_value(self) -> usize {
        self.0
    }

    /// First slot of the service range.
    pub open spec fn service_base() -> int {
        REGION_COUNT as int
    }

    /// First slot of the method range.
    pub open spec fn method_base() -> int {
        REGION_COUNT + SERVICE_COUNT * REGION_COUNT
    }

    /// The id a region endpoint gets.
    pub closed spec fn spec_from_region(region: Region) -> Id {
        Id(region.spec_ordinal())
    }

    /// The id a service endpoint gets.
    pub closed spec fn spec_from_service(region: Region, service: Service) -> Id {
        Id((REGION_COUNT + region.spec_ordinal() * SERVICE_COUNT + service.spec_ordinal()) as usize)
    }

    /// The id a method endpoint gets.
    pub closed spec fn spec_from_method(service: Service, method: u32) -> Id {
        Id(
            (REGION_COUNT + SERVICE_COUNT * REGION_COUNT + service.spec_ordinal()
                * MAX_METHODS_PER_SERVICE + method) as usize,
        )
    }

    /// The id of a region endpoint.
    pub fn from_region(region: Region) -> (id: Id)
        ensures
            id == Id::spec_from_region(region),
            id.spec_value() == region.spec_ordinal(),
            id.spec_is_region(),
    {
        Id(region.ordinal())
    }

    /// The id of a service endpoint within a region.
    pub fn from_service(region: Region, service: Service) -> (id: Id)
        ensures
            id == Id::spec_from_service(region, service),
            id.spec_value() == Id::service_base() + region.spec_ordinal() * SERVICE_COUNT
                + service.spec_ordinal(),
            id.spec_is_service(),
    {
        let region_idx = region.ordinal();
        let service_idx = service.ordinal();
        Id(REGION_COUNT + region_idx * SERVICE_COUNT + service_idx)
    }

    /// The id of a method endpoint within a service.  Every service gets
    /// `MAX_METHODS_PER_SERVICE` slots, so the method index must stay below
    /// that bound.
    pub fn from_method(service: Service, method: u32) -> (id: Id)
        requires
            method < MAX_METHODS_PER_SERVICE,
        ensures
            id == Id::spec_from_method(service, method),
            id.spec_value() == Id::method_base()
                + service.spec_ordinal() * MAX_METHODS_PER_SERVICE + method,
            id.spec_is_method(),
    {
        let service_idx = service.ordinal();
        let method_idx = method as usize;
        Id(REGION_COUNT + SERVICE_COUNT * REGION_COUNT + service_idx * MAX_METHODS_PER_SERVICE
            + method_idx)
    }

    /// Whether the id lies in the region range.
    pub open spec fn spec_is_region(self) -> bool {
        self.spec_value() < REGION_COUNT
    }

    /// Whether the id lies in the region range.
    pub fn is_region(&self) -> (r: bool)
        ensures
            r == self.spec_is_region(),
    {
        self.0 < REGION_COUNT
    }

    /// Whether the id lies in the service range.
    pub open spec fn spec_is_service(self) -> bool {
        Id::service_base() <= self.spec_value() < Id::method_base()
    }

    /// Whether the id lies in the service range.
    pub fn is_service(&self) -> (r: bool)
        ensures
            r == self.spec_is_service(),
    {
        REGION_COUNT <= self.0 && self.0 < REGION_COUNT + SERVICE_COUNT * REGION_COUNT
    }

    /// Whether the id lies in the method range.
    pub open spec fn spec_is_method(self) -> bool {
        Id::method_base() <= self.spec_value()
    }

    /// Whether the id lies in the method range.
    pub fn is_method(&self) -> (r: bool)
        ensures
            r == self.spec_is_method(),
    {
        REGION_COUNT + SERVICE_COUNT * REGION_COUNT <= self.0
    }
}

/// The three tier ranges never overlap: an id answers exactly one of
/// `is_region`, `is_service`, `is_method`.
pub proof fn lemma_tiers_disjoint(id: Id)
    ensures
        id.spec_is_region() ==> !id.spec_is_service() && !id.spec_is_method(),
        id.spec_is_service() ==> !id.spec_is_region() && !id.spec_is_method(),
        id.spec_is_method() ==> !id.spec_is_region() && !id.spec_is_service(),
{
}

} // verus!
