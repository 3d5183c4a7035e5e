//! Data model of the discovery pipeline: the configured tag filter, the
//! instances and tags as the provider reports them, and the output records.

use vstd::prelude::*;

verus! {

/// One key/value pair of the configured tag filter.
#[derive(Clone, Debug, PartialEq, Eq)]
pub struct TagFilter {
    pub key: String,
    pub value: String,
}

pub ghost struct TagFilterView {
    pub key: Seq<char>,
    pub value: Seq<char>,
}

impl View for TagFilter {
    type V = TagFilterView;

    open spec fn view(&self) -> TagFilterView {
        TagFilterView { key: self.key@, value: self.value@ }
    }
}

impl DeepView for TagFilter {
    type V = TagFilterView;

    open spec fn deep_view(&self) -> TagFilterView {
        self.view()
    }
}

/// One resource tag as the provider reports it; either part may be absent.
#[derive(Clone, Debug, PartialEq, Eq)]
pub struct Tag {
    pub key: Option<String>,
    pub value: Option<String>,
}

pub ghost struct TagView {
    pub key: Option<Seq<char>>,
    pub value: Option<Seq<char>>,
}

impl View for Tag {
    type V = TagView;

    open spec fn view(&self) -> TagView {
        TagView { key: self.key.deep_view(), value: self.value.deep_view() }
    }
}

impl DeepView for Tag {
    type V = TagView;

    open spec fn deep_view(&self) -> TagView {
        self.view()
    }
}

/// The network endpoint of an instance; the provider may leave parts unset
/// while an instance is in a transitional state.
#[derive(Clone, Debug, PartialEq, Eq)]
pub struct Endpoint {
    pub address: Option<String>,
    pub port: Option<i64>,
}

pub ghost struct EndpointView {
    pub address: Option<Seq<char>>,
    pub port: Option<i64>,
}

impl View for Endpoint {
    type V = EndpointView;

    open spec fn view(&self) -> EndpointView {
        EndpointView { address: self.address.deep_view(), port: self.port }
    }
}

impl DeepView for Endpoint {
    type V = EndpointView;

    open spec fn deep_view(&self) -> EndpointView {
        self.view()
    }
}

/// One database instance as returned by enumeration. Every field mirrors the
/// provider's wire shape, where each may be absent.
#[derive(Clone, Debug, PartialEq, Eq)]
pub struct DbInstance {
    pub db_instance_identifier: Option<String>,
    pub db_instance_arn: Option<String>,
    pub endpoint: Option<Endpoint>,
}

pub ghost struct DbInstanceView {
    pub db_instance_identifier: Option<Seq<char>>,
    pub db_instance_arn: Option<Seq<char>>,
    pub endpoint: Option<EndpointView>,
}

impl View for DbInstance {
    type V = DbInstanceView;

    open spec fn view(&self) -> DbInstanceView {
        DbInstanceView {
            db_instance_identifier: self.db_instance_identifier.deep_view(),
            db_instance_arn: self.db_instance_arn.deep_view(),
            endpoint: self.endpoint.deep_view(),
        }
    }
}

impl DeepView for DbInstance {
    type V = DbInstanceView;

    open spec fn deep_view(&self) -> DbInstanceView {
        self.view()
    }
}

/// One output record of the discovery document.
#[derive(Clone, Debug, PartialEq, Eq)]
pub struct DiscoveryEntry {
    pub db_instance_identifier: String,
    pub address: String,
    pub port: i64,
}

pub ghost struct DiscoveryEntryView {
    pub db_instance_identifier: Seq<char>,
    pub address: Seq<char>,
    pub port: i64,
}

impl View for DiscoveryEntry {
    type V = DiscoveryEntryView;

    open spec fn view(&self) -> DiscoveryEntryView {
        DiscoveryEntryView {
            db_instance_identifier: self.db_instance_identifier@,
            address: self.address@,
            port: self.port,
        }
    }
}

impl DeepView for DiscoveryEntry {
    type V = DiscoveryEntryView;

    open spec fn deep_view(&self) -> DiscoveryEntryView {
        self.view()
    }
}

/// The output envelope: the selected records in enumeration order.
#[derive(Clone, Debug, PartialEq, Eq)]
pub struct DiscoveryData {
    pub data: Vec<DiscoveryEntry>,
}

impl View for DiscoveryData {
    type V = Seq<DiscoveryEntryView>;

    open spec fn view(&self) -> Seq<DiscoveryEntryView> {
        self.data.deep_view()
    }
}

/// An instance carries all three fields that a discovery record needs.
pub open spec fn instance_complete(db: DbInstanceView) -> bool {
    &&& db.db_instance_identifier is Some
    &&& db.endpoint is Some
    &&& db.endpoint->Some_0.address is Some
    &&& db.endpoint->Some_0.port is Some
}

/// The record that a complete instance projects to, fields copied verbatim.
pub open spec fn entry_of(db: DbInstanceView) -> DiscoveryEntryView
    recommends
        instance_complete(db),
{
    DiscoveryEntryView {
        db_instance_identifier: db.db_instance_identifier->Some_0,
        address: db.endpoint->Some_0.address->Some_0,
        port: db.endpoint->Some_0.port->Some_0,
    }
}

} // verus!
