//! The tracker: which queries are in flight, and the sink that takes the
//! responses to each.

use vstd::prelude::*;
use dashmap::DashMap;
use tokio::sync::mpsc::Sender;
use crate::types::{Query, QueryView, Response};

verus! {

/// The sending half of a bounded channel of `tokio`.
#[verifier::external_type_specification]
#[verifier::external_body]
#[verifier::reject_recursive_types(T)]
pub struct ExSender<T>(Sender<T>);

/// The queries that have a sink in the map.
pub uninterp spec fn in_flight(d: DashMap<Query, Sender<Option<(Response, u32)>>>) -> Set<QueryView>;

/// The empty set of queries.
pub open spec fn no_queries() -> Set<QueryView> {
    Set::empty()
}

/// An empty map of sinks.
///
/// Calls `DashMap::new`.
#[verifier::external_body]
fn new_sinks() -> (d: DashMap<Query, Sender<Option<(Response, u32)>>>)
    ensures
        in_flight(d) == no_queries(),
{
    DashMap::new()
}

/// Puts a sink under a query; a sink that stood there is replaced.
///
/// Calls `DashMap::insert`.
#[verifier::external_body]
fn put_sink(
    d: &mut DashMap<Query, Sender<Option<(Response, u32)>>>,
    query: Query,
    sink: Sender<Option<(Response, u32)>>,
)
    ensures
        in_flight(*final(d)) == in_flight(*old(d)).insert(query@),
{
    d.insert(query, sink);
}

/// Takes the sink of a query out of the map.
///
/// Calls `DashMap::remove`.
#[verifier::external_body]
fn drop_sink(d: &mut DashMap<Query, Sender<Option<(Response, u32)>>>, query: &Query)
    ensures
        in_flight(*final(d)) == in_flight(*old(d)).remove(query@),
{
    d.remove(query);
}

/// Whether a query has a sink.
///
/// Calls `DashMap::contains_key`.
#[verifier::external_body]
fn has_sink(d: &DashMap<Query, Sender<Option<(Response, u32)>>>, query: &Query) -> (r: bool)
    ensures
        r == in_flight(*d).contains(query@),
{
    d.contains_key(query)
}

/// A handle on the sink of a query, where it has one.
///
/// Calls `DashMap::get` and clones the sender found.
#[verifier::external_body]
fn sink_of(d: &DashMap<Query, Sender<Option<(Response, u32)>>>, query: &Query) -> (r: Option<
    Sender<Option<(Response, u32)>>,
>)
    ensures
        (r is Some) == in_flight(*d).contains(query@),
{
    d.get(query).map(|entry| entry.value().clone())
}

/// The queries in flight, each with the sink that takes its responses.
pub struct Tracker {
    sinks: DashMap<Query, Sender<Option<(Response, u32)>>>,
}

impl View for Tracker {
    type V = Set<QueryView>;

    closed spec fn view(&self) -> Set<QueryView> {
        in_flight(self.sinks)
    }
}

impl Tracker {
    /// A tracker without queries.
    pub fn new() -> (r: Tracker)
        ensures
            r@ == no_queries(),
    {
        Tracker { sinks: new_sinks() }
    }

    /// Marks a query as in flight, with the sink for its responses.
    pub fn insert(&mut self, query: Query, sink: Sender<Option<(Response, u32)>>)
        ensures
            final(self)@ == old(self)@.insert(query@),
    {
        put_sink(&mut self.sinks, query, sink);
    }

    /// Marks a query as no longer in flight.
    pub fn remove(&mut self, query: &Query)
        ensures
            final(self)@ == old(self)@.remove(query@),
    {
        drop_sink(&mut self.sinks, query);
    }

    /// Whether a query is in flight.
    pub fn contains(&self, query: &Query) -> (r: bool)
        ensures
            r == self@.contains(query@),
    {
        has_sink(&self.sinks, query)
    }

    /// The sink of a query that is in flight.
    pub fn get(&self, query: &Query) -> (r: Option<Sender<Option<(Response, u32)>>>)
        ensures
            (r is Some) == self@.contains(query@),
    {
        sink_of(&self.sinks, query)
    }
}

} // verus!
