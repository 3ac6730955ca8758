use vstd::prelude::*;

use std::collections::{HashMap, HashSet};

verus! {

broadcast use vstd::std_specs::hash::group_hash_axioms;

/// A reusable outbound delivery handle of a channel, forwarded as is.
#[derive(Debug, PartialEq, Eq)]
pub struct Endpoint {
    pub id: u64,
    pub token: String,
}

impl Endpoint {
    /// A copy of this endpoint.
    pub fn duplicate(&self) -> (r: Endpoint)
        ensures
            r == *self,
    {
        Endpoint { id: self.id, token: self.token.clone() }
    }
}

/// What a caller resolving a channel does next.
#[derive(Debug, PartialEq, Eq)]
pub enum Lookup {
    /// Use this endpoint, already known.
    Cached(Endpoint),
    /// Look the endpoint up (or create it), then report with `complete`.
    Fetch,
    /// Another caller is fetching this channel's endpoint: wait for it, then ask again.
    Wait,
}

/// The answer to `begin` and the channels in flight afterwards.
pub open spec fn begin_step(entries: Map<u64, Endpoint>, in_flight: Set<u64>, channel: u64) -> (
    Lookup,
    Set<u64>,
) {
    if entries.contains_key(channel) {
        (Lookup::Cached(entries[channel]), in_flight)
    } else if in_flight.contains(channel) {
        (Lookup::Wait, in_flight)
    } else {
        (Lookup::Fetch, in_flight.insert(channel))
    }
}

/// The entries after a fetch for `channel` ended with `fetched`: an endpoint
/// already cached for the channel is kept.
pub open spec fn complete_step(
    entries: Map<u64, Endpoint>,
    channel: u64,
    fetched: Option<Endpoint>,
) -> Map<u64, Endpoint> {
    match fetched {
        Some(e) => if entries.contains_key(channel) {
            entries
        } else {
            entries.insert(channel, e)
        },
        None => entries,
    }
}

/// Endpoints by channel, filled at most once per channel by the single caller
/// that was told to fetch.
pub struct EndpointCache {
    entries: HashMap<u64, Endpoint>,
    in_flight: HashSet<u64>,
}

impl EndpointCache {
    pub closed spec fn entries(&self) -> Map<u64, Endpoint> {
        self.entries@
    }

    pub closed spec fn in_flight(&self) -> Set<u64> {
        self.in_flight@
    }

    /// An empty cache with nothing in flight.
    pub fn new() -> (c: EndpointCache)
        ensures
            c.entries() == Map::<u64, Endpoint>::empty(),
            c.in_flight() == Set::<u64>::empty(),
    {
        EndpointCache { entries: HashMap::new(), in_flight: HashSet::new() }
    }

    /// The cached endpoint of `channel`, if any.
    pub fn get(&self, channel: u64) -> (r: Option<Endpoint>)
        ensures
            r == (if self.entries().contains_key(channel) {
                Some(self.entries()[channel])
            } else {
                None
            }),
    {
        match self.entries.get(&channel) {
            Some(e) => Some(e.duplicate()),
            None => None,
        }
    }

    /// Starts resolving `channel`: the cached endpoint if there is one; else
    /// `Fetch` to the first caller, who must report with `complete`, and
    /// `Wait` to every caller while that fetch is in flight.
    pub fn begin(&mut self, channel: u64) -> (r: Lookup)
        ensures
            (r, final(self).in_flight()) == begin_step(old(self).entries(), old(self).in_flight(), channel),
            final(self).entries() == old(self).entries(),
    {
        match self.entries.get(&channel) {
            Some(e) => Lookup::Cached(e.duplicate()),
            None => {
                if self.in_flight.contains(&channel) {
                    Lookup::Wait
                } else {
                    self.in_flight.insert(channel);
                    Lookup::Fetch
                }
            },
        }
    }

    /// Ends the fetch for `channel`: stores the endpoint if one was obtained,
    /// and releases the waiters either way.
    pub fn complete(&mut self, channel: u64, fetched: Option<Endpoint>)
        ensures
            final(self).entries() == complete_step(old(self).entries(), channel, fetched),
            final(self).in_flight() == old(self).in_flight().remove(channel),
    {
        self.in_flight.remove(&channel);
        match fetched {
            Some(e) => {
                if !self.entries.contains_key(&channel) {
                    self.entries.insert(channel, e);
                }
            },
            None => {},
        }
    }
}

/// Two callers resolving a channel that is neither cached nor in flight: the
/// first is told to fetch, the second to wait; once the fetch stores an
/// endpoint, every later caller gets that same endpoint without a fetch.
pub proof fn lemma_single_flight(entries: Map<u64, Endpoint>, in_flight: Set<u64>, channel: u64, e: Endpoint)
    requires
        !entries.contains_key(channel),
        !in_flight.contains(channel),
    ensures
        begin_step(entries, in_flight, channel).0 == Lookup::Fetch,
        begin_step(entries, begin_step(entries, in_flight, channel).1, channel).0 == Lookup::Wait,
        begin_step(
            complete_step(entries, channel, Some(e)),
            begin_step(entries, in_flight, channel).1.remove(channel),
            channel,
        ).0 == Lookup::Cached(e),
{
}

} // verus!
