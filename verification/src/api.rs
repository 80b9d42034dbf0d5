//! The facade of a node: wiring, registration, and how the responses to a
//! query turn into the result of a discovery or a resolution.

use vstd::prelude::*;
use crate::instance::{collected, pairs_view, Instance, InstanceView};
use crate::listener::{Listener, ListenerView};
use crate::querier::{responses_view, Querier};
use crate::registry::{no_buckets, registered, unregistered, Registry};
use crate::responder::Responder;
use crate::text::{chars_of, pieces_view, split_at_each, split_chars, string_of};
use crate::tracker::{no_queries, Tracker};
use crate::types::{Address, InnerView, QueryView, Response, ResponseInner, ResponseView};

verus! {

/// Seconds after which an unused cache entry is dropped.
pub const CACHE_IDLE_TIMEOUT_SECS: u32 = 40;

/// The number of fingerprints a cache holds at most.
pub const CACHE_MAX_CAPACITY: usize = 200;

/// The number of responses a cache holds per fingerprint at most.
pub const CACHE_MAX_VALUES_PER_KEY: usize = 2;

/// Seconds after which a cache entry is dropped at the latest.
pub const CACHE_TIME_TO_LIVE_SECS: u32 = 120;

/// A resolved instance: where it listens and what it says of itself.
#[derive(Debug, PartialEq, Eq)]
pub struct Device {
    pub name: String,
    pub port: u16,
    pub host: String,
    pub addresses: Vec<Address>,
    pub metadata: Vec<(String, String)>,
}

/// Mathematical value of a [`Device`].
#[verifier::ext_equal]
pub struct DeviceView {
    pub name: Seq<char>,
    pub port: u16,
    pub host: Seq<char>,
    pub addresses: Seq<Address>,
    pub metadata: Seq<(Seq<char>, Seq<char>)>,
}

impl View for Device {
    type V = DeviceView;

    open spec fn view(&self) -> DeviceView {
        DeviceView {
            name: self.name@,
            port: self.port,
            host: self.host@,
            addresses: self.addresses@,
            metadata: pairs_view(self.metadata@),
        }
    }
}

/// How the time of a resolution is shared among its four queries, in
/// nanoseconds.
#[derive(Debug, Clone, Copy, PartialEq, Eq, Structural)]
pub struct DurationSplit {
    pub srv: u128,
    pub txt: u128,
    pub a: u128,
    pub aaaa: u128,
}

/// Shares the time of a resolution among its queries: 20 % for SRV, 30 % for
/// TXT, 25 % each for A and AAAA, each rounded down to a nanosecond.
pub fn split_duration(total_nanos: u128) -> (r: DurationSplit)
    ensures
        r.srv == total_nanos * 20 / 100,
        r.txt == total_nanos * 30 / 100,
        r.a == total_nanos * 25 / 100,
        r.aaaa == total_nanos * 25 / 100,
{
    let tenth = total_nanos / 10;
    let rest = total_nanos % 10;
    let txt = tenth * 3 + rest * 3 / 10;
    assert(total_nanos * 30 / 100 == txt) by {
        assert(total_nanos == tenth * 10 + rest);
        assert(total_nanos * 30 == (tenth * 3) * 100 + rest * 30) by (nonlinear_arith)
            requires
                total_nanos == tenth * 10 + rest,
        ;
        assert(rest * 30 / 100 == rest * 3 / 10);
    }
    DurationSplit { srv: total_nanos / 5, txt, a: total_nanos / 4, aaaa: total_nanos / 4 }
}

/// The targets of the PTR responses, in order.
pub open spec fn ptr_targets(responses: Seq<ResponseView>) -> Seq<Seq<char>>
    decreases responses.len(),
{
    if responses.len() == 0 {
        Seq::empty()
    } else {
        let before = ptr_targets(responses.drop_last());
        match responses.last().inner {
            InnerView::PTR(target) => before.push(target),
            _ => before,
        }
    }
}

/// The addresses of the A responses, in order.
pub open spec fn a_addresses(responses: Seq<ResponseView>) -> Seq<u32>
    decreases responses.len(),
{
    if responses.len() == 0 {
        Seq::empty()
    } else {
        let before = a_addresses(responses.drop_last());
        match responses.last().inner {
            InnerView::A { address } => before.push(address),
            _ => before,
        }
    }
}

/// The addresses of the AAAA responses, in order.
pub open spec fn aaaa_addresses(responses: Seq<ResponseView>) -> Seq<u128>
    decreases responses.len(),
{
    if responses.len() == 0 {
        Seq::empty()
    } else {
        let before = aaaa_addresses(responses.drop_last());
        match responses.last().inner {
            InnerView::AAAA { address } => before.push(address),
            _ => before,
        }
    }
}

/// The port and host of the first response, where that is an SRV response.
pub open spec fn first_srv(responses: Seq<ResponseView>) -> Option<(u16, Seq<char>)> {
    if responses.len() == 0 {
        None
    } else {
        match responses[0].inner {
            InnerView::SRV { port, target } => Some((port, target)),
            _ => None,
        }
    }
}

/// The attributes written in a list of strings: of each string that holds
/// exactly one `=`, the text before it and the text after it.
pub open spec fn string_pairs(strings: Seq<Seq<char>>) -> Seq<(Seq<char>, Seq<char>)>
    decreases strings.len(),
{
    if strings.len() == 0 {
        Seq::empty()
    } else {
        let before = string_pairs(strings.drop_last());
        let parts = split_at_each(strings.last(), '=');
        if parts.len() == 2 {
            before.push((parts[0], parts[1]))
        } else {
            before
        }
    }
}

/// The attributes written in the TXT responses, in order.
pub open spec fn txt_pairs(responses: Seq<ResponseView>) -> Seq<(Seq<char>, Seq<char>)>
    decreases responses.len(),
{
    if responses.len() == 0 {
        Seq::empty()
    } else {
        let before = txt_pairs(responses.drop_last());
        match responses.last().inner {
            InnerView::TXT { strings } => before + string_pairs(strings),
            _ => before,
        }
    }
}

/// The addresses of a device: its IPv4 addresses, then its IPv6 addresses.
pub open spec fn device_addresses(v4: Seq<u32>, v6: Seq<u128>) -> Seq<Address> {
    Seq::new(v4.len(), |i: int| Address::V4(v4[i])) + Seq::new(
        v6.len(),
        |i: int| Address::V6(v6[i]),
    )
}

/// The device that the responses to the four queries of a resolution give:
/// none unless the SRV query, the A query and the AAAA query each brought
/// what they ask for.
pub open spec fn resolved(
    name: Seq<char>,
    srv: Seq<ResponseView>,
    txt: Seq<ResponseView>,
    a: Seq<ResponseView>,
    aaaa: Seq<ResponseView>,
) -> Option<DeviceView> {
    match first_srv(srv) {
        None => None,
        Some((port, host)) => if a_addresses(a).len() == 0 || aaaa_addresses(aaaa).len() == 0 {
            None
        } else {
            Some(
                DeviceView {
                    name,
                    port,
                    host,
                    addresses: device_addresses(a_addresses(a), aaaa_addresses(aaaa)),
                    metadata: collected(txt_pairs(txt)),
                },
            )
        },
    }
}

/// Appends the attributes written in a list of strings.
fn collect_pairs(strings: &Vec<String>, out: &mut Vec<(String, String)>)
    ensures
        pairs_view(final(out)@) == pairs_view(old(out)@) + string_pairs(strings.deep_view()),
{
    let ghost start = pairs_view(out@);
    let ghost sv = strings.deep_view();
    let mut i: usize = 0;
    assert(sv.take(0) =~= Seq::empty());
    assert(pairs_view(out@) =~= start + string_pairs(sv.take(0)));
    while i < strings.len()
        invariant
            i <= strings.len(),
            sv == strings.deep_view(),
            pairs_view(out@) == start + string_pairs(sv.take(i as int)),
        decreases strings.len() - i,
    {
        proof {
            let next = sv.take(i as int + 1);
            assert(next.drop_last() =~= sv.take(i as int));
            assert(next.last() == strings@[i as int]@);
        }
        let ghost before = pairs_view(out@);
        let chars = chars_of(strings[i].as_str());
        let parts = split_chars(&chars, '=');
        if parts.len() == 2 {
            let ghost views = pieces_view(parts@);
            assert(views[0] == parts@[0]@ && views[1] == parts@[1]@);
            let key = string_of(&parts[0]);
            let value = string_of(&parts[1]);
            out.push((key, value));
            assert(pairs_view(out@) =~= before.push((key@, value@)));
            assert(pairs_view(out@) =~= start + string_pairs(sv.take(i as int + 1)));
        }
        i += 1;
    }
    assert(sv.take(strings.len() as int) =~= sv);
}

/// A node: its responder with the registry, its querier with the tracker,
/// and its listener.
pub struct HomeWeb {
    responder: Responder,
    querier: Querier,
    listener: Listener,
}

impl HomeWeb {
    /// The instances that the node advertises.
    pub closed spec fn instances(&self) -> Map<Seq<char>, Map<Seq<char>, InstanceView>> {
        self.responder@
    }

    /// The queries that the node has in flight.
    pub closed spec fn in_flight(&self) -> Set<QueryView> {
        self.querier@
    }

    /// The sockets of the node.
    pub closed spec fn sockets(&self) -> ListenerView {
        self.listener@
    }

    /// Whether the node is well formed: its registry is.
    pub closed spec fn wf(&self) -> bool {
        self.responder.wf()
    }

    /// Wires a node from what became of its two sockets: an empty registry
    /// under a responder, an empty tracker under a querier, and the
    /// listener. Fails where neither socket was created.
    pub fn new(v4_created: bool, v6_created: bool) -> (r: Result<HomeWeb, String>)
        ensures
            match r {
                Ok(node) => {
                    &&& v4_created || v6_created
                    &&& node.wf()
                    &&& node.instances() == no_buckets()
                    &&& node.in_flight() == no_queries()
                    &&& node.sockets() == (ListenerView {
                        v4_socket: v4_created,
                        v6_socket: v6_created,
                        v4_broken: !v4_created,
                        v6_broken: !v6_created,
                    })
                },
                Err(message) => !v4_created && !v6_created && message@
                    == "Failed to create both IPv4 and IPv6 sockets"@,
            },
    {
        let registry = Registry::new();
        let responder = Responder::new(registry);
        let tracker = Tracker::new();
        let listener = match Listener::new(v4_created, v6_created) {
            Ok(listener) => listener,
            Err(message) => {
                return Err(message);
            },
        };
        let querier = Querier::new(tracker);
        Ok(HomeWeb { responder, querier, listener })
    }

    /// The responder of the node.
    pub fn responder(&self) -> (r: &Responder)
        ensures
            r@ == self.instances(),
            r.wf() == self.wf(),
    {
        &self.responder
    }

    /// The querier of the node.
    pub fn querier(&self) -> (r: &Querier)
        ensures
            r@ == self.in_flight(),
    {
        &self.querier
    }

    /// Starts a query with the querier of the node, as [`Querier::query`]
    /// does.
    pub fn query(
        &mut self,
        query: crate::types::Query,
        cached: Vec<Response>,
        bypass_cache: bool,
        now: u64,
        sink: tokio::sync::mpsc::Sender<Option<(Response, u32)>>,
    ) -> (r: crate::querier::QueryStart)
        ensures
            final(self).in_flight() == crate::querier::after_start(
                old(self).in_flight(),
                query@,
                responses_view(cached@),
                bypass_cache,
                now,
            ),
            final(self).instances() == old(self).instances(),
            final(self).wf() == old(self).wf(),
            final(self).sockets() == old(self).sockets(),
            (r is Send) == crate::querier::sends(
                old(self).in_flight(),
                query@,
                responses_view(cached@),
                bypass_cache,
                now,
            ),
            r matches crate::querier::QueryStart::Send(bytes) ==> crate::querier::query_datagram(
                query@,
                responses_view(cached@),
                now,
            ) == Some(bytes@),
            r matches crate::querier::QueryStart::Cached(responses) ==> responses@ == cached@,
            (r is Cached) == crate::querier::answered_from_cache(
                responses_view(cached@),
                bypass_cache,
            ),
            (r is Busy) == (!crate::querier::answered_from_cache(
                responses_view(cached@),
                bypass_cache,
            ) && old(self).in_flight().contains(query@)),
    {
        self.querier.query(query, cached, bypass_cache, now, sink)
    }

    /// Takes one event of the sink of a query in flight, as
    /// [`Querier::receive`] does.
    pub fn receive(&mut self, query: &crate::types::Query, event: Option<(Response, u32)>) -> (r:
        crate::querier::QueryStep)
        ensures
            final(self).instances() == old(self).instances(),
            final(self).wf() == old(self).wf(),
            final(self).sockets() == old(self).sockets(),
            match event {
                Some((response, ttl)) => r == crate::querier::QueryStep::Store(response, ttl)
                    && final(self).in_flight() == old(self).in_flight(),
                None => r is Finish && final(self).in_flight() == old(self).in_flight().remove(
                    query@,
                ) && !final(self).in_flight().contains(query@),
            },
    {
        self.querier.receive(query, event)
    }

    /// One turn of the receive loop, as [`Listener::listen`] does.
    pub fn listen(&mut self, event: Option<crate::listener::ListenEvent>) -> (r:
        crate::listener::ListenStep)
        ensures
            final(self).sockets() == crate::listener::after_event(old(self).sockets(), event),
            final(self).instances() == old(self).instances(),
            final(self).wf() == old(self).wf(),
            final(self).in_flight() == old(self).in_flight(),
            (r is Stop) == (final(self).sockets().v4_broken && final(self).sockets().v6_broken),
            r matches crate::listener::ListenStep::Await { v4, v6, publish } ==> {
                &&& v4 == !final(self).sockets().v4_broken
                &&& v6 == !final(self).sockets().v6_broken
                &&& publish == match event {
                    Some(crate::listener::ListenEvent::Received(message)) => Some(message),
                    _ => None,
                }
            },
    {
        self.listener.listen(event)
    }

    /// The socket that carries a message, as [`Listener::send`] tells.
    pub fn send(&self, msg: &crate::listener::ChannelMessage) -> (r: Result<
        crate::listener::Family,
        String,
    >)
        ensures
            match r {
                Ok(family) => family == msg.ip.family() && match family {
                    crate::listener::Family::V4 => self.sockets().v4_socket,
                    crate::listener::Family::V6 => self.sockets().v6_socket,
                },
                Err(message) => message@ == "Socket not initialized"@ && match msg.ip.family() {
                    crate::listener::Family::V4 => !self.sockets().v4_socket,
                    crate::listener::Family::V6 => !self.sockets().v6_socket,
                },
            },
    {
        self.listener.send(msg)
    }

    /// Registers an instance. An instance of the same name that is
    /// registered already stays as it is.
    pub fn register_device(&mut self, instance: Instance) -> (r: Result<(), String>)
        requires
            old(self).wf(),
        ensures
            r is Ok,
            final(self).wf(),
            final(self).instances() == registered(old(self).instances(), instance@),
            final(self).in_flight() == old(self).in_flight(),
            final(self).sockets() == old(self).sockets(),
    {
        self.responder.register_device(instance);
        Ok(())
    }

    /// Unregisters an instance.
    pub fn unregister_device(&mut self, instance: &Instance) -> (r: Result<(), String>)
        requires
            old(self).wf(),
        ensures
            r is Ok,
            final(self).wf(),
            final(self).instances() == unregistered(old(self).instances(), instance@.name),
            final(self).in_flight() == old(self).in_flight(),
            final(self).sockets() == old(self).sockets(),
    {
        self.responder.unregister_device(instance);
        Ok(())
    }

    /// The result of a discovery: the targets of the PTR responses that the
    /// query for a service type brought, in order.
    pub fn get_devices(responses: &Vec<Response>) -> (r: Vec<String>)
        ensures
            r.deep_view() == ptr_targets(responses_view(responses@)),
    {
        let mut out: Vec<String> = Vec::new();
        let ghost rv = responses_view(responses@);
        let mut i: usize = 0;
        assert(rv.take(0) =~= Seq::empty());
        assert(out.deep_view() =~= Seq::<Seq<char>>::empty());
        while i < responses.len()
            invariant
                i <= responses.len(),
                rv == responses_view(responses@),
                out.deep_view() == ptr_targets(rv.take(i as int)),
            decreases responses.len() - i,
        {
            proof {
                let next = rv.take(i as int + 1);
                assert(next.drop_last() =~= rv.take(i as int));
                assert(next.last() == responses@[i as int]@);
            }
            let ghost before = out.deep_view();
            match &responses[i].inner {
                ResponseInner::PTR(target) => {
                    out.push(target.clone());
                    assert(out.deep_view() =~= before.push(target@));
                },
                _ => {},
            }
            i += 1;
        }
        assert(rv.take(responses.len() as int) =~= rv);
        out
    }

    /// The port and host that the responses to an SRV query give: those of
    /// the first response, where that is an SRV response.
    pub fn resolve_srv(responses: &Vec<Response>) -> (r: Option<(u16, String)>)
        ensures
            match r {
                Some((port, host)) => first_srv(responses_view(responses@)) == Some((port, host@)),
                None => first_srv(responses_view(responses@)) is None,
            },
    {
        if responses.len() == 0 {
            return None;
        }
        assert(responses_view(responses@)[0] == responses@[0]@);
        match &responses[0].inner {
            ResponseInner::SRV { port, target } => Some((*port, target.clone())),
            _ => None,
        }
    }

    /// The attributes that the responses to a TXT query give: of each string
    /// with exactly one `=` the key and the value, one value per key, the
    /// later one where a key occurs twice.
    pub fn resolve_txt(responses: &Vec<Response>) -> (r: Vec<(String, String)>)
        ensures
            pairs_view(r@) == collected(txt_pairs(responses_view(responses@))),
    {
        let mut pairs: Vec<(String, String)> = Vec::new();
        let ghost rv = responses_view(responses@);
        let mut i: usize = 0;
        assert(rv.take(0) =~= Seq::empty());
        assert(pairs_view(pairs@) =~= Seq::empty());
        while i < responses.len()
            invariant
                i <= responses.len(),
                rv == responses_view(responses@),
                pairs_view(pairs@) == txt_pairs(rv.take(i as int)),
            decreases responses.len() - i,
        {
            proof {
                let next = rv.take(i as int + 1);
                assert(next.drop_last() =~= rv.take(i as int));
                assert(next.last() == responses@[i as int]@);
            }
            match &responses[i].inner {
                ResponseInner::TXT { strings } => {
                    collect_pairs(strings, &mut pairs);
                },
                _ => {},
            }
            i += 1;
        }
        assert(rv.take(responses.len() as int) =~= rv);
        crate::instance::collect(&pairs)
    }

    /// The addresses that the responses to an A query give, in order; none
    /// where there is no A response.
    pub fn resolve_a(responses: &Vec<Response>) -> (r: Option<Vec<u32>>)
        ensures
            match r {
                Some(addresses) => addresses@ == a_addresses(responses_view(responses@))
                    && addresses@.len() > 0,
                None => a_addresses(responses_view(responses@)).len() == 0,
            },
    {
        let mut out: Vec<u32> = Vec::new();
        let ghost rv = responses_view(responses@);
        let mut i: usize = 0;
        assert(rv.take(0) =~= Seq::empty());
        while i < responses.len()
            invariant
                i <= responses.len(),
                rv == responses_view(responses@),
                out@ == a_addresses(rv.take(i as int)),
            decreases responses.len() - i,
        {
            proof {
                let next = rv.take(i as int + 1);
                assert(next.drop_last() =~= rv.take(i as int));
                assert(next.last() == responses@[i as int]@);
            }
            match &responses[i].inner {
                ResponseInner::A { address } => {
                    out.push(*address);
                },
                _ => {},
            }
            i += 1;
        }
        assert(rv.take(responses.len() as int) =~= rv);
        if out.len() == 0 {
            None
        } else {
            Some(out)
        }
    }

    /// The addresses that the responses to an AAAA query give, in order;
    /// none where there is no AAAA response.
    pub fn resolve_aaaa(responses: &Vec<Response>) -> (r: Option<Vec<u128>>)
        ensures
            match r {
                Some(addresses) => addresses@ == aaaa_addresses(responses_view(responses@))
                    && addresses@.len() > 0,
                None => aaaa_addresses(responses_view(responses@)).len() == 0,
            },
    {
        let mut out: Vec<u128> = Vec::new();
        let ghost rv = responses_view(responses@);
        let mut i: usize = 0;
        assert(rv.take(0) =~= Seq::empty());
        while i < responses.len()
            invariant
                i <= responses.len(),
                rv == responses_view(responses@),
                out@ == aaaa_addresses(rv.take(i as int)),
            decreases responses.len() - i,
        {
            proof {
                let next = rv.take(i as int + 1);
                assert(next.drop_last() =~= rv.take(i as int));
                assert(next.last() == responses@[i as int]@);
            }
            match &responses[i].inner {
                ResponseInner::AAAA { address } => {
                    out.push(*address);
                },
                _ => {},
            }
            i += 1;
        }
        assert(rv.take(responses.len() as int) =~= rv);
        if out.len() == 0 {
            None
        } else {
            Some(out)
        }
    }

    /// The result of a resolution, from the responses that its four queries
    /// brought: the SRV query for the instance, the TXT query for the
    /// instance, and the A and AAAA queries for the host that the SRV
    /// response names. The SRV, A and AAAA responses are required.
    pub fn resolve_device(
        instance_name: String,
        srv: &Vec<Response>,
        txt: &Vec<Response>,
        a: &Vec<Response>,
        aaaa: &Vec<Response>,
    ) -> (r: Option<Device>)
        ensures
            match r {
                Some(device) => resolved(
                    instance_name@,
                    responses_view(srv@),
                    responses_view(txt@),
                    responses_view(a@),
                    responses_view(aaaa@),
                ) == Some(device@),
                None => resolved(
                    instance_name@,
                    responses_view(srv@),
                    responses_view(txt@),
                    responses_view(a@),
                    responses_view(aaaa@),
                ) is None,
            },
    {
        let (port, host) = match Self::resolve_srv(srv) {
            Some(found) => found,
            None => {
                return None;
            },
        };
        let metadata = Self::resolve_txt(txt);
        let v4 = match Self::resolve_a(a) {
            Some(v4) => v4,
            None => {
                return None;
            },
        };
        let v6 = match Self::resolve_aaaa(aaaa) {
            Some(v6) => v6,
            None => {
                return None;
            },
        };
        let mut addresses: Vec<Address> = Vec::new();
        let mut i: usize = 0;
        while i < v4.len()
            invariant
                i <= v4.len(),
                addresses@ == Seq::new(i as nat, |k: int| Address::V4(v4@[k])),
            decreases v4.len() - i,
        {
            addresses.push(Address::V4(v4[i]));
            assert(addresses@ =~= Seq::new((i + 1) as nat, |k: int| Address::V4(v4@[k])));
            i += 1;
        }
        let ghost head = addresses@;
        let mut j: usize = 0;
        assert(addresses@ =~= head + Seq::new(0, |k: int| Address::V6(v6@[k])));
        while j < v6.len()
            invariant
                j <= v6.len(),
                addresses@ == head + Seq::new(j as nat, |k: int| Address::V6(v6@[k])),
            decreases v6.len() - j,
        {
            addresses.push(Address::V6(v6[j]));
            assert(addresses@ =~= head + Seq::new((j + 1) as nat, |k: int| Address::V6(v6@[k])));
            j += 1;
        }
        Some(Device { name: instance_name, port, host, addresses, metadata })
    }
}

} // verus!
