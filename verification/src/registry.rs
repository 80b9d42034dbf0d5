//! The registry of the instances a node advertises, grouped by service type.

use vstd::prelude::*;
use vstd::string::StringExecFns;
use dashmap::DashMap;
use crate::instance::{
    after_first_dot, defect, dotted, name_defect, valid_name, Instance, InstanceView,
};
use crate::text::split_at_each;
use crate::types::Address;

verus! {

/// The concurrent hash map of `dashmap`.
#[verifier::external_type_specification]
#[verifier::external_body]
#[verifier::reject_recursive_types(K)]
#[verifier::reject_recursive_types(V)]
#[verifier::reject_recursive_types(S)]
pub struct ExDashMap<K, V, S>(DashMap<K, V, S>);

/// What a map of buckets holds: for each service type that has a bucket,
/// the instances of the bucket by their names.
pub uninterp spec fn buckets(d: DashMap<String, DashMap<String, Instance>>) -> Map<
    Seq<char>,
    Map<Seq<char>, InstanceView>,
>;

/// The registry without any bucket.
pub open spec fn no_buckets() -> Map<Seq<char>, Map<Seq<char>, InstanceView>> {
    Map::empty()
}

/// An empty map of buckets.
///
/// Calls `DashMap::new`.
#[verifier::external_body]
fn new_buckets() -> (d: DashMap<String, DashMap<String, Instance>>)
    ensures
        buckets(d) == no_buckets(),
{
    DashMap::new()
}

/// The names in the bucket of a service type, each once, in the order in
/// which the map is walked; none where the type has no bucket.
///
/// Calls `DashMap::get` and `DashMap::iter`.
#[verifier::external_body]
fn bucket_names(d: &DashMap<String, DashMap<String, Instance>>, stype: &str) -> (r: Option<
    Vec<String>,
>)
    ensures
        (r is Some) == buckets(*d).dom().contains(stype@),
        r matches Some(names) ==> lists(names.deep_view(), buckets(*d)[stype@]),
{
    d.get(stype).map(|bucket| bucket.iter().map(|entry| entry.key().clone()).collect())
}

/// The instance of the given name in the bucket of a service type.
///
/// Calls `DashMap::get` on the map and on the bucket.
#[verifier::external_body]
fn lookup(d: &DashMap<String, DashMap<String, Instance>>, stype: &str, name: &str) -> (r: Option<
    Instance,
>)
    ensures
        (r is Some) == holds_instance(buckets(*d), stype@, name@),
        r matches Some(instance) ==> instance@ == buckets(*d)[stype@][name@],
{
    d.get(stype).and_then(|bucket| bucket.get(name).map(|entry| entry.value().duplicate()))
}

/// Whether a service type has a bucket.
///
/// Calls `DashMap::contains_key`.
#[verifier::external_body]
fn has_bucket(d: &DashMap<String, DashMap<String, Instance>>, stype: &str) -> (r: bool)
    ensures
        r == buckets(*d).dom().contains(stype@),
{
    d.contains_key(stype)
}

/// Puts an instance under its name into the bucket of a service type,
/// unless the bucket holds that name already. A missing bucket is made.
///
/// Calls `DashMap::entry` with `or_default` on the map and `DashMap::entry`
/// with `or_insert` on the bucket.
#[verifier::external_body]
fn insert_instance(
    d: &mut DashMap<String, DashMap<String, Instance>>,
    stype: String,
    name: String,
    instance: Instance,
)
    ensures
        buckets(*final(d)) == buckets(*old(d)).insert(
            stype@,
            with_instance(bucket_of(buckets(*old(d)), stype@), name@, instance@),
        ),
{
    d.entry(stype).or_default().entry(name).or_insert(instance);
}

/// Takes a name out of the bucket of a service type, where there is such a
/// bucket.
///
/// Calls `DashMap::get` on the map and `DashMap::remove` on the bucket.
#[verifier::external_body]
fn remove_instance(d: &mut DashMap<String, DashMap<String, Instance>>, stype: &str, name: &str)
    ensures
        buckets(*final(d)) == if buckets(*old(d)).dom().contains(stype@) {
            buckets(*old(d)).insert(stype@, buckets(*old(d))[stype@].remove(name@))
        } else {
            buckets(*old(d))
        },
{
    d.get(stype).map(|bucket| bucket.remove(name));
}

/// Whether the bucket of a service type holds no instance; none where the
/// type has no bucket.
///
/// Calls `DashMap::get` on the map and `DashMap::is_empty` on the bucket.
#[verifier::external_body]
fn bucket_is_empty(d: &DashMap<String, DashMap<String, Instance>>, stype: &str) -> (r: Option<bool>)
    ensures
        (r is Some) == buckets(*d).dom().contains(stype@),
        r matches Some(empty) ==> empty == (buckets(*d)[stype@].dom() == no_names()),
{
    d.get(stype).map(|bucket| bucket.is_empty())
}

/// Takes the bucket of a service type out of the map.
///
/// Calls `DashMap::remove`.
#[verifier::external_body]
fn remove_bucket(d: &mut DashMap<String, DashMap<String, Instance>>, stype: &str)
    ensures
        buckets(*final(d)) == buckets(*old(d)).remove(stype@),
{
    d.remove(stype);
}

/// The empty set of names.
pub open spec fn no_names() -> Set<Seq<char>> {
    Set::empty()
}

/// Whether the registry holds an instance of the given name in the bucket
/// of the given service type.
pub open spec fn holds_instance(
    all: Map<Seq<char>, Map<Seq<char>, InstanceView>>,
    stype: Seq<char>,
    name: Seq<char>,
) -> bool {
    all.dom().contains(stype) && all[stype].dom().contains(name)
}

/// The bucket of a service type, empty where the type has none.
pub open spec fn bucket_of(
    all: Map<Seq<char>, Map<Seq<char>, InstanceView>>,
    stype: Seq<char>,
) -> Map<Seq<char>, InstanceView> {
    if all.dom().contains(stype) {
        all[stype]
    } else {
        Map::empty()
    }
}

/// The bucket with the instance under its name, unless the name is taken.
pub open spec fn with_instance(
    bucket: Map<Seq<char>, InstanceView>,
    name: Seq<char>,
    instance: InstanceView,
) -> Map<Seq<char>, InstanceView> {
    if bucket.dom().contains(name) {
        bucket
    } else {
        bucket.insert(name, instance)
    }
}

/// The registry after an instance was registered.
pub open spec fn registered(
    all: Map<Seq<char>, Map<Seq<char>, InstanceView>>,
    instance: InstanceView,
) -> Map<Seq<char>, Map<Seq<char>, InstanceView>> {
    let stype = after_first_dot(instance.name);
    all.insert(stype, with_instance(bucket_of(all, stype), instance.name, instance))
}

/// The registry after the instance of the given name was unregistered: the
/// name leaves its bucket, and the bucket leaves with it where it held
/// nothing else.
pub open spec fn unregistered(
    all: Map<Seq<char>, Map<Seq<char>, InstanceView>>,
    name: Seq<char>,
) -> Map<Seq<char>, Map<Seq<char>, InstanceView>> {
    let stype = after_first_dot(name);
    if !all.dom().contains(stype) {
        all
    } else if all[stype].remove(name).dom() == Set::<Seq<char>>::empty() {
        all.remove(stype)
    } else {
        all.insert(stype, all[stype].remove(name))
    }
}

/// The instances that a node advertises, by service type and name.
pub struct Registry {
    devices: DashMap<String, DashMap<String, Instance>>,
}

impl View for Registry {
    type V = Map<Seq<char>, Map<Seq<char>, InstanceView>>;

    closed spec fn view(&self) -> Self::V {
        buckets(self.devices)
    }
}

/// The words for a service type without instances.
pub open spec fn no_instances_text(stype: Seq<char>) -> Seq<char> {
    "No instances found for service type: "@ + stype
}

/// The words for an instance that is not registered.
pub open spec fn not_found_text(name: Seq<char>) -> Seq<char> {
    "Instance not found: "@ + name
}

/// Whether `names` lists the keys of `bucket`, each once.
pub open spec fn lists(names: Seq<Seq<char>>, bucket: Map<Seq<char>, InstanceView>) -> bool {
    &&& forall|i: int| 0 <= i < names.len() ==> bucket.dom().contains(#[trigger] names[i])
    &&& forall|name: Seq<char>| #[trigger]
        bucket.dom().contains(name) ==> exists|i: int|
            0 <= i < names.len() && #[trigger] names[i] == name
    &&& forall|i: int, j: int|
        0 <= i < j < names.len() ==> #[trigger] names[i] != #[trigger] names[j]
}

/// What a lookup by full name gives: the defect of the request, or the
/// instance.
pub open spec fn found(all: Map<Seq<char>, Map<Seq<char>, InstanceView>>, name: Seq<char>) -> Result<
    InstanceView,
    Seq<char>,
> {
    let parts = split_at_each(name, '.');
    if parts.len() < 4 {
        Err("Instance name must be in the format `name.service_type.protocol.local`."@)
    } else {
        let stype = dotted(parts[1], parts[2], parts[3]);
        if !all.dom().contains(stype) {
            Err(not_found_text(name))
        } else if name_defect(name) is Some {
            Err(name_defect(name)->0.text())
        } else if all[stype].dom().contains(name) {
            Ok(all[stype][name])
        } else {
            Err(not_found_text(name))
        }
    }
}

/// After a valid instance was registered, a lookup by its name finds the
/// instance of that name: the one that was registered, or the one that
/// stood under the name before.
pub proof fn lemma_registered_is_found(
    all: Map<Seq<char>, Map<Seq<char>, InstanceView>>,
    instance: InstanceView,
)
    requires
        valid_name(instance.name),
    ensures
        found(registered(all, instance), instance.name) == Ok::<InstanceView, Seq<char>>(
            if holds_instance(all, after_first_dot(instance.name), instance.name) {
                all[after_first_dot(instance.name)][instance.name]
            } else {
                instance
            },
        ),
{
    crate::instance::lemma_four_parts(instance.name);
}

/// After an instance was unregistered, a lookup by its name finds nothing.
pub proof fn lemma_unregistered_is_not_found(
    all: Map<Seq<char>, Map<Seq<char>, InstanceView>>,
    name: Seq<char>,
)
    requires
        valid_name(name),
    ensures
        found(unregistered(all, name), name) is Err,
{
    crate::instance::lemma_four_parts(name);
}

/// The IPv4 addresses of a list of interface addresses, in order.
pub open spec fn ip4_of(interfaces: Seq<Address>) -> Seq<u32>
    decreases interfaces.len(),
{
    if interfaces.len() == 0 {
        Seq::empty()
    } else {
        let before = ip4_of(interfaces.drop_last());
        match interfaces.last() {
            Address::V4(a) => before.push(a),
            Address::V6(_) => before,
        }
    }
}

/// The IPv6 addresses of a list of interface addresses, in order.
pub open spec fn ip6_of(interfaces: Seq<Address>) -> Seq<u128>
    decreases interfaces.len(),
{
    if interfaces.len() == 0 {
        Seq::empty()
    } else {
        let before = ip6_of(interfaces.drop_last());
        match interfaces.last() {
            Address::V4(_) => before,
            Address::V6(a) => before.push(a),
        }
    }
}

impl Registry {
    /// The IPv4 addresses among the addresses of the local interfaces.
    pub fn get_ip4_list(interfaces: &Vec<Address>) -> (r: Vec<u32>)
        ensures
            r@ == ip4_of(interfaces@),
    {
        let mut out: Vec<u32> = Vec::new();
        let mut i: usize = 0;
        assert(interfaces@.take(0) =~= Seq::empty());
        while i < interfaces.len()
            invariant
                i <= interfaces.len(),
                out@ == ip4_of(interfaces@.take(i as int)),
            decreases interfaces.len() - i,
        {
            assert(interfaces@.take(i as int + 1).drop_last() =~= interfaces@.take(i as int));
            match interfaces[i] {
                Address::V4(a) => {
                    out.push(a);
                },
                Address::V6(_) => {},
            }
            i += 1;
        }
        assert(interfaces@.take(interfaces.len() as int) =~= interfaces@);
        out
    }

    /// The IPv6 addresses among the addresses of the local interfaces.
    pub fn get_ip6_list(interfaces: &Vec<Address>) -> (r: Vec<u128>)
        ensures
            r@ == ip6_of(interfaces@),
    {
        let mut out: Vec<u128> = Vec::new();
        let mut i: usize = 0;
        assert(interfaces@.take(0) =~= Seq::empty());
        while i < interfaces.len()
            invariant
                i <= interfaces.len(),
                out@ == ip6_of(interfaces@.take(i as int)),
            decreases interfaces.len() - i,
        {
            assert(interfaces@.take(i as int + 1).drop_last() =~= interfaces@.take(i as int));
            match interfaces[i] {
                Address::V4(_) => {},
                Address::V6(a) => {
                    out.push(a);
                },
            }
            i += 1;
        }
        assert(interfaces@.take(interfaces.len() as int) =~= interfaces@);
        out
    }

    /// Whether the registry is well formed: no bucket is empty, and every
    /// instance is valid and stands under its own name in the bucket of its
    /// own service type.
    pub open spec fn wf(&self) -> bool {
        forall|stype: Seq<char>| #[trigger]
            self@.dom().contains(stype) ==> {
                &&& self@[stype].dom() != Set::<Seq<char>>::empty()
                &&& forall|name: Seq<char>| #[trigger]
                    self@[stype].dom().contains(name) ==> {
                        &&& self@[stype][name].name == name
                        &&& after_first_dot(name) == stype
                        &&& valid_name(name)
                        &&& self@[stype][name].port != 0
                    }
            }
    }

    /// An empty registry.
    pub fn new() -> (r: Registry)
        ensures
            r@ == no_buckets(),
            r.wf(),
    {
        Registry { devices: new_buckets() }
    }

    /// The names of the instances of a service type, each once.
    ///
    /// A service type without instances is refused.
    pub fn get_instance_names(&self, stype: &str) -> (r: Result<Vec<String>, String>)
        ensures
            match r {
                Ok(names) => self@.dom().contains(stype@) && lists(names.deep_view(), self@[stype@]),
                Err(message) => !self@.dom().contains(stype@) && message@ == no_instances_text(
                    stype@,
                ),
            },
    {
        match bucket_names(&self.devices, stype) {
            Some(names) => Ok(names),
            None => Err(String::from_str("No instances found for service type: ").concat(stype)),
        }
    }

    /// The instance of the given full name.
    ///
    /// The service type is read from the name. A name of fewer than four
    /// parts, a service type without instances, an invalid name and a name
    /// that is not registered are refused, in this order.
    pub fn get_instance(&self, instance: &str) -> (r: Result<Instance, String>)
        ensures
            match r {
                Ok(found_instance) => found(self@, instance@) == Ok::<InstanceView, Seq<char>>(
                    found_instance@,
                ),
                Err(message) => found(self@, instance@) == Err::<InstanceView, Seq<char>>(message@),
            },
    {
        let service_type = match Instance::break_instance_str(instance) {
            Ok(s) => s,
            Err(message) => {
                return Err(message);
            },
        };
        if !has_bucket(&self.devices, service_type.as_str()) {
            return Err(String::from_str("Instance not found: ").concat(instance));
        }
        match crate::instance::is_valid_name(instance) {
            Err(e) => {
                return Err(e.message());
            },
            Ok(()) => {},
        }
        match lookup(&self.devices, service_type.as_str(), instance) {
            Some(found_instance) => Ok(found_instance),
            None => Err(String::from_str("Instance not found: ").concat(instance)),
        }
    }

    /// Registers an instance under its service type. An instance of the
    /// same name that is registered already stays as it is.
    pub fn register_device(&mut self, instance: Instance)
        requires
            old(self).wf(),
        ensures
            final(self)@ == registered(old(self)@, instance@),
            final(self).wf(),
    {
        proof {
            use_type_invariant(&instance);
        }
        let service_type = instance.service_type();
        let name = String::from_str(instance.name());
        let ghost before = self@;
        insert_instance(&mut self.devices, service_type, name, instance);
        proof {
            let stype = after_first_dot(instance@.name);
            let bucket = with_instance(bucket_of(before, stype), instance@.name, instance@);
            assert(bucket.dom().contains(instance@.name));
            assert forall|st: Seq<char>| #[trigger] self@.dom().contains(st) implies {
                &&& self@[st].dom() != Set::<Seq<char>>::empty()
                &&& forall|name: Seq<char>| #[trigger]
                    self@[st].dom().contains(name) ==> {
                        &&& self@[st][name].name == name
                        &&& after_first_dot(name) == st
                        &&& valid_name(name)
                        &&& self@[st][name].port != 0
                    }
            } by {
                if st == stype {
                    assert(self@[st] == bucket);
                    if before.dom().contains(stype) {
                        assert(before[stype].dom() != Set::<Seq<char>>::empty());
                    }
                } else {
                    assert(before.dom().contains(st));
                    assert(self@[st] == before[st]);
                }
            }
        }
    }

    /// Unregisters the instance of the given instance's name. The bucket of
    /// its service type goes with it where it held nothing else.
    pub fn unregister_device(&mut self, instance: &Instance)
        requires
            old(self).wf(),
        ensures
            final(self)@ == unregistered(old(self)@, instance@.name),
            final(self).wf(),
    {
        let service_type = instance.service_type();
        let ghost before = self@;
        remove_instance(&mut self.devices, service_type.as_str(), instance.name());
        match bucket_is_empty(&self.devices, service_type.as_str()) {
            Some(true) => {
                remove_bucket(&mut self.devices, service_type.as_str());
                assert(self@ =~= unregistered(before, instance@.name));
            },
            _ => {
                assert(self@ =~= unregistered(before, instance@.name));
            },
        }
        proof {
            assert forall|st: Seq<char>| #[trigger] self@.dom().contains(st) implies {
                &&& self@[st].dom() != Set::<Seq<char>>::empty()
                &&& forall|name: Seq<char>| #[trigger]
                    self@[st].dom().contains(name) ==> {
                        &&& self@[st][name].name == name
                        &&& after_first_dot(name) == st
                        &&& valid_name(name)
                        &&& self@[st][name].port != 0
                    }
            } by {
                assert(before.dom().contains(st));
                if st == after_first_dot(instance@.name) {
                    assert forall|name: Seq<char>| #[trigger]
                        self@[st].dom().contains(name) implies before[st].dom().contains(name) by {}
                } else {
                    assert(self@[st] == before[st]);
                }
            }
        }
    }
}

} // verus!
