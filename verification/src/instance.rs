//! Service instances: the names a node may advertise and their validation.

use vstd::prelude::*;
use vstd::string::StringExecFns;
use crate::text::{
    chars_of, first_of, is_label_char, label_char, lemma_first_of, lemma_first_of_bounds,
    lemma_pieces_hold_no_separator, lemma_split_joined, lemma_split_single, lemma_split_unfold,
    pieces_view, slice_chars, split_at_each, split_chars, string_of,
};

verus! {

/// Why a name or a port is refused.
#[derive(Debug, Clone, Copy, PartialEq, Eq, Structural)]
pub enum InstanceError {
    /// The name holds a space.
    Spaces,
    /// The name does not consist of four dot-separated parts.
    Format,
    /// The instance label holds a character other than `a-z`, `0-9`, `-`.
    Label,
    /// The service does not begin with an underscore.
    ServiceUnderscore,
    /// Nothing follows the underscore of the service.
    ServiceEmpty,
    /// The service holds a character other than `a-z`, `0-9`, `-`.
    ServiceChars,
    /// The protocol is neither `_tcp` nor `_udp`.
    Protocol,
    /// The domain is not `local`.
    Domain,
    /// The port is 0.
    Port,
}

/// The text `_tcp`.
pub open spec fn tcp_text() -> Seq<char> {
    seq!['_', 't', 'c', 'p']
}

/// The text `_udp`.
pub open spec fn udp_text() -> Seq<char> {
    seq!['_', 'u', 'd', 'p']
}

/// The text `local`.
pub open spec fn local_text() -> Seq<char> {
    seq!['l', 'o', 'c', 'a', 'l']
}

/// Whether every character of `s` is a lower-case letter, a digit or a hyphen.
pub open spec fn all_label_chars(s: Seq<char>) -> bool {
    forall|i: int| 0 <= i < s.len() ==> is_label_char(#[trigger] s[i])
}

/// What is wrong with a name, if anything: the first of the defects, in the
/// order of [`InstanceError`], that the name shows.
pub open spec fn name_defect(name: Seq<char>) -> Option<InstanceError> {
    let parts = split_at_each(name, '.');
    if name.contains(' ') {
        Some(InstanceError::Spaces)
    } else if parts.len() != 4 {
        Some(InstanceError::Format)
    } else if !all_label_chars(parts[0]) {
        Some(InstanceError::Label)
    } else if parts[1].len() == 0 || parts[1][0] != '_' {
        Some(InstanceError::ServiceUnderscore)
    } else if parts[1].len() == 1 {
        Some(InstanceError::ServiceEmpty)
    } else if !all_label_chars(parts[1].skip(1)) {
        Some(InstanceError::ServiceChars)
    } else if parts[2] != tcp_text() && parts[2] != udp_text() {
        Some(InstanceError::Protocol)
    } else if parts[3] != local_text() {
        Some(InstanceError::Domain)
    } else {
        None
    }
}

/// Whether a name has the form `<label>.<_service>._tcp|_udp.local`.
pub open spec fn valid_name(name: Seq<char>) -> bool {
    name_defect(name) is None
}

/// What is wrong with a name and a port, if anything. A defect of the name
/// comes before that of the port.
pub open spec fn defect(name: Seq<char>, port: u16) -> Option<InstanceError> {
    match name_defect(name) {
        Some(e) => Some(e),
        None => if port == 0 {
            Some(InstanceError::Port)
        } else {
            None
        },
    }
}

/// The name made of an instance label, a service name and a protocol:
/// `<label>._<service>._tcp.local`, or with `udp` `<label>._<service>._udp.local`.
pub open spec fn instance_text(label: Seq<char>, service: Seq<char>, udp: bool) -> Seq<char> {
    label + seq!['.'] + (seq!['_'] + service) + seq!['.'] + (if udp {
        udp_text()
    } else {
        tcp_text()
    }) + seq!['.'] + local_text()
}

/// Whether a name belongs to the language of instance names: a label of
/// lower-case letters, digits and hyphens, a dot, an underscore and a
/// non-empty service name of such characters, a dot, `_tcp` or `_udp`, a
/// dot, and `local`.
pub open spec fn in_language(name: Seq<char>) -> bool {
    exists|label: Seq<char>, service: Seq<char>, udp: bool|
        all_label_chars(label) && all_label_chars(service) && service.len() > 0 && name
            == #[trigger] instance_text(label, service, udp)
}

/// A name of four dot-separated parts is these parts joined by dots, and
/// what follows its first dot is the last three of them joined by dots.
pub proof fn lemma_four_parts(name: Seq<char>)
    requires
        split_at_each(name, '.').len() == 4,
    ensures
        ({
            let parts = split_at_each(name, '.');
            &&& name == parts[0] + seq!['.'] + parts[1] + seq!['.'] + parts[2] + seq!['.'] + parts[3]
            &&& after_first_dot(name) == dotted(parts[1], parts[2], parts[3])
            &&& !parts[3].contains('.')
        }),
{
    let parts = split_at_each(name, '.');
    lemma_split_unfold(name, '.');
    let i0 = first_of(name, '.');
    assert(i0 < name.len());
    let r1 = name.skip(i0 + 1);
    lemma_split_unfold(r1, '.');
    let i1 = first_of(r1, '.');
    assert(split_at_each(r1, '.').len() == 3);
    assert(i1 < r1.len());
    let r2 = r1.skip(i1 + 1);
    lemma_split_unfold(r2, '.');
    let i2 = first_of(r2, '.');
    assert(split_at_each(r2, '.').len() == 2);
    assert(i2 < r2.len());
    let r3 = r2.skip(i2 + 1);
    lemma_split_unfold(r3, '.');
    assert(split_at_each(r3, '.').len() == 1);
    assert(first_of(r3, '.') >= r3.len());
    assert(parts[0] == name.take(i0));
    assert(split_at_each(r1, '.')[0] == parts[1]);
    assert(split_at_each(r2, '.')[0] == parts[2]);
    assert(split_at_each(r3, '.')[0] == parts[3]);
    assert(parts[1] == r1.take(i1));
    assert(parts[2] == r2.take(i2));
    assert(parts[3] == r3);
    assert(r2 =~= parts[2] + seq!['.'] + parts[3]);
    assert(r1 =~= dotted(parts[1], parts[2], parts[3]));
    assert(name =~= parts[0] + seq!['.'] + parts[1] + seq!['.'] + parts[2] + seq!['.'] + parts[3]);
    lemma_pieces_hold_no_separator(name, '.', 3);
}

/// A name is valid exactly if it belongs to the language of instance names.
pub proof fn lemma_valid_names_are_the_language(name: Seq<char>)
    ensures
        valid_name(name) <==> in_language(name),
{
    if valid_name(name) {
        let parts = split_at_each(name, '.');
        lemma_four_parts(name);
        let label = parts[0];
        let service = parts[1].skip(1);
        let udp = parts[2] == udp_text();
        assert(parts[1] =~= seq!['_'] + service);
        assert(name =~= instance_text(label, service, udp));
    }
    if in_language(name) {
        let (label, service, udp) = choose|label: Seq<char>, service: Seq<char>, udp: bool|
            all_label_chars(label) && all_label_chars(service) && service.len() > 0 && name
                == #[trigger] instance_text(label, service, udp);
        let second = seq!['_'] + service;
        let proto = if udp {
            udp_text()
        } else {
            tcp_text()
        };
        assert(!label.contains('.')) by {
            if label.contains('.') {
                let j = choose|j: int| 0 <= j < label.len() && label[j] == '.';
                assert(is_label_char(label[j]));
            }
        }
        assert(!second.contains('.')) by {
            if second.contains('.') {
                let j = choose|j: int| 0 <= j < second.len() && second[j] == '.';
                if j > 0 {
                    assert(second[j] == service[j - 1]);
                    assert(is_label_char(service[j - 1]));
                }
            }
        }
        assert(!proto.contains('.')) by {
            if proto.contains('.') {
                let j = choose|j: int| 0 <= j < proto.len() && proto[j] == '.';
            }
        }
        assert(!local_text().contains('.')) by {
            if local_text().contains('.') {
                let j = choose|j: int| 0 <= j < local_text().len() && local_text()[j] == '.';
            }
        }
        let tail3 = local_text();
        let tail2 = proto + seq!['.'] + tail3;
        let tail1 = second + seq!['.'] + tail2;
        assert(name =~= label + seq!['.'] + tail1);
        lemma_split_single(tail3, '.');
        lemma_split_joined(proto, tail3, '.');
        lemma_split_joined(second, tail2, '.');
        lemma_split_joined(label, tail1, '.');
        let parts = split_at_each(name, '.');
        assert(parts =~= seq![label, second, proto, tail3]);
        assert(parts[1].skip(1) =~= service);
        assert(!name.contains(' ')) by {
            if name.contains(' ') {
                let j = choose|j: int| 0 <= j < name.len() && name[j] == ' ';
                let l = label.len() as int;
                let m = l + 1 + second.len();
                let n = m + 1 + proto.len();
                if j < l {
                    assert(name[j] == label[j]);
                    assert(is_label_char(label[j]));
                } else if j == l {
                } else if j < m {
                    assert(name[j] == second[j - l - 1]);
                    if j - l - 1 > 0 {
                        assert(second[j - l - 1] == service[j - l - 2]);
                        assert(is_label_char(service[j - l - 2]));
                    }
                } else if j == m {
                } else if j < n {
                    assert(name[j] == proto[j - m - 1]);
                } else if j == n {
                } else {
                    assert(name[j] == tail3[j - n - 1]);
                }
            }
        }
    }
}

/// Whether `s` holds `c`.
fn holds_char(s: &Vec<char>, c: char) -> (r: bool)
    ensures
        r == s@.contains(c),
{
    let mut i: usize = 0;
    while i < s.len()
        invariant
            i <= s.len(),
            forall|j: int| 0 <= j < i ==> s@[j] != c,
        decreases s.len() - i,
    {
        if s[i] == c {
            return true;
        }
        i += 1;
    }
    false
}

/// Whether every character of `s` from `from` on is a label character.
fn label_chars_from(s: &Vec<char>, from: usize) -> (r: bool)
    requires
        from <= s.len(),
    ensures
        r == all_label_chars(s@.skip(from as int)),
{
    let mut i: usize = from;
    while i < s.len()
        invariant
            from <= i <= s.len(),
            forall|j: int| from <= j < i ==> is_label_char(#[trigger] s@[j]),
        decreases s.len() - i,
    {
        if !label_char(s[i]) {
            assert(s@.skip(from as int)[i - from] == s@[i as int]);
            return false;
        }
        i += 1;
    }
    assert forall|j: int| 0 <= j < s@.skip(from as int).len() implies is_label_char(
        #[trigger] s@.skip(from as int)[j],
    ) by {
        assert(s@.skip(from as int)[j] == s@[from + j]);
    }
    true
}

/// Whether `s` is the text `_tcp` or, with `udp`, the text `_udp`.
fn is_protocol(s: &Vec<char>, udp: bool) -> (r: bool)
    ensures
        r == (s@ == if udp {
            udp_text()
        } else {
            tcp_text()
        }),
{
    let ok = s.len() == 4 && s[0] == '_' && (if udp {
        s[1] == 'u' && s[2] == 'd'
    } else {
        s[1] == 't' && s[2] == 'c'
    }) && s[3] == 'p';
    if ok {
        assert(s@ =~= if udp {
            udp_text()
        } else {
            tcp_text()
        });
    }
    ok
}

/// Whether `s` is the text `local`.
fn is_local(s: &Vec<char>) -> (r: bool)
    ensures
        r == (s@ == local_text()),
{
    let ok = s.len() == 5 && s[0] == 'l' && s[1] == 'o' && s[2] == 'c' && s[3] == 'a' && s[4]
        == 'l';
    if ok {
        assert(s@ =~= local_text());
    }
    ok
}

/// Checks a name against the form `<label>.<_service>._tcp|_udp.local`.
pub fn is_valid_name(name: &str) -> (r: Result<(), InstanceError>)
    ensures
        r is Ok <==> valid_name(name@),
        r matches Err(e) ==> name_defect(name@) == Some(e),
{
    let chars = chars_of(name);
    if holds_char(&chars, ' ') {
        return Err(InstanceError::Spaces);
    }
    let parts = split_chars(&chars, '.');
    let ghost views = pieces_view(parts@);
    if parts.len() != 4 {
        return Err(InstanceError::Format);
    }
    assert(views[0] == parts@[0]@ && views[1] == parts@[1]@ && views[2] == parts@[2]@ && views[3]
        == parts@[3]@);
    assert(parts@[0]@.skip(0) =~= parts@[0]@);
    if !label_chars_from(&parts[0], 0) {
        return Err(InstanceError::Label);
    }
    if parts[1].len() == 0 || parts[1][0] != '_' {
        return Err(InstanceError::ServiceUnderscore);
    }
    if parts[1].len() == 1 {
        return Err(InstanceError::ServiceEmpty);
    }
    if !label_chars_from(&parts[1], 1) {
        return Err(InstanceError::ServiceChars);
    }
    if !is_protocol(&parts[2], false) && !is_protocol(&parts[2], true) {
        return Err(InstanceError::Protocol);
    }
    if !is_local(&parts[3]) {
        return Err(InstanceError::Domain);
    }
    Ok(())
}

/// Checks a name and a port: the name as [`is_valid_name`] does, the port
/// against 0.
pub fn validate(name: &str, port: u16) -> (r: Result<(), InstanceError>)
    ensures
        r is Ok <==> defect(name@, port) is None,
        r matches Err(e) ==> defect(name@, port) == Some(e),
{
    match is_valid_name(name) {
        Err(e) => Err(e),
        Ok(()) => if port == 0 {
            Err(InstanceError::Port)
        } else {
            Ok(())
        },
    }
}

impl InstanceError {
    /// The words that describe the defect.
    pub open spec fn text(self) -> Seq<char> {
        match self {
            InstanceError::Spaces => "Instance name should not contain spaces"@,
            InstanceError::Format => "Instance name should be of format 'name._service-type._protocol._domain'"@,
            InstanceError::Label => "Instance name should be a lowercase alphanumeric string with hyphens"@,
            InstanceError::ServiceUnderscore => "Service type should start with an underscore"@,
            InstanceError::ServiceEmpty => "Service type should not be empty after the underscore"@,
            InstanceError::ServiceChars => "Service type should be a lowercase alphanumeric string with hyphens"@,
            InstanceError::Protocol => "Protocol should be either '_tcp' or '_udp'"@,
            InstanceError::Domain => "Domain should be 'local'"@,
            InstanceError::Port => "Invalid port number"@,
        }
    }

    /// The words that describe the defect.
    pub fn message(self) -> (r: String)
        ensures
            r@ == self.text(),
    {
        match self {
            InstanceError::Spaces => String::from_str("Instance name should not contain spaces"),
            InstanceError::Format => String::from_str(
                "Instance name should be of format 'name._service-type._protocol._domain'",
            ),
            InstanceError::Label => String::from_str(
                "Instance name should be a lowercase alphanumeric string with hyphens",
            ),
            InstanceError::ServiceUnderscore => String::from_str(
                "Service type should start with an underscore",
            ),
            InstanceError::ServiceEmpty => String::from_str(
                "Service type should not be empty after the underscore",
            ),
            InstanceError::ServiceChars => String::from_str(
                "Service type should be a lowercase alphanumeric string with hyphens",
            ),
            InstanceError::Protocol => String::from_str("Protocol should be either '_tcp' or '_udp'"),
            InstanceError::Domain => String::from_str("Domain should be 'local'"),
            InstanceError::Port => String::from_str("Invalid port number"),
        }
    }
}

/// The texts of a list of key-value pairs.
pub open spec fn pairs_view(pairs: Seq<(String, String)>) -> Seq<(Seq<char>, Seq<char>)> {
    Seq::new(pairs.len(), |i: int| (pairs[i].0@, pairs[i].1@))
}

/// The index of the first pair with the given key, or the length of the
/// list where no pair has it.
pub open spec fn key_index(pairs: Seq<(Seq<char>, Seq<char>)>, key: Seq<char>) -> int {
    first_of(Seq::new(pairs.len(), |i: int| pairs[i].0), key)
}

/// Whether no two pairs of the list share a key.
pub open spec fn distinct_keys(pairs: Seq<(Seq<char>, Seq<char>)>) -> bool {
    forall|i: int, j: int|
        0 <= i < j < pairs.len() ==> (#[trigger] pairs[i]).0 != (#[trigger] pairs[j]).0
}

/// The list with `key` set to `value`: in place where the key is present,
/// at the end where it is not.
pub open spec fn with_pair(pairs: Seq<(Seq<char>, Seq<char>)>, key: Seq<char>, value: Seq<char>) -> Seq<
    (Seq<char>, Seq<char>),
> {
    let i = key_index(pairs, key);
    if 0 <= i < pairs.len() {
        pairs.update(i, (key, value))
    } else {
        pairs.push((key, value))
    }
}

/// The map that results from setting each pair of the list in turn: one
/// pair per key, with the value given last, in the order in which the keys
/// first occur.
pub open spec fn collected(pairs: Seq<(Seq<char>, Seq<char>)>) -> Seq<(Seq<char>, Seq<char>)>
    decreases pairs.len(),
{
    if pairs.len() == 0 {
        Seq::empty()
    } else {
        with_pair(collected(pairs.drop_last()), pairs.last().0, pairs.last().1)
    }
}

/// Setting a key keeps the keys of a list distinct.
pub proof fn lemma_with_pair_distinct(pairs: Seq<(Seq<char>, Seq<char>)>, key: Seq<char>, value: Seq<char>)
    requires
        distinct_keys(pairs),
    ensures
        distinct_keys(with_pair(pairs, key, value)),
{
    let keys = Seq::new(pairs.len(), |i: int| pairs[i].0);
    lemma_first_of_bounds(keys, key);
    let i = key_index(pairs, key);
    let out = with_pair(pairs, key, value);
    assert forall|a: int, b: int| 0 <= a < b < out.len() implies (#[trigger] out[a]).0 != (
    #[trigger] out[b]).0 by {
        if i < pairs.len() {
            assert(keys[i] == key);
            assert(out[a].0 == pairs[a].0);
            assert(out[b].0 == pairs[b].0);
        } else {
            if b == pairs.len() {
                assert(keys[a] != key);
            }
        }
    }
}

/// A service instance that a node advertises: its full name, the port it
/// listens on and its attributes, one value per key.
#[derive(Debug)]
pub struct Instance {
    name: String,
    port: u16,
    metadata: Vec<(String, String)>,
}

/// Mathematical value of an [`Instance`].
#[verifier::ext_equal]
pub struct InstanceView {
    pub name: Seq<char>,
    pub port: u16,
    pub metadata: Seq<(Seq<char>, Seq<char>)>,
}

impl View for Instance {
    type V = InstanceView;

    closed spec fn view(&self) -> InstanceView {
        InstanceView { name: self.name@, port: self.port, metadata: pairs_view(self.metadata@) }
    }
}

impl Clone for Instance {
    fn clone(&self) -> (r: Instance)
        ensures
            r@ == self@,
    {
        self.duplicate()
    }
}

impl PartialEq for Instance {
    fn eq(&self, other: &Instance) -> (r: bool) {
        self.name == other.name
    }
}

impl Eq for Instance {

}

impl vstd::std_specs::cmp::PartialEqSpecImpl for Instance {
    open spec fn obeys_eq_spec() -> bool {
        true
    }

    open spec fn eq_spec(&self, other: &Instance) -> bool {
        self@.name == other@.name
    }
}

/// The part of a name after its first dot.
pub open spec fn after_first_dot(name: Seq<char>) -> Seq<char> {
    name.skip(first_of(name, '.') + 1)
}

/// The text of pieces joined by dots.
pub open spec fn dotted(a: Seq<char>, b: Seq<char>, c: Seq<char>) -> Seq<char> {
    a + seq!['.'] + b + seq!['.'] + c
}

/// Sets `key` to `value` in a list of pairs.
fn set_pair(pairs: &mut Vec<(String, String)>, key: String, value: String)
    ensures
        pairs_view(final(pairs)@) == with_pair(pairs_view(old(pairs)@), key@, value@),
{
    let ghost before = pairs_view(pairs@);
    let ghost keys = Seq::new(before.len(), |i: int| before[i].0);
    let mut i: usize = 0;
    while i < pairs.len()
        invariant
            i <= pairs.len(),
            pairs@ == old(pairs)@,
            before == pairs_view(pairs@),
            keys == Seq::new(before.len(), |i: int| before[i].0),
            forall|j: int| 0 <= j < i ==> keys[j] != key@,
        decreases pairs.len() - i,
    {
        if pairs[i].0 == key {
            proof {
                assert(keys[i as int] == key@);
                lemma_first_of(keys, key@, i as int);
            }
            pairs.set(i, (key, value));
            assert(pairs_view(pairs@) =~= before.update(i as int, (key@, value@)));
            return ;
        }
        assert(keys[i as int] == pairs@[i as int].0@);
        i += 1;
    }
    proof {
        lemma_first_of(keys, key@, keys.len() as int);
    }
    pairs.push((key, value));
    assert(pairs_view(pairs@) =~= before.push((key@, value@)));
}

/// Copies a list of pairs.
fn copy_pairs(pairs: &Vec<(String, String)>) -> (r: Vec<(String, String)>)
    ensures
        pairs_view(r@) == pairs_view(pairs@),
{
    let mut out: Vec<(String, String)> = Vec::new();
    let mut i: usize = 0;
    while i < pairs.len()
        invariant
            i <= pairs.len(),
            out@.len() == i,
            forall|j: int| 0 <= j < i ==> out@[j].0@ == pairs@[j].0@ && out@[j].1@ == pairs@[j].1@,
        decreases pairs.len() - i,
    {
        out.push((pairs[i].0.clone(), pairs[i].1.clone()));
        i += 1;
    }
    assert(pairs_view(out@) =~= pairs_view(pairs@));
    out
}

/// Sets each pair of the list in turn: one pair per key stays, with the
/// value given last.
pub fn collect(metadata: &Vec<(String, String)>) -> (r: Vec<(String, String)>)
    ensures
        pairs_view(r@) == collected(pairs_view(metadata@)),
        distinct_keys(pairs_view(r@)),
{
    let mut pairs: Vec<(String, String)> = Vec::new();
    let ghost given = pairs_view(metadata@);
    let mut i: usize = 0;
    assert(given.take(0) =~= Seq::empty());
    assert(pairs_view(pairs@) =~= Seq::empty());
    while i < metadata.len()
        invariant
            i <= metadata.len(),
            given == pairs_view(metadata@),
            pairs_view(pairs@) == collected(given.take(i as int)),
            distinct_keys(pairs_view(pairs@)),
        decreases metadata.len() - i,
    {
        let ghost before = pairs_view(pairs@);
        set_pair(&mut pairs, metadata[i].0.clone(), metadata[i].1.clone());
        proof {
            let next = given.take(i as int + 1);
            assert(next.drop_last() =~= given.take(i as int));
            assert(next.last() == given[i as int]);
            lemma_with_pair_distinct(before, given[i as int].0, given[i as int].1);
        }
        i += 1;
    }
    assert(given.take(metadata.len() as int) =~= given);
    pairs
}

impl Instance {
    /// Whether the instance is well formed: its name is valid, its port is
    /// not 0 and no key occurs twice among its attributes. Every instance
    /// that a program holds is.
    #[verifier::type_invariant]
    pub open spec fn wf(&self) -> bool {
        &&& valid_name(self@.name)
        &&& self@.port != 0
        &&& distinct_keys(self@.metadata)
    }

    /// Makes an instance of a valid name and port.
    ///
    /// The attributes are set in the order given, so that of two pairs with
    /// one key the later value stays. A name or port that is refused gives
    /// the words of its defect.
    pub fn new(name: String, port: u16, metadata: Vec<(String, String)>) -> (r: Result<Instance, String>)
        ensures
            match r {
                Ok(instance) => {
                    &&& defect(name@, port) is None
                    &&& instance.wf()
                    &&& instance@.name == name@
                    &&& instance@.port == port
                    &&& instance@.metadata == collected(pairs_view(metadata@))
                },
                Err(message) => defect(name@, port) matches Some(e) && message@ == e.text(),
            },
    {
        match validate(name.as_str(), port) {
            Err(e) => Err(e.message()),
            Ok(()) => {
                let pairs = collect(&metadata);
                Ok(Instance { name, port, metadata: pairs })
            },
        }
    }

    /// The full name of the instance.
    pub fn name(&self) -> (r: &str)
        ensures
            r@ == self@.name,
    {
        self.name.as_str()
    }

    /// The port the instance listens on.
    pub fn port(&self) -> (r: u16)
        ensures
            r == self@.port,
    {
        self.port
    }

    /// The attributes of the instance, one pair per key.
    pub fn metadata(&self) -> (r: &Vec<(String, String)>)
        ensures
            pairs_view(r@) == self@.metadata,
    {
        &self.metadata
    }

    /// The service type of the instance: its name after the first dot.
    pub fn service_type(&self) -> (r: String)
        ensures
            r@ == after_first_dot(self@.name),
    {
        proof {
            use_type_invariant(self);
        }
        let chars = chars_of(self.name.as_str());
        let mut i: usize = 0;
        while i < chars.len() && chars[i] != '.'
            invariant
                i <= chars.len(),
                forall|j: int| 0 <= j < i ==> chars@[j] != '.',
            decreases chars.len() - i,
        {
            i += 1;
        }
        proof {
            lemma_first_of(chars@, '.', i as int);
            if i == chars.len() {
                assert(split_at_each(chars@, '.') =~= seq![chars@]);
            }
        }
        let rest = slice_chars(&chars, i + 1, chars.len());
        assert(rest@ =~= chars@.skip(i as int + 1));
        string_of(&rest)
    }

    /// A copy of the instance.
    pub fn duplicate(&self) -> (r: Instance)
        ensures
            r@ == self@,
    {
        proof {
            use_type_invariant(self);
        }
        Instance {
            name: self.name.clone(),
            port: self.port,
            metadata: copy_pairs(&self.metadata),
        }
    }

    /// The service type named in an instance name: its second, third and
    /// fourth dot-separated parts, joined by dots.
    ///
    /// A name of fewer than four parts is refused.
    pub fn break_instance_str(instance: &str) -> (r: Result<String, String>)
        ensures
            match r {
                Ok(service_type) => {
                    let parts = split_at_each(instance@, '.');
                    parts.len() >= 4 && service_type@ == dotted(parts[1], parts[2], parts[3])
                },
                Err(message) => split_at_each(instance@, '.').len() < 4 && message@
                    == "Instance name must be in the format `name.service_type.protocol.local`."@,
            },
    {
        let chars = chars_of(instance);
        let parts = split_chars(&chars, '.');
        if parts.len() < 4 {
            return Err(
                String::from_str(
                    "Instance name must be in the format `name.service_type.protocol.local`.",
                ),
            );
        }
        let ghost views = pieces_view(parts@);
        assert(views[1] == parts@[1]@ && views[2] == parts@[2]@ && views[3] == parts@[3]@);
        let mut out: Vec<char> = Vec::new();
        append_chars(&mut out, &parts[1]);
        out.push('.');
        append_chars(&mut out, &parts[2]);
        out.push('.');
        append_chars(&mut out, &parts[3]);
        assert(out@ =~= dotted(parts@[1]@, parts@[2]@, parts@[3]@));
        Ok(string_of(&out))
    }
}

/// Appends the characters of `more` to `out`.
fn append_chars(out: &mut Vec<char>, more: &Vec<char>)
    ensures
        final(out)@ == old(out)@ + more@,
{
    let mut i: usize = 0;
    assert(more@.take(0) =~= Seq::empty());
    assert(out@ =~= old(out)@ + more@.take(0));
    while i < more.len()
        invariant
            i <= more.len(),
            out@ == old(out)@ + more@.take(i as int),
        decreases more.len() - i,
    {
        out.push(more[i]);
        assert(more@.take(i as int + 1) =~= more@.take(i as int).push(more@[i as int]));
        assert(out@ =~= old(out)@ + more@.take(i as int + 1));
        i += 1;
    }
    assert(more@.take(more.len() as int) =~= more@);
}

} // verus!
