//! The values that cross the library's boundary: query fingerprints,
//! response payloads and the messages exchanged with the socket layer.

use vstd::prelude::*;

verus! {

/// Nanoseconds in one second.
pub const NANOS_PER_SEC: u128 = 1_000_000_000u128;

/// An IP address, as a number in network order.
#[derive(Debug, Clone, Copy, PartialEq, Eq, Structural)]
pub enum Address {
    V4(u32),
    V6(u128),
}

/// The record types a node asks for and answers.
#[derive(Debug, Clone, Copy, PartialEq, Eq, Hash, Structural)]
pub enum QueryType {
    PTR,
    SRV,
    TXT,
    A,
    AAAA,
}

/// The fingerprint of a query: the name asked for and the record type.
#[derive(Debug, Clone, PartialEq, Eq, Hash)]
pub struct Query {
    pub qname: String,
    pub qtype: QueryType,
}

/// Mathematical value of a [`Query`].
#[verifier::ext_equal]
pub struct QueryView {
    pub qname: Seq<char>,
    pub qtype: QueryType,
}

impl View for Query {
    type V = QueryView;

    open spec fn view(&self) -> QueryView {
        QueryView { qname: self.qname@, qtype: self.qtype }
    }
}

impl Query {
    /// A copy of the fingerprint.
    pub fn duplicate(&self) -> (r: Query)
        ensures
            r@ == self@,
    {
        Query { qname: self.qname.clone(), qtype: self.qtype }
    }

    /// Whether two fingerprints name the same query.
    pub fn same(&self, other: &Query) -> (r: bool)
        ensures
            r == (self@ == other@),
    {
        self.qname == other.qname && self.qtype == other.qtype
    }
}

/// Whether two lists of strings hold the same text in the same order.
pub fn same_strings(a: &Vec<String>, b: &Vec<String>) -> (r: bool)
    ensures
        r == (a.deep_view() == b.deep_view()),
{
    if a.len() != b.len() {
        assert(a.deep_view().len() != b.deep_view().len());
        return false;
    }
    let mut i: usize = 0;
    while i < a.len()
        invariant
            i <= a.len(),
            a.len() == b.len(),
            forall|j: int| 0 <= j < i ==> a[j]@ == b[j]@,
        decreases a.len() - i,
    {
        if a[i] != b[i] {
            assert(a.deep_view()[i as int] == a[i as int]@);
            assert(b.deep_view()[i as int] == b[i as int]@);
            return false;
        }
        i += 1;
    }
    assert(a.deep_view() =~= b.deep_view());
    true
}

/// The payload of a response, one variant per record type.
#[allow(inconsistent_fields)]
#[derive(Debug, Clone, PartialEq, Eq, Hash)]
pub enum ResponseInner {
    /// The name a pointer record leads to.
    PTR(String),
    /// Where a service instance listens.
    SRV { port: u16, target: String },
    /// The attributes of an instance, each written `key=value`.
    TXT { strings: Vec<String> },
    /// An IPv4 address, as the 32-bit number in network order.
    A { address: u32 },
    /// An IPv6 address, as the 128-bit number in network order.
    AAAA { address: u128 },
}

/// Mathematical value of a [`ResponseInner`].
#[allow(inconsistent_fields)]
#[verifier::ext_equal]
pub enum InnerView {
    PTR(Seq<char>),
    SRV { port: u16, target: Seq<char> },
    TXT { strings: Seq<Seq<char>> },
    A { address: u32 },
    AAAA { address: u128 },
}

impl View for ResponseInner {
    type V = InnerView;

    open spec fn view(&self) -> InnerView {
        match self {
            ResponseInner::PTR(target) => InnerView::PTR(target@),
            ResponseInner::SRV { port, target } => InnerView::SRV { port: *port, target: target@ },
            ResponseInner::TXT { strings } => InnerView::TXT { strings: strings.deep_view() },
            ResponseInner::A { address } => InnerView::A { address: *address },
            ResponseInner::AAAA { address } => InnerView::AAAA { address: *address },
        }
    }
}

impl ResponseInner {
    /// The record type this payload belongs to.
    pub open spec fn spec_qtype(&self) -> QueryType {
        match self {
            ResponseInner::PTR(_) => QueryType::PTR,
            ResponseInner::SRV { .. } => QueryType::SRV,
            ResponseInner::TXT { .. } => QueryType::TXT,
            ResponseInner::A { .. } => QueryType::A,
            ResponseInner::AAAA { .. } => QueryType::AAAA,
        }
    }

    /// The record type this payload belongs to.
    #[verifier::when_used_as_spec(spec_qtype)]
    pub fn qtype(&self) -> (r: QueryType)
        ensures
            r == self.spec_qtype(),
    {
        match self {
            ResponseInner::PTR(_) => QueryType::PTR,
            ResponseInner::SRV { .. } => QueryType::SRV,
            ResponseInner::TXT { .. } => QueryType::TXT,
            ResponseInner::A { .. } => QueryType::A,
            ResponseInner::AAAA { .. } => QueryType::AAAA,
        }
    }

    /// Whether two payloads are equal, field by field.
    pub fn same(&self, other: &ResponseInner) -> (r: bool)
        ensures
            r == (self@ == other@),
    {
        match (self, other) {
            (ResponseInner::PTR(a), ResponseInner::PTR(b)) => *a == *b,
            (
                ResponseInner::SRV { port: pa, target: ta },
                ResponseInner::SRV { port: pb, target: tb },
            ) => *pa == *pb && *ta == *tb,
            (ResponseInner::TXT { strings: a }, ResponseInner::TXT { strings: b }) => {
                same_strings(a, b)
            },
            (ResponseInner::A { address: a }, ResponseInner::A { address: b }) => *a == *b,
            (ResponseInner::AAAA { address: a }, ResponseInner::AAAA { address: b }) => *a == *b,
            _ => false,
        }
    }
}

/// A learned answer and the instant at which it stops being valid.
///
/// `ends_at` counts nanoseconds since the Unix epoch.
#[derive(Debug, Clone)]
pub struct Response {
    pub inner: ResponseInner,
    pub ends_at: u128,
}

/// Mathematical value of a [`Response`].
#[verifier::ext_equal]
pub struct ResponseView {
    pub inner: InnerView,
    pub ends_at: u128,
}

impl View for Response {
    type V = ResponseView;

    open spec fn view(&self) -> ResponseView {
        ResponseView { inner: self.inner@, ends_at: self.ends_at }
    }
}

impl PartialEq for Response {
    fn eq(&self, other: &Response) -> (r: bool) {
        self.inner.same(&other.inner)
    }
}

impl Eq for Response {

}

impl vstd::std_specs::cmp::PartialEqSpecImpl for Response {
    open spec fn obeys_eq_spec() -> bool {
        true
    }

    open spec fn eq_spec(&self, other: &Response) -> bool {
        self@.inner == other@.inner
    }
}

impl Response {
    /// Whether two responses carry the same payload. The expiry is not
    /// compared: a cache holds one entry per payload.
    pub fn same(&self, other: &Response) -> (r: bool)
        ensures
            r == (self@.inner == other@.inner),
    {
        self.inner.same(&other.inner)
    }
}

} // verus!
