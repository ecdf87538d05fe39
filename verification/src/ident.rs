//! Identifiers: points in time, resource ids and endpoint addresses.

use vstd::prelude::*;

verus! {

/// A point in time, counted from the Unix epoch.
#[derive(Clone, Copy, Debug, PartialEq, Eq, Hash, Structural)]
pub struct Timestamp {
    pub secs: u64,
    pub nanos: u32,
}

/// Reads the system clock with `std::time::SystemTime::now` and gives the time
/// since the Unix epoch; a clock set before the epoch reads as the epoch itself.
/// The result depends on when the call is made; all that is stated is that
/// the nanoseconds are a fraction of a second, as `Duration::subsec_nanos`
/// gives them.
#[verifier::external_body]
fn system_clock() -> (t: Timestamp)
    ensures
        t.nanos < 1_000_000_000,
{
    match std::time::SystemTime::now().duration_since(std::time::UNIX_EPOCH) {
        Ok(d) => Timestamp { secs: d.as_secs(), nanos: d.subsec_nanos() },
        Err(_) => Timestamp { secs: 0, nanos: 0 },
    }
}

impl Timestamp {
    /// Whether this time is not later than `other`.
    pub open spec fn at_or_before(self, other: Timestamp) -> bool {
        self.secs < other.secs || (self.secs == other.secs && self.nanos <= other.nanos)
    }

    /// Whether this time is strictly earlier than `other`.
    pub open spec fn before(self, other: Timestamp) -> bool {
        self.secs < other.secs || (self.secs == other.secs && self.nanos < other.nanos)
    }

    pub fn new(secs: u64, nanos: u32) -> (t: Timestamp)
        ensures
            t == (Timestamp { secs, nanos }),
    {
        Timestamp { secs, nanos }
    }

    /// The current time of the system clock.
    pub fn now() -> (t: Timestamp)
        ensures
            t.nanos < 1_000_000_000,
    {
        system_clock()
    }

    /// This time moved `secs` seconds into the future, stopping at the last
    /// second that can be written.
    pub fn plus_secs(&self, secs: u64) -> (t: Timestamp)
        ensures
            t.nanos == self.nanos,
            self.secs + secs <= u64::MAX ==> t.secs == self.secs + secs,
            self.secs + secs > u64::MAX ==> t.secs == u64::MAX,
    {
        Timestamp { secs: self.secs.saturating_add(secs), nanos: self.nanos }
    }

    pub fn is_at_or_before(&self, other: &Timestamp) -> (b: bool)
        ensures
            b == self.at_or_before(*other),
    {
        self.secs < other.secs || (self.secs == other.secs && self.nanos <= other.nanos)
    }

    pub fn is_before(&self, other: &Timestamp) -> (b: bool)
        ensures
            b == self.before(*other),
    {
        self.secs < other.secs || (self.secs == other.secs && self.nanos < other.nanos)
    }
}

/// The identifier of a resource: the time at which the owning endpoint made it
/// and that endpoint's running counter.
#[derive(Clone, Copy, Debug, PartialEq, Eq, Hash, Structural)]
pub struct ResourceId {
    pub time: Timestamp,
    pub counter: usize,
}

pub type ID = ResourceId;

impl ResourceId {
    pub fn new(time: Timestamp, counter: usize) -> (id: ResourceId)
        ensures
            id == (ResourceId { time, counter }),
    {
        ResourceId { time, counter }
    }
}

/// The address of an endpoint, as the text of a socket address
/// (`127.0.0.1:3334`). Two addresses are the same endpoint when their texts are
/// equal.
#[derive(Clone, Debug, PartialEq, Eq, Hash)]
pub struct Address {
    text: String,
}

impl View for Address {
    type V = Seq<char>;

    closed spec fn view(&self) -> Seq<char> {
        self.text@
    }
}

impl Address {
    pub fn new(text: String) -> (a: Address)
        ensures
            a@ == text@,
    {
        Address { text }
    }

    pub fn from_text(text: &str) -> (a: Address)
        ensures
            a@ == text@,
    {
        Address { text: text.to_owned() }
    }

    pub fn as_str(&self) -> (s: &str)
        ensures
            s@ == self@,
    {
        self.text.as_str()
    }

    /// Whether both name the same endpoint.
    pub fn same(&self, other: &Address) -> (b: bool)
        ensures
            b == (self@ == other@),
    {
        self.text == other.text
    }

    pub fn duplicate(&self) -> (a: Address)
        ensures
            a@ == self@,
    {
        Address { text: self.text.clone() }
    }
}

} // verus!
