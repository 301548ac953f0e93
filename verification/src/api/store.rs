//! names of store objects and numbered system generations

use vstd::prelude::*;
use vstd::std_specs::cmp::PartialOrdSpec;

verus! {

/// a blake3 tree hash naming a set of objects in the content store
#[derive(Clone, Debug, PartialEq, Eq, Hash)]
pub struct ObjectHash(String);

impl View for ObjectHash {
    type V = Seq<char>;

    closed spec fn view(&self) -> Seq<char> {
        self.0@
    }
}

impl ObjectHash {
    pub fn new(hash: &str) -> (h: Self)
        ensures
            h@ == hash@,
    {
        ObjectHash(String::from_str(hash))
    }

    pub fn as_str(&self) -> (s: &str)
        ensures
            s@ == self@,
    {
        self.0.as_str()
    }

    /// the hash as `Display` writes it
    pub fn to_string(&self) -> (s: String)
        ensures
            s@ == self@,
    {
        self.0.clone()
    }

    /// a copy naming the same objects
    pub fn duplicate(&self) -> (h: Self)
        ensures
            h@ == self@,
    {
        ObjectHash(self.0.clone())
    }
}

/// a numbered system generation. monotonic, never reused; rollback swaps
/// which one is current
#[derive(Clone, Copy, Debug, PartialEq, Eq, Ord, Structural)]
pub struct Gen(u64);

impl Gen {
    pub fn new(n: u64) -> (g: Self)
        ensures
            g.get_spec() == n,
    {
        Gen(n)
    }

    pub closed spec fn get_spec(self) -> u64 {
        self.0
    }

    #[verifier::when_used_as_spec(get_spec)]
    pub fn get(self) -> (n: u64)
        ensures
            n == self.get_spec(),
    {
        self.0
    }

    /// the number as `Display` writes it, in decimal
    pub fn to_string(&self) -> (s: String)
        ensures
            s@ == crate::text::dec(self.get_spec() as nat),
    {
        crate::text::u64_to_dec(self.0)
    }
}


/// generations are ordered by their numbers
impl PartialOrd for Gen {
    fn partial_cmp(&self, other: &Self) -> (r: Option<std::cmp::Ordering>) {
        if self.0 < other.0 {
            Some(std::cmp::Ordering::Less)
        } else if self.0 == other.0 {
            Some(std::cmp::Ordering::Equal)
        } else {
            Some(std::cmp::Ordering::Greater)
        }
    }
}

impl vstd::std_specs::cmp::PartialOrdSpecImpl for Gen {
    open spec fn obeys_partial_cmp_spec() -> bool {
        true
    }

    open spec fn partial_cmp_spec(&self, other: &Self) -> Option<std::cmp::Ordering> {
        if self.get_spec() < other.get_spec() {
            Some(std::cmp::Ordering::Less)
        } else if self.get_spec() == other.get_spec() {
            Some(std::cmp::Ordering::Equal)
        } else {
            Some(std::cmp::Ordering::Greater)
        }
    }
}

/// Generation order is number order: one generation comes before another
/// exactly when its number is smaller, and two are the same generation
/// exactly when their numbers are equal.
pub proof fn law_gen_order_is_number_order(g: Gen, h: Gen)
    ensures
        (g.partial_cmp_spec(&h) == Some(std::cmp::Ordering::Less)) <==> g.get_spec() < h.get_spec(),
        (g.partial_cmp_spec(&h) == Some(std::cmp::Ordering::Greater)) <==> g.get_spec() > h.get_spec(),
        (g == h) <==> g.get_spec() == h.get_spec(),
{
}

} // verus!
