//! The exclusion set: text prefixes of the networks that the engine neither
//! learns, advertises nor installs.

use vstd::prelude::*;
use crate::text::{starts_with, texts};

verus! {

/// Whether `cidr` begins with one of `prefixes`.
pub open spec fn excluded(prefixes: Seq<Seq<char>>, cidr: Seq<char>) -> bool {
    exists|i: int| 0 <= i < prefixes.len() && (#[trigger] prefixes[i]).is_prefix_of(cidr)
}

/// The prefixes excluded where nothing else is configured: loopback
/// (`127.`) and the host-only range `10.0.2.`.
pub open spec fn default_prefixes() -> Seq<Seq<char>> {
    seq!["127."@, "10.0.2."@]
}

/// A set of excluded text prefixes.
pub struct Exclusions {
    prefixes: Vec<String>,
}

impl View for Exclusions {
    type V = Seq<Seq<char>>;

    closed spec fn view(&self) -> Seq<Seq<char>> {
        texts(self.prefixes@)
    }
}

impl Exclusions {
    /// The set that excludes every text beginning with one of `prefixes`.
    pub fn new(prefixes: Vec<String>) -> (r: Exclusions)
        ensures
            r@ == texts(prefixes@),
    {
        Exclusions { prefixes }
    }

    /// The set that excludes nothing.
    pub fn none() -> (r: Exclusions)
        ensures
            r@ == Seq::<Seq<char>>::empty(),
    {
        let r = Exclusions { prefixes: Vec::new() };
        assert(r@ =~= Seq::<Seq<char>>::empty());
        r
    }

    /// Whether `cidr` begins with an excluded prefix.
    pub fn excludes(&self, cidr: &str) -> (r: bool)
        ensures
            r == excluded(self@, cidr@),
    {
        let mut i: usize = 0;
        while i < self.prefixes.len()
            invariant
                i <= self.prefixes.len(),
                forall|k: int| 0 <= k < i ==> !(#[trigger] self@[k]).is_prefix_of(cidr@),
            decreases self.prefixes.len() - i,
        {
            if starts_with(cidr, self.prefixes[i].as_str()) {
                assert(self@[i as int].is_prefix_of(cidr@));
                return true;
            }
            i += 1;
        }
        false
    }

    /// A copy of this set.
    pub fn duplicate(&self) -> (r: Exclusions)
        ensures
            r@ == self@,
    {
        let mut prefixes: Vec<String> = Vec::new();
        let mut i: usize = 0;
        while i < self.prefixes.len()
            invariant
                i <= self.prefixes.len(),
                prefixes@.len() == i,
                forall|k: int| 0 <= k < i ==> (#[trigger] prefixes@[k])@ == self.prefixes@[k]@,
            decreases self.prefixes.len() - i,
        {
            prefixes.push(self.prefixes[i].clone());
            i += 1;
        }
        assert(texts(prefixes@) =~= self@);
        Exclusions { prefixes }
    }
}

impl Default for Exclusions {
    /// The default set: `127.` and `10.0.2.`.
    fn default() -> (r: Exclusions)
        ensures
            r@ == default_prefixes(),
    {
        let mut prefixes: Vec<String> = Vec::new();
        prefixes.push("127.".to_owned());
        prefixes.push("10.0.2.".to_owned());
        let r = Exclusions { prefixes };
        assert(r@ =~= default_prefixes());
        r
    }
}

} // verus!
