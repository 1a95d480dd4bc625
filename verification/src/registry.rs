//! The shared registry mapping each domain name to its installed zone.
//! A successful transfer installs a brand-new `ZoneStore` that atomically
//! replaces the previous one for that domain; a failed transfer installs
//! nothing, so every other domain's entry, and the failing domain's last
//! good entry, stay exactly as they were. Callers that share a registry
//! between workers put it behind their own exclusive lock, held only
//! across a single insert.

use vstd::prelude::*;

verus! {

use crate::strmap::StrMap;
use crate::zone::SpecZone;
use crate::zone::ZoneStore;

/// The domain-name-to-zone mapping.
pub struct DomainRegistry {
    map: StrMap<ZoneStore>,
}

impl View for DomainRegistry {
    type V = Map<Seq<char>, SpecZone>;

    closed spec fn view(&self) -> Map<Seq<char>, SpecZone> {
        self.map@
    }
}

impl DomainRegistry {
    /// Internal shape every constructed registry keeps.
    pub closed spec fn wf(&self) -> bool {
        self.map.wf()
    }

    pub fn new() -> (r: Self)
        ensures
            r.wf(),
            r@ == Map::<Seq<char>, SpecZone>::empty(),
    {
        DomainRegistry { map: StrMap::new() }
    }

    /// The installed zone for `domain`, when one is installed.
    pub fn get(&self, domain: &String) -> (r: Option<&ZoneStore>)
        requires
            self.wf(),
        ensures
            r is Some <==> self@.contains_key(domain@),
            r is Some ==> r->0@ == self@[domain@],
    {
        self.map.get(domain)
    }

    /// Install `store` under `domain`, replacing any existing entry and
    /// touching no other domain's entry.
    pub fn put(&mut self, domain: String, store: ZoneStore)
        requires
            old(self).wf(),
        ensures
            final(self).wf(),
            final(self)@ == old(self)@.insert(domain@, store@),
    {
        self.map.insert(domain, store);
    }

    /// How many domains have an installed zone.
    pub fn len(&self) -> (r: usize)
        requires
            self.wf(),
        ensures
            r == self@.dom().len(),
    {
        self.map.len()
    }
}

/// Installing one domain's zone is isolated: every other domain's entry,
/// present or absent, reads exactly as before the install.
pub proof fn lemma_install_isolated(
    m: Map<Seq<char>, SpecZone>,
    domain: Seq<char>,
    z: SpecZone,
    other: Seq<char>,
)
    requires
        other != domain,
    ensures
        m.insert(domain, z).contains_key(other) == m.contains_key(other),
        m.contains_key(other) ==> m.insert(domain, z)[other] == m[other],
        m.insert(domain, z).contains_key(domain),
        m.insert(domain, z)[domain] == z,
{
}

} // verus!
