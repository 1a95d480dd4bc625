//! One domain's zone: the SOA-derived configuration entries and the typed
//! record collections, built once per successful parse.

use vstd::prelude::*;

verus! {

use crate::record::Record;
use crate::record::SpecRecord;
use crate::record::ends_dot;
use crate::record::priority_ok;
use crate::strmap::StrMap;

/// Abstract view of a `ZoneStore`.
#[verifier::ext_equal]
pub ghost struct SpecZone {
    pub config: Map<Seq<char>, SpecRecord>,
    pub ns: Option<Seq<(Seq<char>, SpecRecord)>>,
    pub a: Option<Seq<SpecRecord>>,
    pub cname: Option<Seq<SpecRecord>>,
    pub mx: Option<Seq<SpecRecord>>,
    pub ptr: Option<Seq<SpecRecord>>,
}

impl SpecZone {
    /// The zone with nothing in it yet.
    pub open spec fn empty() -> SpecZone {
        SpecZone {
            config: Map::empty(),
            ns: None,
            a: None,
            cname: None,
            mx: None,
            ptr: None,
        }
    }
}

/// Appending to an optional ordered collection: the first entry creates it.
pub open spec fn push_opt<T>(o: Option<Seq<T>>, x: T) -> Option<Seq<T>> {
    match o {
        None => Some(seq![x]),
        Some(s) => Some(s.push(x)),
    }
}

/// Every entry of an optional collection satisfies `priority_ok`.
pub open spec fn recs_priority_ok(o: Option<Seq<SpecRecord>>) -> bool {
    o matches Some(s) ==> forall|i: int| 0 <= i < s.len() ==> priority_ok(#[trigger] s[i])
}

/// A zone's records, collections and configuration alike, carry a priority
/// only on ranked kinds.
pub open spec fn zone_priority_ok(z: SpecZone) -> bool {
    &&& forall|t: Seq<char>| z.config.contains_key(t) ==> priority_ok(#[trigger] z.config[t])
    &&& z.ns matches Some(s) ==> forall|i: int| 0 <= i < s.len() ==> priority_ok(
        (#[trigger] s[i]).1,
    )
    &&& recs_priority_ok(z.a)
    &&& recs_priority_ok(z.cname)
    &&& recs_priority_ok(z.mx)
    &&& recs_priority_ok(z.ptr)
}

/// Every entry of an optional collection has a fully qualified name.
pub open spec fn recs_qualified(o: Option<Seq<SpecRecord>>) -> bool {
    o matches Some(s) ==> forall|i: int| 0 <= i < s.len() ==> ends_dot((#[trigger] s[i]).name)
}

/// Every record-collection entry of the zone (the SOA configuration aside,
/// which qualification does not touch) has a fully qualified name.
pub open spec fn zone_names_qualified(z: SpecZone) -> bool {
    &&& z.ns matches Some(s) ==> forall|i: int| 0 <= i < s.len() ==> ends_dot(
        (#[trigger] s[i]).1.name,
    )
    &&& recs_qualified(z.a)
    &&& recs_qualified(z.cname)
    &&& recs_qualified(z.mx)
    &&& recs_qualified(z.ptr)
}

/// One domain's zone data. Built by the parser; installed into the registry
/// as one value, never mutated in place afterwards.
pub struct ZoneStore {
    /// SOA sub-entries keyed by their sub-tag.
    pub config: StrMap<Record>,
    /// Name-server records, each keyed by its owner name, in source order.
    pub ns: Option<Vec<(String, Record)>>,
    /// Address records in source order.
    pub a: Option<Vec<Record>>,
    /// Canonical-name records in source order.
    pub cname: Option<Vec<Record>>,
    /// Mail-exchange records in source order.
    pub mx: Option<Vec<Record>>,
    /// Pointer records in source order.
    pub ptr: Option<Vec<Record>>,
}

/// The view of an optional record collection.
pub open spec fn recs_view(o: Option<Vec<Record>>) -> Option<Seq<SpecRecord>> {
    match o {
        None => None,
        Some(v) => Some(v@.map_values(|r: Record| r@)),
    }
}

/// The view of the optional keyed name-server collection.
pub open spec fn ns_view(o: Option<Vec<(String, Record)>>) -> Option<
    Seq<(Seq<char>, SpecRecord)>,
> {
    match o {
        None => None,
        Some(v) => Some(v@.map_values(|p: (String, Record)| (p.0@, p.1@))),
    }
}

impl View for ZoneStore {
    type V = SpecZone;

    open spec fn view(&self) -> SpecZone {
        SpecZone {
            config: self.config@,
            ns: ns_view(self.ns),
            a: recs_view(self.a),
            cname: recs_view(self.cname),
            mx: recs_view(self.mx),
            ptr: recs_view(self.ptr),
        }
    }
}

impl ZoneStore {
    /// Internal shape every constructed `ZoneStore` keeps.
    pub open spec fn wf(&self) -> bool {
        self.config.wf()
    }

    pub fn new() -> (r: Self)
        ensures
            r.wf(),
            r@ == SpecZone::empty(),
    {
        let r = ZoneStore {
            config: StrMap::new(),
            ns: None,
            a: None,
            cname: None,
            mx: None,
            ptr: None,
        };
        proof {
            assert(r@ =~= SpecZone::empty());
        }
        r
    }

    /// Insert an SOA sub-entry under its sub-tag, overwriting an earlier
    /// entry with the same tag.
    pub fn add_config(&mut self, tag: String, rec: Record)
        requires
            old(self).wf(),
        ensures
            final(self).wf(),
            final(self)@ =~= (SpecZone { config: old(self)@.config.insert(tag@, rec@), ..old(self)@ }),
    {
        self.config.insert(tag, rec);
    }

    /// Append a name-server record keyed by its owner name.
    pub fn add_ns_record(&mut self, name: String, rec: Record)
        requires
            old(self).wf(),
        ensures
            final(self).wf(),
            final(self)@ =~= (SpecZone {
                ns: push_opt(old(self)@.ns, (name@, rec@)),
                ..old(self)@
            }),
    {
        let ghost oldns = self.ns;
        match &mut self.ns {
            None => {
                self.ns = Some(vec![(name, rec)]);
            },
            Some(v) => {
                let ghost oldv = v@;
                v.push((name, rec));
                proof {
                    oldv.lemma_push_map_commute(
                        |p: (String, Record)| (p.0@, p.1@),
                        (name, rec),
                    );
                }
            },
        }
        proof {
            if oldns is None {
                assert(ns_view(self.ns)->0 =~= seq![(name@, rec@)]);
            }
        }
    }

    /// Append an address record.
    pub fn add_a_record(&mut self, rec: Record)
        requires
            old(self).wf(),
        ensures
            final(self).wf(),
            final(self)@ =~= (SpecZone { a: push_opt(old(self)@.a, rec@), ..old(self)@ }),
    {
        let ghost oldo = self.a;
        match &mut self.a {
            None => {
                self.a = Some(vec![rec]);
            },
            Some(v) => {
                let ghost oldv = v@;
                v.push(rec);
                proof {
                    oldv.lemma_push_map_commute(|r: Record| r@, rec);
                }
            },
        }
        proof {
            if oldo is None {
                assert(recs_view(self.a)->0 =~= seq![rec@]);
            }
        }
    }

    /// Append a canonical-name record.
    pub fn add_cname_record(&mut self, rec: Record)
        requires
            old(self).wf(),
        ensures
            final(self).wf(),
            final(self)@ =~= (SpecZone { cname: push_opt(old(self)@.cname, rec@), ..old(self)@ }),
    {
        let ghost oldo = self.cname;
        match &mut self.cname {
            None => {
                self.cname = Some(vec![rec]);
            },
            Some(v) => {
                let ghost oldv = v@;
                v.push(rec);
                proof {
                    oldv.lemma_push_map_commute(|r: Record| r@, rec);
                }
            },
        }
        proof {
            if oldo is None {
                assert(recs_view(self.cname)->0 =~= seq![rec@]);
            }
        }
    }

    /// Append a mail-exchange record.
    pub fn add_mx_record(&mut self, rec: Record)
        requires
            old(self).wf(),
        ensures
            final(self).wf(),
            final(self)@ =~= (SpecZone { mx: push_opt(old(self)@.mx, rec@), ..old(self)@ }),
    {
        let ghost oldo = self.mx;
        match &mut self.mx {
            None => {
                self.mx = Some(vec![rec]);
            },
            Some(v) => {
                let ghost oldv = v@;
                v.push(rec);
                proof {
                    oldv.lemma_push_map_commute(|r: Record| r@, rec);
                }
            },
        }
        proof {
            if oldo is None {
                assert(recs_view(self.mx)->0 =~= seq![rec@]);
            }
        }
    }

    /// Append a pointer record.
    pub fn add_ptr_record(&mut self, rec: Record)
        requires
            old(self).wf(),
        ensures
            final(self).wf(),
            final(self)@ =~= (SpecZone { ptr: push_opt(old(self)@.ptr, rec@), ..old(self)@ }),
    {
        let ghost oldo = self.ptr;
        match &mut self.ptr {
            None => {
                self.ptr = Some(vec![rec]);
            },
            Some(v) => {
                let ghost oldv = v@;
                v.push(rec);
                proof {
                    oldv.lemma_push_map_commute(|r: Record| r@, rec);
                }
            },
        }
        proof {
            if oldo is None {
                assert(recs_view(self.ptr)->0 =~= seq![rec@]);
            }
        }
    }

    /// How many SOA sub-tags the configuration holds.
    pub fn config_len(&self) -> (r: usize)
        requires
            self.wf(),
        ensures
            r == self@.config.dom().len(),
    {
        self.config.len()
    }

    /// The SOA sub-entry under `tag`, when the configuration has that tag.
    pub fn config_get(&self, tag: &String) -> (r: Option<&Record>)
        requires
            self.wf(),
        ensures
            r is Some <==> self@.config.contains_key(tag@),
            r is Some ==> r->0@ == self@.config[tag@],
    {
        self.config.get(tag)
    }
}

} // verus!
