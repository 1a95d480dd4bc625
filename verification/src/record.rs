//! One zone entry and its abstract view, and the qualification of relative
//! owner names against the zone origin.

use vstd::prelude::*;

verus! {

use vstd::string::StrSliceExecFns;
use vstd::string::StringExecFns;

/// The kind of a zone entry. An SOA sub-entry carries its sub-tag, such as
/// `SOAADMIN` or `SOAEXPIRE`.
#[derive(Debug, Clone, PartialEq, Eq)]
pub enum RecordKind {
    Ns,
    A,
    Cname,
    Mx,
    Ptr,
    Soa(String),
}

/// Abstract view of a `RecordKind`.
pub ghost enum SpecKind {
    Ns,
    A,
    Cname,
    Mx,
    Ptr,
    Soa(Seq<char>),
}

impl View for RecordKind {
    type V = SpecKind;

    open spec fn view(&self) -> SpecKind {
        match self {
            RecordKind::Ns => SpecKind::Ns,
            RecordKind::A => SpecKind::A,
            RecordKind::Cname => SpecKind::Cname,
            RecordKind::Mx => SpecKind::Mx,
            RecordKind::Ptr => SpecKind::Ptr,
            RecordKind::Soa(tag) => SpecKind::Soa(tag@),
        }
    }
}

/// A kind that carries a numeric ranking, and so may hold a priority.
pub open spec fn kind_ranked(k: SpecKind) -> bool {
    k is Mx || k is Soa
}

/// One zone entry: owner name, kind, value, time-to-live, and a priority for
/// the kinds that rank their entries.
#[derive(Debug, Clone, PartialEq, Eq)]
pub struct Record {
    pub name: String,
    pub kind: RecordKind,
    pub value: String,
    pub ttl: u32,
    pub priority: Option<u16>,
}

/// Abstract view of a `Record`.
#[verifier::ext_equal]
pub ghost struct SpecRecord {
    pub name: Seq<char>,
    pub kind: SpecKind,
    pub value: Seq<char>,
    pub ttl: u32,
    pub priority: Option<u16>,
}

impl View for Record {
    type V = SpecRecord;

    open spec fn view(&self) -> SpecRecord {
        SpecRecord {
            name: self.name@,
            kind: self.kind@,
            value: self.value@,
            ttl: self.ttl,
            priority: self.priority,
        }
    }
}

/// A record keeps a priority only where its kind ranks entries.
pub open spec fn priority_ok(r: SpecRecord) -> bool {
    r.priority is Some ==> kind_ranked(r.kind)
}

/// The name is fully qualified: it ends with `'.'`.
pub open spec fn ends_dot(n: Seq<char>) -> bool {
    n.len() > 0 && n[n.len() - 1] == '.'
}

/// A relative name completed against the zone origin; a fully qualified name
/// is left as it stands.
pub open spec fn spec_qualify(n: Seq<char>, origin: Seq<char>) -> Seq<char> {
    if ends_dot(n) {
        n
    } else {
        n + seq!['.'] + origin
    }
}

/// Qualification is idempotent: a name that is already fully qualified is
/// returned unchanged, and when the origin itself is fully qualified,
/// qualifying a second time changes nothing.
pub proof fn lemma_qualify_idempotent(n: Seq<char>, origin: Seq<char>)
    ensures
        ends_dot(n) ==> spec_qualify(n, origin) == n,
        ends_dot(origin) ==> spec_qualify(spec_qualify(n, origin), origin) == spec_qualify(
            n,
            origin,
        ),
{
    if !ends_dot(n) && ends_dot(origin) {
        let q = n + seq!['.'] + origin;
        assert(q[q.len() - 1] == origin[origin.len() - 1]);
        assert(ends_dot(q));
    }
}

/// Qualify `name` against `origin` as `spec_qualify` describes.
pub fn qualify(name: String, origin: &String) -> (r: String)
    ensures
        r@ == spec_qualify(name@, origin@),
{
    let n: usize = name.as_str().unicode_len();
    if n > 0 && name.as_str().get_char(n - 1) == '.' {
        return name;
    }
    proof {
        reveal_strlit(".");
        assert("."@ =~= seq!['.']);
    }
    let r = name.concat(".").concat(origin.as_str());
    proof {
        assert(r@ =~= name@ + seq!['.'] + origin@);
    }
    r
}

/// Whether `name` is already fully qualified.
pub fn is_qualified(name: &String) -> (r: bool)
    ensures
        r == ends_dot(name@),
{
    let n: usize = name.as_str().unicode_len();
    n > 0 && name.as_str().get_char(n - 1) == '.'
}

} // verus!
