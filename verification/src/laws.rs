//! Laws of the parser, proved once of every zone text.

use vstd::prelude::*;

verus! {

use crate::parser::SpecLine;
use crate::parser::spec_apply;
use crate::parser::spec_line_events;
use crate::parser::spec_parse;
use crate::parser::spec_process;
use crate::parser::spec_subst;
use crate::parser::spec_zone_vars;
use crate::record::ends_dot;
use crate::record::lemma_qualify_idempotent;
use crate::record::spec_qualify;
use crate::strutil::parses_u32;
use crate::zone::SpecZone;
use crate::zone::zone_names_qualified;
use crate::zone::zone_priority_ok;

proof fn lemma_process_priority(z: SpecZone, ev: SpecLine, vars: Map<Seq<char>, Seq<char>>)
    requires
        zone_priority_ok(z),
        spec_process(z, ev, vars) is Ok,
    ensures
        zone_priority_ok(spec_process(z, ev, vars)->Ok_0),
{
}

proof fn lemma_apply_priority(evs: Seq<SpecLine>, vars: Map<Seq<char>, Seq<char>>, z: SpecZone)
    requires
        zone_priority_ok(z),
        spec_apply(evs, vars, z) is Ok,
    ensures
        zone_priority_ok(spec_apply(evs, vars, z)->Ok_0),
    decreases evs.len(),
{
    if evs.len() > 0 {
        lemma_process_priority(z, evs[0], vars);
        lemma_apply_priority(evs.drop_first(), vars, spec_process(z, evs[0], vars)->Ok_0);
    }
}

/// Whatever zone text parses, every record of the zone carries a priority
/// only where its kind ranks entries: mail-exchange records and SOA
/// sub-entries, never name-server, address, canonical-name or pointer
/// records.
pub proof fn lemma_parse_priority_invariant(text: Seq<char>)
    requires
        spec_parse(text) is Ok,
    ensures
        zone_priority_ok(spec_parse(text)->Ok_0),
{
    assert(zone_priority_ok(SpecZone::empty()));
    lemma_apply_priority(spec_line_events(text), spec_zone_vars(text), SpecZone::empty());
}

proof fn lemma_process_names(z: SpecZone, ev: SpecLine, vars: Map<Seq<char>, Seq<char>>)
    requires
        zone_names_qualified(z),
        spec_process(z, ev, vars) is Ok,
        !vars.contains_key("@"@) || ends_dot(vars["@"@]),
    ensures
        zone_names_qualified(spec_process(z, ev, vars)->Ok_0),
{
    match ev {
        SpecLine::Entry { name, .. } => {
            let n2 = spec_subst(name, vars);
            let n3 = spec_qualify(n2, vars["@"@]);
            if ends_dot(n2) {
                assert(n3 == n2);
            } else {
                assert(vars.contains_key("@"@));
                lemma_qualify_idempotent(n2, vars["@"@]);
                let q = n2 + seq!['.'] + vars["@"@];
                assert(q[q.len() - 1] == vars["@"@][vars["@"@].len() - 1]);
                assert(ends_dot(n3));
            }
            assert(ends_dot(n3));
        },
        _ => {},
    }
}

proof fn lemma_apply_names(evs: Seq<SpecLine>, vars: Map<Seq<char>, Seq<char>>, z: SpecZone)
    requires
        zone_names_qualified(z),
        spec_apply(evs, vars, z) is Ok,
        !vars.contains_key("@"@) || ends_dot(vars["@"@]),
    ensures
        zone_names_qualified(spec_apply(evs, vars, z)->Ok_0),
    decreases evs.len(),
{
    if evs.len() > 0 {
        lemma_process_names(z, evs[0], vars);
        lemma_apply_names(evs.drop_first(), vars, spec_process(z, evs[0], vars)->Ok_0);
    }
}

/// Whatever zone text parses, as long as its `@` variable, if declared, is
/// itself fully qualified, every record placed in a collection has a fully
/// qualified name: it ends with `'.'`, either because the line wrote it so
/// or because qualification appended the origin.
pub proof fn lemma_parse_names_qualified(text: Seq<char>)
    requires
        spec_parse(text) is Ok,
        !spec_zone_vars(text).contains_key("@"@) || ends_dot(spec_zone_vars(text)["@"@]),
    ensures
        zone_names_qualified(spec_parse(text)->Ok_0),
{
    assert(zone_names_qualified(SpecZone::empty()));
    lemma_apply_names(spec_line_events(text), spec_zone_vars(text), SpecZone::empty());
}

/// The line is an SOA or record line whose TTL field, after substitution,
/// is not a numeral that fits 32 bits.
pub open spec fn event_bad_ttl(ev: SpecLine, vars: Map<Seq<char>, Seq<char>>) -> bool {
    match ev {
        SpecLine::Soa { ttl, .. } => !parses_u32(spec_subst(ttl, vars)),
        SpecLine::Entry { ttl, .. } => !parses_u32(spec_subst(ttl, vars)),
        _ => false,
    }
}

proof fn lemma_apply_bad_ttl(
    evs: Seq<SpecLine>,
    vars: Map<Seq<char>, Seq<char>>,
    z: SpecZone,
    i: int,
)
    requires
        0 <= i < evs.len(),
        event_bad_ttl(evs[i], vars),
    ensures
        spec_apply(evs, vars, z) is Err,
    decreases i,
{
    if i == 0 {
        assert(spec_process(z, evs[0], vars) is Err);
    } else {
        match spec_process(z, evs[0], vars) {
            Ok(z2) => {
                assert(evs.drop_first()[i - 1] == evs[i]);
                lemma_apply_bad_ttl(evs.drop_first(), vars, z2, i - 1);
            },
            Err(_) => {},
        }
    }
}

/// A matched line whose TTL is not numeric after substitution makes the
/// whole parse fail: no partial zone ever comes back. Conversely, every
/// record a successful parse produces got its TTL from a numeral that fits
/// an unsigned 32-bit integer, which the record's `u32` field then holds.
pub proof fn lemma_bad_ttl_rejected(text: Seq<char>, i: int)
    requires
        0 <= i < spec_line_events(text).len(),
        event_bad_ttl(spec_line_events(text)[i], spec_zone_vars(text)),
    ensures
        spec_parse(text) is Err,
{
    lemma_apply_bad_ttl(spec_line_events(text), spec_zone_vars(text), SpecZone::empty(), i);
}

} // verus!
