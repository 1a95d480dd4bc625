//! The zone-file text parser: line classification, variable substitution,
//! name qualification, and the two-pass build of a `ZoneStore`.
//!
//! The grammar is line-oriented. A line is split into space-separated fields
//! and recognized exactly when it has one of three shapes:
//! a default declaration `NAME DEFAULT VALUE`, an SOA line
//! `NAME SOA<SUBTAG> VALUE TTL [PRIORITY]`, or a record line
//! `NAME (NS|A|CNAME|MX|PTR) VALUE TTL [PRIORITY]`. Any other line is
//! comment or noise and is skipped. Substitution is token-aware: inside the
//! NAME and TTL fields, a whole dot-bounded label equal to a declared
//! variable's name is replaced by its value; unrelated text that merely
//! contains a variable's name as a substring is left alone.

use vstd::prelude::*;

verus! {

use crate::record::Record;
use crate::record::RecordKind;
use crate::record::SpecKind;
use crate::record::SpecRecord;
use crate::record::ends_dot;
use crate::record::is_qualified;
use crate::record::qualify;
use crate::record::spec_qualify;
use crate::strmap::StrMap;
use crate::strutil::digits_val;
use crate::strutil::join_dot;
use crate::strutil::parse_u16;
use crate::strutil::parse_u32;
use crate::strutil::parses_u16;
use crate::strutil::parses_u32;
use crate::strutil::spec_join;
use crate::strutil::spec_split;
use crate::strutil::split_char;
use crate::strutil::str_eq;
use crate::strutil::views_of;
use crate::zone::SpecZone;
use crate::zone::ZoneStore;
use crate::zone::push_opt;
use vstd::string::StrSliceExecFns;
use vstd::string::StringExecFns;

/// Why zone text was rejected.
#[derive(Debug, Clone, Copy, PartialEq, Eq, Structural)]
pub enum ParseError {
    /// A TTL or priority field was not a numeral in range after
    /// substitution.
    NumericField,
    /// A record line needed qualification and no `@` variable is declared.
    MissingOrigin,
}

/// A character allowed in the NAME field: `@`, letters, digits, `.`, `-`.
pub open spec fn is_name_char(c: char) -> bool {
    c == '@' || ('A' <= c && c <= 'Z') || ('a' <= c && c <= 'z') || ('0' <= c && c <= '9') || c
        == '.' || c == '-'
}

/// A character allowed in the VALUE field: letters, digits, `.`, `-`, `\`.
pub open spec fn is_value_char(c: char) -> bool {
    ('A' <= c && c <= 'Z') || ('a' <= c && c <= 'z') || ('0' <= c && c <= '9') || c == '.' || c
        == '-' || c == '\\'
}

/// A character allowed in the TTL and PRIORITY fields: capitals and digits.
pub open spec fn is_num_field_char(c: char) -> bool {
    ('A' <= c && c <= 'Z') || ('0' <= c && c <= '9')
}

pub open spec fn is_name_seq(s: Seq<char>) -> bool {
    s.len() > 0 && forall|i: int| 0 <= i < s.len() ==> is_name_char(#[trigger] s[i])
}

pub open spec fn is_value_seq(s: Seq<char>) -> bool {
    s.len() > 0 && forall|i: int| 0 <= i < s.len() ==> is_value_char(#[trigger] s[i])
}

pub open spec fn is_num_field_seq(s: Seq<char>) -> bool {
    s.len() > 0 && forall|i: int| 0 <= i < s.len() ==> is_num_field_char(#[trigger] s[i])
}

/// An SOA sub-tag: the letters `SOA` followed by at least one capital.
pub open spec fn is_soa_tag_seq(s: Seq<char>) -> bool {
    s.len() >= 4 && s[0] == 'S' && s[1] == 'O' && s[2] == 'A' && forall|i: int|
        3 <= i < s.len() ==> 'A' <= #[trigger] s[i] && s[i] <= 'Z'
}

/// The record kind a type field names, when it names one.
pub open spec fn spec_kind_of(t: Seq<char>) -> Option<SpecKind> {
    if t == "NS"@ {
        Some(SpecKind::Ns)
    } else if t == "A"@ {
        Some(SpecKind::A)
    } else if t == "CNAME"@ {
        Some(SpecKind::Cname)
    } else if t == "MX"@ {
        Some(SpecKind::Mx)
    } else if t == "PTR"@ {
        Some(SpecKind::Ptr)
    } else {
        None
    }
}

/// What one line of zone text says.
pub ghost enum SpecLine {
    Default { name: Seq<char>, value: Seq<char> },
    Soa { name: Seq<char>, tag: Seq<char>, value: Seq<char>, ttl: Seq<char>, prio: Option<Seq<char>> },
    Entry { name: Seq<char>, kind: SpecKind, value: Seq<char>, ttl: Seq<char>, prio: Option<Seq<char>> },
    Noise,
}

/// Classify one line by its space-separated fields.
pub open spec fn spec_classify(line: Seq<char>) -> SpecLine {
    let toks = spec_split(line, ' ');
    if toks.len() == 3 && is_name_seq(toks[0]) && toks[1] == "DEFAULT"@ && is_value_seq(toks[2]) {
        SpecLine::Default { name: toks[0], value: toks[2] }
    } else if (toks.len() == 4 || toks.len() == 5) && is_name_seq(toks[0]) && is_value_seq(toks[2])
        && is_num_field_seq(toks[3]) && (toks.len() == 4 || is_num_field_seq(toks[4])) {
        let prio = if toks.len() == 5 {
            Some(toks[4])
        } else {
            None
        };
        if is_soa_tag_seq(toks[1]) {
            SpecLine::Soa { name: toks[0], tag: toks[1], value: toks[2], ttl: toks[3], prio }
        } else if spec_kind_of(toks[1]) is Some {
            SpecLine::Entry {
                name: toks[0],
                kind: spec_kind_of(toks[1])->0,
                value: toks[2],
                ttl: toks[3],
                prio,
            }
        } else {
            SpecLine::Noise
        }
    } else {
        SpecLine::Noise
    }
}

/// A classified line, as the first pass hands it to the second.
pub enum LineEvent {
    Default { name: String, value: String },
    Soa { name: String, tag: String, value: String, ttl: String, prio: Option<String> },
    Entry { name: String, kind: RecordKind, value: String, ttl: String, prio: Option<String> },
    Noise,
}

pub open spec fn opt_view(o: Option<String>) -> Option<Seq<char>> {
    match o {
        None => None,
        Some(s) => Some(s@),
    }
}

impl View for LineEvent {
    type V = SpecLine;

    open spec fn view(&self) -> SpecLine {
        match self {
            LineEvent::Default { name, value } => SpecLine::Default {
                name: name@,
                value: value@,
            },
            LineEvent::Soa { name, tag, value, ttl, prio } => SpecLine::Soa {
                name: name@,
                tag: tag@,
                value: value@,
                ttl: ttl@,
                prio: opt_view(*prio),
            },
            LineEvent::Entry { name, kind, value, ttl, prio } => SpecLine::Entry {
                name: name@,
                kind: kind@,
                value: value@,
                ttl: ttl@,
                prio: opt_view(*prio),
            },
            LineEvent::Noise => SpecLine::Noise,
        }
    }
}

fn check_name_field(s: &String) -> (r: bool)
    ensures
        r == is_name_seq(s@),
{
    let n: usize = s.as_str().unicode_len();
    if n == 0 {
        return false;
    }
    let mut i: usize = 0;
    while i < n
        invariant
            0 <= i <= n,
            n == s@.len(),
            forall|j: int| 0 <= j < i ==> is_name_char(#[trigger] s@[j]),
        decreases n - i,
    {
        let c = s.as_str().get_char(i);
        if !(c == '@' || (c >= 'A' && c <= 'Z') || (c >= 'a' && c <= 'z') || (c >= '0' && c <= '9')
            || c == '.' || c == '-') {
            return false;
        }
        i = i + 1;
    }
    true
}

fn check_value_field(s: &String) -> (r: bool)
    ensures
        r == is_value_seq(s@),
{
    let n: usize = s.as_str().unicode_len();
    if n == 0 {
        return false;
    }
    let mut i: usize = 0;
    while i < n
        invariant
            0 <= i <= n,
            n == s@.len(),
            forall|j: int| 0 <= j < i ==> is_value_char(#[trigger] s@[j]),
        decreases n - i,
    {
        let c = s.as_str().get_char(i);
        if !((c >= 'A' && c <= 'Z') || (c >= 'a' && c <= 'z') || (c >= '0' && c <= '9') || c == '.'
            || c == '-' || c == '\\') {
            return false;
        }
        i = i + 1;
    }
    true
}

fn check_num_field(s: &String) -> (r: bool)
    ensures
        r == is_num_field_seq(s@),
{
    let n: usize = s.as_str().unicode_len();
    if n == 0 {
        return false;
    }
    let mut i: usize = 0;
    while i < n
        invariant
            0 <= i <= n,
            n == s@.len(),
            forall|j: int| 0 <= j < i ==> is_num_field_char(#[trigger] s@[j]),
        decreases n - i,
    {
        let c = s.as_str().get_char(i);
        if !((c >= 'A' && c <= 'Z') || (c >= '0' && c <= '9')) {
            return false;
        }
        i = i + 1;
    }
    true
}

fn check_soa_tag(s: &String) -> (r: bool)
    ensures
        r == is_soa_tag_seq(s@),
{
    let n: usize = s.as_str().unicode_len();
    if n < 4 {
        return false;
    }
    if !(s.as_str().get_char(0) == 'S' && s.as_str().get_char(1) == 'O' && s.as_str().get_char(2)
        == 'A') {
        return false;
    }
    let mut i: usize = 3;
    while i < n
        invariant
            3 <= i <= n,
            n == s@.len(),
            forall|j: int| 3 <= j < i ==> 'A' <= #[trigger] s@[j] && s@[j] <= 'Z',
        decreases n - i,
    {
        let c = s.as_str().get_char(i);
        if !(c >= 'A' && c <= 'Z') {
            return false;
        }
        i = i + 1;
    }
    true
}

fn kind_of(t: &String) -> (r: Option<RecordKind>)
    ensures
        r is Some <==> spec_kind_of(t@) is Some,
        r is Some ==> r->0@ == spec_kind_of(t@)->0,
{
    if str_eq(t.as_str(), "NS") {
        Some(RecordKind::Ns)
    } else if str_eq(t.as_str(), "A") {
        Some(RecordKind::A)
    } else if str_eq(t.as_str(), "CNAME") {
        Some(RecordKind::Cname)
    } else if str_eq(t.as_str(), "MX") {
        Some(RecordKind::Mx)
    } else if str_eq(t.as_str(), "PTR") {
        Some(RecordKind::Ptr)
    } else {
        None
    }
}

/// Classify one line of zone text.
pub fn classify_line(line: &str) -> (ev: LineEvent)
    ensures
        ev@ == spec_classify(line@),
{
    let toks = split_char(line, ' ');
    let ghost tv = spec_split(line@, ' ');
    proof {
        assert(views_of(toks@) == tv);
        assert(forall|j: int| 0 <= j < toks@.len() ==> (#[trigger] toks@[j])@ == tv[j]);
    }
    if toks.len() == 3 {
        if check_name_field(&toks[0]) && str_eq(toks[1].as_str(), "DEFAULT") && check_value_field(
            &toks[2],
        ) {
            return LineEvent::Default { name: toks[0].clone(), value: toks[2].clone() };
        }
        return LineEvent::Noise;
    }
    if toks.len() == 4 || toks.len() == 5 {
        if !check_name_field(&toks[0]) {
            return LineEvent::Noise;
        }
        if !check_value_field(&toks[2]) {
            return LineEvent::Noise;
        }
        if !check_num_field(&toks[3]) {
            return LineEvent::Noise;
        }
        if toks.len() == 5 && !check_num_field(&toks[4]) {
            return LineEvent::Noise;
        }
        let prio: Option<String> = if toks.len() == 5 {
            Some(toks[4].clone())
        } else {
            None
        };
        if check_soa_tag(&toks[1]) {
            return LineEvent::Soa {
                name: toks[0].clone(),
                tag: toks[1].clone(),
                value: toks[2].clone(),
                ttl: toks[3].clone(),
                prio,
            };
        }
        match kind_of(&toks[1]) {
            Some(k) => {
                return LineEvent::Entry {
                    name: toks[0].clone(),
                    kind: k,
                    value: toks[2].clone(),
                    ttl: toks[3].clone(),
                    prio,
                };
            },
            None => {
                return LineEvent::Noise;
            },
        }
    }
    LineEvent::Noise
}

/// The variable table the default declarations of `evs` build up on `m`;
/// a later declaration of a name wins.
pub open spec fn spec_vars_from(evs: Seq<SpecLine>, m: Map<Seq<char>, Seq<char>>) -> Map<
    Seq<char>,
    Seq<char>,
>
    decreases evs.len(),
{
    if evs.len() == 0 {
        m
    } else {
        let m2 = match evs[0] {
            SpecLine::Default { name, value } => m.insert(name, value),
            _ => m,
        };
        spec_vars_from(evs.drop_first(), m2)
    }
}

/// A token replaced by its declared value, when it names a variable.
pub open spec fn subst_token(t: Seq<char>, vars: Map<Seq<char>, Seq<char>>) -> Seq<char> {
    if vars.contains_key(t) {
        vars[t]
    } else {
        t
    }
}

/// Token-aware substitution: each dot-bounded label of the field that names
/// a variable is replaced by the variable's value.
pub open spec fn spec_subst(f: Seq<char>, vars: Map<Seq<char>, Seq<char>>) -> Seq<char> {
    spec_join(spec_split(f, '.').map_values(|t: Seq<char>| subst_token(t, vars)), '.')
}

/// Apply `spec_subst` to a field.
pub fn subst_field(field: &String, vars: &StrMap<String>) -> (r: String)
    requires
        vars.wf(),
    ensures
        r@ == spec_subst(field@, vars@),
{
    let parts = split_char(field.as_str(), '.');
    let ghost sp = spec_split(field@, '.').map_values(|t: Seq<char>| subst_token(t, vars@));
    let mut out: Vec<String> = Vec::new();
    let mut i: usize = 0;
    proof {
        assert(views_of(out@) =~= sp.take(0));
    }
    while i < parts.len()
        invariant
            0 <= i <= parts@.len(),
            vars.wf(),
            views_of(parts@) == spec_split(field@, '.'),
            sp == spec_split(field@, '.').map_values(|t: Seq<char>| subst_token(t, vars@)),
            views_of(out@) =~= sp.take(i as int),
        decreases parts@.len() - i,
    {
        let ghost pv = views_of(parts@);
        proof {
            assert(sp[i as int] == subst_token(pv[i as int], vars@));
            assert(pv[i as int] == parts@[i as int]@);
        }
        let replaced: String = match vars.get(&parts[i]) {
            Some(v) => v.clone(),
            None => parts[i].clone(),
        };
        proof {
            assert(replaced@ == sp[i as int]);
            assert(views_of(out@.push(replaced)) =~= views_of(out@).push(replaced@)) by {
                out@.lemma_push_map_commute(|p: String| p@, replaced);
            }
            assert(sp.take(i as int).push(sp[i as int]) =~= sp.take(i as int + 1));
        }
        out.push(replaced);
        i = i + 1;
    }
    proof {
        assert(sp.take(parts@.len() as int) =~= sp);
    }
    join_dot(&out)
}

/// What one classified line does to the zone being built, under the
/// variable table: the substituted TTL must be a `u32` numeral and a present
/// priority a `u16` numeral, a relative record name is qualified against the
/// `@` variable, an SOA entry overwrites its sub-tag's slot, and record
/// entries append to their kind's collection. A priority is kept only by
/// kinds that rank their entries.
pub open spec fn spec_process(z: SpecZone, ev: SpecLine, vars: Map<Seq<char>, Seq<char>>) -> Result<
    SpecZone,
    ParseError,
> {
    match ev {
        SpecLine::Noise => Ok(z),
        SpecLine::Default { .. } => Ok(z),
        SpecLine::Soa { name, tag, value, ttl, prio } => {
            let n2 = spec_subst(name, vars);
            let t2 = spec_subst(ttl, vars);
            if !parses_u32(t2) {
                Err(ParseError::NumericField)
            } else if match prio {
                Some(p) => !parses_u16(p),
                None => false,
            } {
                Err(ParseError::NumericField)
            } else {
                let pr = match prio {
                    Some(p) => Some(digits_val(p) as u16),
                    None => None,
                };
                let rec = SpecRecord {
                    name: n2,
                    kind: SpecKind::Soa(tag),
                    value: value,
                    ttl: digits_val(t2) as u32,
                    priority: pr,
                };
                Ok(SpecZone { config: z.config.insert(tag, rec), ..z })
            }
        },
        SpecLine::Entry { name, kind, value, ttl, prio } => {
            let n2 = spec_subst(name, vars);
            let t2 = spec_subst(ttl, vars);
            if !parses_u32(t2) {
                Err(ParseError::NumericField)
            } else if match prio {
                Some(p) => !parses_u16(p),
                None => false,
            } {
                Err(ParseError::NumericField)
            } else if !ends_dot(n2) && !vars.contains_key("@"@) {
                Err(ParseError::MissingOrigin)
            } else {
                let n3 = spec_qualify(n2, vars["@"@]);
                let pr = if kind is Mx {
                    match prio {
                        Some(p) => Some(digits_val(p) as u16),
                        None => None,
                    }
                } else {
                    None
                };
                let rec = SpecRecord {
                    name: n3,
                    kind: kind,
                    value: value,
                    ttl: digits_val(t2) as u32,
                    priority: pr,
                };
                match kind {
                    SpecKind::Ns => Ok(SpecZone { ns: push_opt(z.ns, (n3, rec)), ..z }),
                    SpecKind::A => Ok(SpecZone { a: push_opt(z.a, rec), ..z }),
                    SpecKind::Cname => Ok(SpecZone { cname: push_opt(z.cname, rec), ..z }),
                    SpecKind::Mx => Ok(SpecZone { mx: push_opt(z.mx, rec), ..z }),
                    SpecKind::Ptr => Ok(SpecZone { ptr: push_opt(z.ptr, rec), ..z }),
                    SpecKind::Soa(_) => Ok(z),
                }
            }
        },
    }
}

/// The zone the classified lines build on `z`, or the first error met.
pub open spec fn spec_apply(
    evs: Seq<SpecLine>,
    vars: Map<Seq<char>, Seq<char>>,
    z: SpecZone,
) -> Result<SpecZone, ParseError>
    decreases evs.len(),
{
    if evs.len() == 0 {
        Ok(z)
    } else {
        match spec_process(z, evs[0], vars) {
            Ok(z2) => spec_apply(evs.drop_first(), vars, z2),
            Err(e) => Err(e),
        }
    }
}

/// The classified lines of the text.
pub open spec fn spec_line_events(text: Seq<char>) -> Seq<SpecLine> {
    spec_split(text, '\n').map_values(|l: Seq<char>| spec_classify(l))
}

/// The variable table the text declares.
pub open spec fn spec_zone_vars(text: Seq<char>) -> Map<Seq<char>, Seq<char>> {
    spec_vars_from(spec_line_events(text), Map::empty())
}

/// The zone the text describes, or the first error met: the whole meaning
/// of a zone file.
pub open spec fn spec_parse(text: Seq<char>) -> Result<SpecZone, ParseError> {
    spec_apply(spec_line_events(text), spec_zone_vars(text), SpecZone::empty())
}

/// Process one classified line against the zone being built, exactly as
/// `spec_process` says; on an error the zone is left untouched.
fn apply_event(zone: &mut ZoneStore, ev: &LineEvent, vars: &StrMap<String>) -> (r: Result<
    (),
    ParseError,
>)
    requires
        old(zone).wf(),
        vars.wf(),
    ensures
        final(zone).wf(),
        (match spec_process(old(zone)@, ev@, vars@) {
            Ok(z2) => r is Ok && final(zone)@ == z2,
            Err(e) => r == Err::<(), ParseError>(e) && final(zone)@ == old(zone)@,
        }),
{
    match ev {
        LineEvent::Noise => Ok(()),
        LineEvent::Default { .. } => Ok(()),
        LineEvent::Soa { name, tag, value, ttl, prio } => {
            let n2 = subst_field(name, vars);
            let t2 = subst_field(ttl, vars);
            let ttl_v: u32 = match parse_u32(t2.as_str()) {
                None => {
                    return Err(ParseError::NumericField);
                },
                Some(v) => v,
            };
            let prio_v: Option<u16> = match prio {
                Some(p) => match parse_u16(p.as_str()) {
                    None => {
                        return Err(ParseError::NumericField);
                    },
                    Some(v) => Some(v),
                },
                None => None,
            };
            let rec = Record {
                name: n2,
                kind: RecordKind::Soa(tag.clone()),
                value: value.clone(),
                ttl: ttl_v,
                priority: prio_v,
            };
            let ghost z2 = spec_process(old(zone)@, ev@, vars@)->Ok_0;
            zone.add_config(tag.clone(), rec);
            proof {
                assert(zone@ =~= z2);
            }
            Ok(())
        },
        LineEvent::Entry { name, kind, value, ttl, prio } => {
            let n2 = subst_field(name, vars);
            let t2 = subst_field(ttl, vars);
            let ttl_v: u32 = match parse_u32(t2.as_str()) {
                None => {
                    return Err(ParseError::NumericField);
                },
                Some(v) => v,
            };
            let prio_parsed: Option<u16> = match prio {
                Some(p) => match parse_u16(p.as_str()) {
                    None => {
                        return Err(ParseError::NumericField);
                    },
                    Some(v) => Some(v),
                },
                None => None,
            };
            let n3: String = if is_qualified(&n2) {
                n2
            } else {
                let at = String::from_str("@");
                match vars.get(&at) {
                    None => {
                        return Err(ParseError::MissingOrigin);
                    },
                    Some(origin) => qualify(n2, origin),
                }
            };
            let ghost z2 = spec_process(old(zone)@, ev@, vars@)->Ok_0;
            match kind {
                RecordKind::Ns => {
                    let rec = Record {
                        name: n3.clone(),
                        kind: RecordKind::Ns,
                        value: value.clone(),
                        ttl: ttl_v,
                        priority: None,
                    };
                    zone.add_ns_record(n3, rec);
                    proof {
                        assert(zone@ =~= z2);
                    }
                    Ok(())
                },
                RecordKind::A => {
                    let rec = Record {
                        name: n3,
                        kind: RecordKind::A,
                        value: value.clone(),
                        ttl: ttl_v,
                        priority: None,
                    };
                    zone.add_a_record(rec);
                    proof {
                        assert(zone@ =~= z2);
                    }
                    Ok(())
                },
                RecordKind::Cname => {
                    let rec = Record {
                        name: n3,
                        kind: RecordKind::Cname,
                        value: value.clone(),
                        ttl: ttl_v,
                        priority: None,
                    };
                    zone.add_cname_record(rec);
                    proof {
                        assert(zone@ =~= z2);
                    }
                    Ok(())
                },
                RecordKind::Mx => {
                    let rec = Record {
                        name: n3,
                        kind: RecordKind::Mx,
                        value: value.clone(),
                        ttl: ttl_v,
                        priority: prio_parsed,
                    };
                    zone.add_mx_record(rec);
                    proof {
                        assert(zone@ =~= z2);
                    }
                    Ok(())
                },
                RecordKind::Ptr => {
                    let rec = Record {
                        name: n3,
                        kind: RecordKind::Ptr,
                        value: value.clone(),
                        ttl: ttl_v,
                        priority: None,
                    };
                    zone.add_ptr_record(rec);
                    proof {
                        assert(zone@ =~= z2);
                    }
                    Ok(())
                },
                RecordKind::Soa(_) => Ok(()),
            }
        },
    }
}

/// Parse raw zone-file text into a `ZoneStore`.
///
/// The result is exactly what `spec_parse` says of the text: the first pass
/// collects every default declaration, the second builds the zone from the
/// SOA and record lines in source order, stopping at the first bad numeric
/// field or unqualifiable name.
pub fn parse_from_str(read: String) -> (r: Result<ZoneStore, ParseError>)
    ensures
        (match spec_parse(read@) {
            Ok(z) => r is Ok && r->Ok_0@ == z && r->Ok_0.wf(),
            Err(e) => r == Err::<ZoneStore, ParseError>(e),
        }),
{
    let lines = split_char(read.as_str(), '\n');
    let ghost evs = spec_line_events(read@);
    proof {
        assert(views_of(lines@) == spec_split(read@, '\n'));
        assert(evs.len() == lines@.len());
    }
    let mut events: Vec<LineEvent> = Vec::new();
    let mut i: usize = 0;
    while i < lines.len()
        invariant
            0 <= i <= lines@.len(),
            evs.len() == lines@.len(),
            views_of(lines@) == spec_split(read@, '\n'),
            evs == spec_line_events(read@),
            events@.len() == i,
            forall|j: int| 0 <= j < i ==> (#[trigger] events@[j])@ == evs[j],
        decreases lines@.len() - i,
    {
        let ev = classify_line(lines[i].as_str());
        proof {
            assert(views_of(lines@)[i as int] == lines@[i as int]@);
            assert(evs[i as int] == spec_classify(lines@[i as int]@));
        }
        events.push(ev);
        i = i + 1;
    }
    let ghost vfinal = spec_zone_vars(read@);
    let mut vars: StrMap<String> = StrMap::new();
    let mut i2: usize = 0;
    proof {
        assert(evs.skip(0) =~= evs);
    }
    while i2 < events.len()
        invariant
            0 <= i2 <= events@.len(),
            events@.len() == evs.len(),
            forall|j: int| 0 <= j < evs.len() ==> (#[trigger] events@[j])@ == evs[j],
            vars.wf(),
            vfinal == spec_vars_from(evs, Map::empty()),
            vfinal == spec_vars_from(evs.skip(i2 as int), vars@),
        decreases events@.len() - i2,
    {
        let ghost rem = evs.skip(i2 as int);
        proof {
            assert(rem.len() > 0);
            assert(rem[0] == evs[i2 as int]);
            assert(rem.drop_first() =~= evs.skip(i2 as int + 1));
        }
        match &events[i2] {
            LineEvent::Default { name, value } => {
                vars.insert(name.clone(), value.clone());
            },
            _ => {},
        }
        i2 = i2 + 1;
    }
    proof {
        assert(evs.skip(events@.len() as int) =~= Seq::<SpecLine>::empty());
        assert(vars@ == vfinal);
    }
    let mut zone = ZoneStore::new();
    let mut i3: usize = 0;
    proof {
        assert(evs.skip(0) =~= evs);
    }
    while i3 < events.len()
        invariant
            0 <= i3 <= events@.len(),
            events@.len() == evs.len(),
            forall|j: int| 0 <= j < evs.len() ==> (#[trigger] events@[j])@ == evs[j],
            vars.wf(),
            zone.wf(),
            vars@ == vfinal,
            spec_parse(read@) == spec_apply(evs.skip(i3 as int), vfinal, zone@),
        decreases events@.len() - i3,
    {
        let ghost rem = evs.skip(i3 as int);
        proof {
            assert(rem.len() > 0);
            assert(rem[0] == evs[i3 as int]);
            assert(rem.drop_first() =~= evs.skip(i3 as int + 1));
        }
        match apply_event(&mut zone, &events[i3], &vars) {
            Ok(()) => {},
            Err(e) => {
                return Err(e);
            },
        }
        i3 = i3 + 1;
    }
    proof {
        assert(evs.skip(events@.len() as int) =~= Seq::<SpecLine>::empty());
    }
    Ok(zone)
}

} // verus!
