use my_dns::parser::ParseError;
use my_dns::parser::parse_from_str;
use my_dns::record::RecordKind;

#[test]
fn qualifies_relative_name_against_origin() {
    let text = "@ DEFAULT example.com.\nwww A 1.2.3.4 3600\n".to_string();
    let z = parse_from_str(text).unwrap();
    let a = z.a.as_ref().unwrap();
    assert_eq!(a.len(), 1);
    assert_eq!(a[0].name, "www.example.com.");
    assert_eq!(a[0].value, "1.2.3.4");
    assert_eq!(a[0].ttl, 3600);
    assert_eq!(a[0].kind, RecordKind::A);
    assert_eq!(a[0].priority, None);
}

#[test]
fn qualified_name_left_unchanged() {
    let text = "@ DEFAULT example.com.\nhost.other.org. A 9.9.9.9 60\n".to_string();
    let z = parse_from_str(text).unwrap();
    let a = z.a.as_ref().unwrap();
    assert_eq!(a[0].name, "host.other.org.");
}

#[test]
fn qualified_name_needs_no_origin() {
    let text = "host.other.org. A 9.9.9.9 60\n".to_string();
    let z = parse_from_str(text).unwrap();
    assert_eq!(z.a.as_ref().unwrap()[0].name, "host.other.org.");
}

#[test]
fn default_line_applies_to_earlier_record_line() {
    let text = "www A 1.2.3.4 3600\n@ DEFAULT example.com.".to_string();
    let z = parse_from_str(text).unwrap();
    assert_eq!(z.a.as_ref().unwrap()[0].name, "www.example.com.");
}

#[test]
fn later_default_declaration_wins() {
    let text = "@ DEFAULT a.com.\n@ DEFAULT b.com.\nwww A 1.2.3.4 3600\n".to_string();
    let z = parse_from_str(text).unwrap();
    assert_eq!(z.a.as_ref().unwrap()[0].name, "www.b.com.");
}

#[test]
fn substitution_is_token_bounded() {
    // "w" names a variable, but the label "www" merely contains it and must
    // not be rewritten.
    let text = "w DEFAULT trap.org.\n@ DEFAULT example.com.\nwww A 1.2.3.4 3600\n".to_string();
    let z = parse_from_str(text).unwrap();
    assert_eq!(z.a.as_ref().unwrap()[0].name, "www.example.com.");
}

#[test]
fn substitution_replaces_whole_label() {
    let text = "w DEFAULT mail\n@ DEFAULT example.com.\nw.sub A 1.2.3.4 3600\n".to_string();
    let z = parse_from_str(text).unwrap();
    assert_eq!(z.a.as_ref().unwrap()[0].name, "mail.sub.example.com.");
}

#[test]
fn variable_in_ttl_field_is_substituted() {
    let text = "TTL DEFAULT 7200\n@ DEFAULT example.com.\nwww A 1.2.3.4 TTL\n".to_string();
    let z = parse_from_str(text).unwrap();
    assert_eq!(z.a.as_ref().unwrap()[0].ttl, 7200);
}

#[test]
fn missing_origin_is_fatal() {
    let text = "www A 1.2.3.4 3600\n".to_string();
    match parse_from_str(text) {
        Err(e) => assert_eq!(e, ParseError::MissingOrigin),
        Ok(_) => panic!("expected a MissingOrigin error"),
    }
}

#[test]
fn non_numeric_ttl_fails_with_numeric_field_error() {
    let text = "@ DEFAULT example.com.\nwww A 1.2.3.4 ABC\n".to_string();
    match parse_from_str(text) {
        Err(e) => assert_eq!(e, ParseError::NumericField),
        Ok(_) => panic!("expected a NumericField error"),
    }
}

#[test]
fn ttl_at_u32_limit_is_accepted() {
    let text = "@ DEFAULT example.com.\nwww A 1.2.3.4 4294967295\n".to_string();
    let z = parse_from_str(text).unwrap();
    assert_eq!(z.a.as_ref().unwrap()[0].ttl, 4_294_967_295);
}

#[test]
fn ttl_over_u32_limit_is_rejected() {
    let text = "@ DEFAULT example.com.\nwww A 1.2.3.4 4294967296\n".to_string();
    match parse_from_str(text) {
        Err(e) => assert_eq!(e, ParseError::NumericField),
        Ok(_) => panic!("expected a NumericField error"),
    }
}

#[test]
fn soa_sub_tags_keep_distinct_slots() {
    let text =
        "ns1 SOAADMIN admin.example.com. 3600\nns1 SOAEXPIRE expire.example.com. 7200\n".to_string();
    let z = parse_from_str(text).unwrap();
    assert_eq!(z.config_len(), 2);
    let admin = z.config_get(&"SOAADMIN".to_string()).unwrap();
    assert_eq!(admin.value, "admin.example.com.");
    assert_eq!(admin.ttl, 3600);
    let expire = z.config_get(&"SOAEXPIRE".to_string()).unwrap();
    assert_eq!(expire.value, "expire.example.com.");
}

#[test]
fn same_soa_sub_tag_keeps_later_line() {
    let text = "ns1 SOAADMIN first.example.com. 3600\nns1 SOAADMIN second.example.com. 60\n"
        .to_string();
    let z = parse_from_str(text).unwrap();
    assert_eq!(z.config_len(), 1);
    let admin = z.config_get(&"SOAADMIN".to_string()).unwrap();
    assert_eq!(admin.value, "second.example.com.");
    assert_eq!(admin.ttl, 60);
}

#[test]
fn soa_name_is_not_qualified() {
    let text = "ns1 SOAADMIN admin.example.com. 3600\n".to_string();
    let z = parse_from_str(text).unwrap();
    assert_eq!(z.config_get(&"SOAADMIN".to_string()).unwrap().name, "ns1");
}

#[test]
fn mx_record_keeps_priority() {
    let text = "@ DEFAULT example.com.\nmail MX mx1.example.com. 3600 10\n".to_string();
    let z = parse_from_str(text).unwrap();
    let mx = z.mx.as_ref().unwrap();
    assert_eq!(mx[0].priority, Some(10));
    assert_eq!(mx[0].kind, RecordKind::Mx);
}

#[test]
fn unranked_kind_drops_fifth_field() {
    let text = "@ DEFAULT example.com.\nwww A 1.2.3.4 3600 7\n".to_string();
    let z = parse_from_str(text).unwrap();
    assert_eq!(z.a.as_ref().unwrap()[0].priority, None);
}

#[test]
fn soa_priority_is_kept_when_declared() {
    let text = "ns1 SOAREFRESH r.example.com. 3600 5\n".to_string();
    let z = parse_from_str(text).unwrap();
    let r = z.config_get(&"SOAREFRESH".to_string()).unwrap();
    assert_eq!(r.priority, Some(5));
    assert_eq!(r.kind, RecordKind::Soa("SOAREFRESH".to_string()));
}

#[test]
fn priority_over_u16_limit_is_rejected() {
    let text = "@ DEFAULT example.com.\nmail MX mx1.example.com. 3600 70000\n".to_string();
    match parse_from_str(text) {
        Err(e) => assert_eq!(e, ParseError::NumericField),
        Ok(_) => panic!("expected a NumericField error"),
    }
}

#[test]
fn ns_records_are_keyed_by_owner_name() {
    let text = "@ DEFAULT example.com.\n@ NS ns1.example.com. 3600\n@ NS ns2.example.com. 3600\n"
        .to_string();
    let z = parse_from_str(text).unwrap();
    let ns = z.ns.as_ref().unwrap();
    assert_eq!(ns.len(), 2);
    assert_eq!(ns[0].0, "example.com.");
    assert_eq!(ns[0].1.value, "ns1.example.com.");
    assert_eq!(ns[1].1.value, "ns2.example.com.");
}

#[test]
fn record_kinds_are_dispatched_to_their_collections() {
    let text = "@ DEFAULT example.com.\n@ NS ns1.example.com. 3600\nwww A 1.2.3.4 3600\nalias CNAME www.example.com. 3600\nmail MX mx1.example.com. 3600 10\n4.3.2.1 PTR www.example.com. 3600\n"
        .to_string();
    let z = parse_from_str(text).unwrap();
    assert_eq!(z.ns.as_ref().unwrap().len(), 1);
    assert_eq!(z.a.as_ref().unwrap().len(), 1);
    assert_eq!(z.cname.as_ref().unwrap().len(), 1);
    assert_eq!(z.mx.as_ref().unwrap().len(), 1);
    assert_eq!(z.ptr.as_ref().unwrap().len(), 1);
    assert_eq!(z.cname.as_ref().unwrap()[0].kind, RecordKind::Cname);
    assert_eq!(z.ptr.as_ref().unwrap()[0].kind, RecordKind::Ptr);
}

#[test]
fn records_stay_in_source_order() {
    let text = "@ DEFAULT example.com.\na A 1.1.1.1 60\nb A 2.2.2.2 60\nc A 3.3.3.3 60\n"
        .to_string();
    let z = parse_from_str(text).unwrap();
    let a = z.a.as_ref().unwrap();
    assert_eq!(a[0].value, "1.1.1.1");
    assert_eq!(a[1].value, "2.2.2.2");
    assert_eq!(a[2].value, "3.3.3.3");
}

#[test]
fn noise_lines_are_skipped_silently() {
    let text = "# a comment line\n@ DEFAULT example.com.\n\nthis line matches no shape at all!\nx DEFAULT y z\nwww A 1.2.3.4 3600\n"
        .to_string();
    let z = parse_from_str(text).unwrap();
    assert_eq!(z.a.as_ref().unwrap().len(), 1);
    assert!(z.cname.is_none());
}

#[test]
fn empty_text_gives_empty_zone() {
    let z = parse_from_str(String::new()).unwrap();
    assert_eq!(z.config_len(), 0);
    assert!(z.ns.is_none());
    assert!(z.a.is_none());
    assert!(z.cname.is_none());
    assert!(z.mx.is_none());
    assert!(z.ptr.is_none());
}

#[test]
fn bare_soa_tag_does_not_match() {
    // The tag must be SOA followed by at least one capital.
    let text = "ns1 SOA admin.example.com. 3600\n".to_string();
    let z = parse_from_str(text).unwrap();
    assert_eq!(z.config_len(), 0);
}
