use my_dns::registry::DomainRegistry;
use my_dns::transfer::ProtocolError;
use my_dns::transfer::TransferError;
use my_dns::transfer::TransferSession;
use my_dns::transfer::be_u16;

#[test]
fn be_u16_is_big_endian() {
    assert_eq!(be_u16(0, 3), 3);
    assert_eq!(be_u16(1, 2), 258);
    assert_eq!(be_u16(255, 255), 65535);
}

#[test]
fn three_framed_lines_install_a_zone() {
    // A simulated primary announces three entries in the 1000-byte header
    // frame and supplies three framed lines of a valid zone snippet.
    let mut header = [0u8; 1000];
    header[0] = 0;
    header[1] = 3;
    let frames = [
        "@ DEFAULT example.com.\n",
        "www A 1.2.3.4 3600\n",
        "mail MX mx1.example.com. 3600 10\n",
    ];

    let mut session = TransferSession::new("example.com".to_string());
    let n = session.on_header(header[0], header[1]);
    assert_eq!(n, 3);

    // The client owes exactly one sequence-number-and-line read per entry.
    let mut reads: usize = 0;
    while session.needs_more() {
        session.on_line(reads as u16, frames[reads].to_string());
        reads += 1;
    }
    assert_eq!(reads, 3);

    let zone = match session.finish() {
        Ok(z) => z,
        Err(_) => panic!("transfer should have produced a zone"),
    };
    let a = zone.a.as_ref().unwrap();
    assert_eq!(a.len(), 1);
    assert_eq!(a[0].name, "www.example.com.");
    let mx = zone.mx.as_ref().unwrap();
    assert_eq!(mx[0].priority, Some(10));

    let mut registry = DomainRegistry::new();
    registry.put("example.com".to_string(), zone);
    let installed = registry.get(&"example.com".to_string()).unwrap();
    assert_eq!(installed.a.as_ref().unwrap()[0].value, "1.2.3.4");
}

#[test]
fn finish_without_header_is_a_protocol_error() {
    let session = TransferSession::new("example.com".to_string());
    match session.finish() {
        Err(TransferError::Protocol(ProtocolError::MissingHeader)) => {},
        _ => panic!("expected a MissingHeader error"),
    }
}

#[test]
fn short_session_is_an_entry_count_mismatch() {
    let mut session = TransferSession::new("example.com".to_string());
    session.on_header(0, 2);
    session.on_line(0, "@ DEFAULT example.com.\n".to_string());
    match session.finish() {
        Err(TransferError::Protocol(ProtocolError::EntryCountMismatch)) => {},
        _ => panic!("expected an EntryCountMismatch error"),
    }
}

#[test]
fn bad_zone_text_is_a_parse_error() {
    let mut session = TransferSession::new("example.com".to_string());
    session.on_header(0, 1);
    session.on_line(0, "www A 1.2.3.4 3600\n".to_string());
    match session.finish() {
        Err(TransferError::Parse(my_dns::parser::ParseError::MissingOrigin)) => {},
        _ => panic!("expected a MissingOrigin parse error"),
    }
}

#[test]
fn lines_concatenate_in_arrival_order_across_frames() {
    // One logical line arrives split across two frames; the first frame ends
    // without a terminator, so the pieces join into a single line.
    let mut session = TransferSession::new("example.com".to_string());
    session.on_header(0, 3);
    session.on_line(0, "@ DEFAULT example.com.\nwww A ".to_string());
    session.on_line(1, "1.2.3.4 3600\n".to_string());
    session.on_line(2, "mail A 5.6.7.8 60\n".to_string());
    let zone = match session.finish() {
        Ok(z) => z,
        Err(_) => panic!("transfer should have produced a zone"),
    };
    let a = zone.a.as_ref().unwrap();
    assert_eq!(a.len(), 2);
    assert_eq!(a[0].name, "www.example.com.");
    assert_eq!(a[1].name, "mail.example.com.");
}

#[test]
fn failed_transfer_leaves_every_registry_entry_untouched() {
    // Domain one has a previously installed zone; its next transfer fails
    // (the primary is unreachable, so the session never gets a header).
    // Domain two's transfer succeeds. The failure installs nothing: domain
    // one keeps its last good zone, domain two gains its new one.
    let mut registry = DomainRegistry::new();

    let old_zone =
        my_dns::parser::parse_from_str("@ DEFAULT one.example.\nwww A 1.1.1.1 60\n".to_string())
            .unwrap();
    registry.put("one.example".to_string(), old_zone);

    let failing = TransferSession::new("one.example".to_string());
    match failing.finish() {
        Err(TransferError::Protocol(ProtocolError::MissingHeader)) => {},
        _ => panic!("expected the failing domain's transfer to fail"),
    }
    // Nothing is installed for a failed transfer.

    let mut ok_session = TransferSession::new("two.example".to_string());
    ok_session.on_header(0, 1);
    ok_session.on_line(0, "@ DEFAULT two.example.\nwww A 2.2.2.2 60\n".to_string());
    let new_zone = match ok_session.finish() {
        Ok(z) => z,
        Err(_) => panic!("expected the succeeding domain's transfer to parse"),
    };
    registry.put("two.example".to_string(), new_zone);

    assert_eq!(registry.len(), 2);
    let one = registry.get(&"one.example".to_string()).unwrap();
    assert_eq!(one.a.as_ref().unwrap()[0].value, "1.1.1.1");
    let two = registry.get(&"two.example".to_string()).unwrap();
    assert_eq!(two.a.as_ref().unwrap()[0].value, "2.2.2.2");
}

#[test]
fn reinstall_replaces_only_that_domain() {
    let mut registry = DomainRegistry::new();
    let first =
        my_dns::parser::parse_from_str("@ DEFAULT a.example.\nwww A 1.1.1.1 60\n".to_string())
            .unwrap();
    registry.put("a.example".to_string(), first);
    let other =
        my_dns::parser::parse_from_str("@ DEFAULT b.example.\nwww A 9.9.9.9 60\n".to_string())
            .unwrap();
    registry.put("b.example".to_string(), other);

    let second =
        my_dns::parser::parse_from_str("@ DEFAULT a.example.\nwww A 2.2.2.2 60\n".to_string())
            .unwrap();
    registry.put("a.example".to_string(), second);

    assert_eq!(registry.len(), 2);
    let a = registry.get(&"a.example".to_string()).unwrap();
    assert_eq!(a.a.as_ref().unwrap()[0].value, "2.2.2.2");
    let b = registry.get(&"b.example".to_string()).unwrap();
    assert_eq!(b.a.as_ref().unwrap()[0].value, "9.9.9.9");
}

#[test]
fn session_reports_its_domain() {
    let session = TransferSession::new("example.com".to_string());
    assert_eq!(session.domain().as_str(), "example.com");
}
