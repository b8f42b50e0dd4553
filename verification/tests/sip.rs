use spark_codecs::sip::error::{
    ErrorCategory, SipFormatError, SipParseError, SipTransactionError, ToErrorCategory,
};
use spark_codecs::sip::fmt::{
    write_header, write_message, write_name_addr, write_request, write_response, write_uri,
};
use spark_codecs::sip::parse::common::parse_sip_uri;
use spark_codecs::sip::parse::headers::{
    parse_call_id, parse_contact, parse_cseq, parse_headers, parse_max_forwards, parse_name_addr,
    parse_via,
};
use spark_codecs::sip::parse::request::{parse_request, parse_request_bytes, parse_request_line};
use spark_codecs::sip::parse::response::{parse_response, parse_status_line};
use spark_codecs::sip::registrar::{Aor, AorRef, ContactUri, ContactUriRef};
use spark_codecs::sip::transaction::{
    FinalResponseDisposition, InviteServerTransaction, InviteServerTransactionState,
};
use spark_codecs::sip::types::{
    Header, HeaderKind, HeaderName, Method, SipMessage, SipScheme, StartLine, ViaParamRport,
};

const REGISTER: &str = "REGISTER sip:spark.invalid SIP/2.0\r\n\
Via: SIP/2.0/UDP client.invalid;branch=z9hG4bK-1;rport\r\n\
Max-Forwards: 70\r\n\
To: <sip:alice@client.invalid>\r\n\
From: <sip:alice@client.invalid>;tag=1928301774\r\n\
Contact: <sip:alice@client.invalid>\r\n\
Call-ID: a84b4c76e66710\r\n\
CSeq: 314159 REGISTER\r\n\
Content-Length: 0\r\n\r\n";

#[test]
fn parse_register_with_standard_headers() {
    let message = parse_request(REGISTER).expect("the request is valid");

    match &message.start_line {
        StartLine::Request(line) => {
            assert_eq!(line.method, Method::Register);
            assert_eq!(line.uri.host, "spark.invalid");
        }
        other => panic!("a request was parsed: {other:?}"),
    }

    assert!(message.headers.iter().any(|header| matches!(header, Header::Via(_))));
    assert!(message.headers.iter().any(|header| matches!(header, Header::MaxForwards(_))));
    assert!(message.headers.iter().any(|header| matches!(header, Header::Contact(_))));
    assert!(message.headers.iter().any(|header| matches!(
        header,
        Header::Extension { name, value }
            if name.raw.eq_ignore_ascii_case("Content-Length") && value.trim() == "0"
    )));

    assert!(message.body.is_empty());
}

fn written(message: &SipMessage<'_>) -> String {
    let mut out = String::new();
    write_message(&mut out, message).expect("the body is text");
    out
}

#[test]
fn a_request_that_was_written_is_parsed_back() {
    let message = parse_request(REGISTER).expect("the request is valid");
    let text = written(&message);
    assert_eq!(text, REGISTER);
    assert_eq!(parse_request(&text).expect("the text is valid"), message);
}

#[test]
fn a_response_that_was_written_is_parsed_back() {
    let text = "SIP/2.0 180 Ringing now\r\nVia: SIP/2.0/TCP [::1]:5060\r\nTo: \"Bob\" <sips:bob@b.c;x=y?h=1>;tag=2\r\nX-Empty:\r\n\r\nbody";
    let message = parse_response(text).expect("the response is valid");
    match &message.start_line {
        StartLine::Response(line) => {
            assert_eq!(line.status_code, 180);
            assert_eq!(line.reason, "Ringing now");
        }
        other => panic!("a response was parsed: {other:?}"),
    }
    assert_eq!(message.body, b"body");
    match &message.headers[0] {
        Header::Via(via) => {
            assert_eq!(via.host, "[::1]");
            assert_eq!(via.port, Some(5060));
        }
        other => panic!("the first header is a Via: {other:?}"),
    }
    let plain = "SIP/2.0 404 Not Found\r\nCall-ID: x\r\n\r\n";
    let message = parse_response(plain).expect("the response is valid");
    assert_eq!(written(&message), plain);
}

#[test]
fn headers_are_found_by_kind() {
    let message = parse_request(REGISTER).expect("the request is valid");
    match message.find_header(HeaderKind::CSeq) {
        Some(Header::CSeq(cseq)) => {
            assert_eq!(cseq.sequence, 314159);
            assert_eq!(cseq.method, Method::Register);
        }
        other => panic!("there is a CSeq: {other:?}"),
    }
    assert!(matches!(message.find_header(HeaderKind::Other), Some(Header::Extension { .. })));
}

#[test]
fn uris_have_parts() {
    let uri = parse_sip_uri("sips:alice:secret@[2001:db8::1]:5061;transport=tls?subject=x")
        .expect("the URI is valid");
    assert_eq!(uri.scheme, SipScheme::Sips);
    assert_eq!(uri.userinfo, Some("alice:secret"));
    assert_eq!(uri.host, "2001:db8::1");
    assert_eq!(uri.port, Some(5061));
    assert_eq!(uri.params, Some(";transport=tls"));
    assert_eq!(uri.headers, Some("subject=x"));
    assert!(uri.has_transport_param());
    let uri = parse_sip_uri("SIP:host").expect("the URI is valid");
    assert_eq!(uri.scheme, SipScheme::Sip);
    assert_eq!(uri.userinfo, None);
    assert_eq!(uri.port, None);
    assert!(!uri.has_transport_param());
    for bad in ["", "host", "http:host", "sip:", "sip:alice@", "sip:host:99999", "sip:[::1"] {
        assert_eq!(parse_sip_uri(bad), Err(SipParseError::InvalidUri), "{bad}");
    }
}

#[test]
fn a_uri_that_was_written_is_parsed_back() {
    for text in ["sip:host", "sips:a@b:1", "sip:a@b;lr", "sip:b?x=1", "sip:a:p@b:5060;x;y=z?h=1&g=2"] {
        let uri = parse_sip_uri(text).expect("the URI is valid");
        let mut out = String::new();
        write_uri(&mut out, &uri);
        assert_eq!(out, text);
    }
}

#[test]
fn addresses_are_parsed_and_written() {
    let addr = parse_name_addr("\"Alice\" <sip:alice@b.c>;tag=1").expect("the address is valid");
    assert_eq!(addr.display_name, Some("Alice"));
    assert_eq!(addr.uri.host, "b.c");
    assert_eq!(addr.params, Some(";tag=1"));
    assert!(addr.enclosed);
    let bare = parse_name_addr("sip:alice@b.c;tag=1").expect("the address is valid");
    assert!(!bare.enclosed);
    assert_eq!(bare.params, Some(";tag=1"));
    assert_eq!(bare.uri.params, None);
    let mut out = String::new();
    write_name_addr(&mut out, &bare);
    assert_eq!(out, "sip:alice@b.c;tag=1");
    assert_eq!(parse_name_addr("<sip:a@b"), Err(SipParseError::InvalidNameAddrHeader));
    assert_eq!(parse_name_addr("Bob <sip:b@c>"), Err(SipParseError::InvalidUri));
}

#[test]
fn via_headers_are_parsed() {
    let via = parse_via("SIP/2.0/UDP host:5060;rport=99;branch=b;received=1.2.3.4;ttl=1")
        .expect("the header is valid");
    assert_eq!(via.sent_protocol, "SIP/2.0/UDP");
    assert_eq!(via.host, "host");
    assert_eq!(via.port, Some(5060));
    assert_eq!(via.branch, Some("b"));
    assert_eq!(via.received, Some("1.2.3.4"));
    assert_eq!(via.rport, ViaParamRport::Value(99));
    assert_eq!(parse_via("SIP/2.0/UDP"), Err(SipParseError::InvalidViaHeader));
    let requested = parse_via("SIP/2.0/UDP host;rport").expect("the header is valid");
    assert_eq!(requested.rport, ViaParamRport::Requested);
    let absent = parse_via("SIP/2.0/UDP host").expect("the header is valid");
    assert_eq!(absent.rport, ViaParamRport::NotPresent);
}

#[test]
fn the_parameters_of_a_via_are_written_in_order() {
    let via = parse_via("SIP/2.0/UDP host;ttl=1;rport;branch=b;lone").expect("the header is valid");
    let mut out = String::new();
    write_header(&mut out, &Header::Via(via)).expect("always written");
    assert_eq!(out, "Via: SIP/2.0/UDP host;branch=b;rport;ttl=1;lone");
}

#[test]
fn headers_with_a_number_are_parsed() {
    assert_eq!(parse_cseq("7 INVITE").expect("valid").sequence, 7);
    assert_eq!(parse_cseq("7 FOO").expect("valid").method, Method::Extension("FOO"));
    assert_eq!(parse_cseq("x INVITE"), Err(SipParseError::InvalidCSeq));
    assert_eq!(parse_cseq("4294967296 INVITE"), Err(SipParseError::InvalidCSeq));
    assert_eq!(parse_max_forwards(" 70 ").expect("valid").hops, 70);
    assert_eq!(parse_max_forwards("-1"), Err(SipParseError::InvalidMaxForwards));
    assert_eq!(parse_call_id("abc").expect("valid").value, "abc");
    assert_eq!(parse_call_id(""), Err(SipParseError::InvalidCallId));
}

#[test]
fn contacts_may_be_a_wildcard() {
    let all = parse_contact("*").expect("valid");
    assert!(all.is_wildcard);
    assert!(all.address.is_none());
    let one = parse_contact("<sip:a@b>").expect("valid");
    assert!(!one.is_wildcard);
    assert!(one.address.is_some());
    assert_eq!(parse_contact("<sip:a@b"), Err(SipParseError::InvalidNameAddrHeader));
    assert_eq!(parse_contact(" "), Err(SipParseError::InvalidContact));
}

#[test]
fn folded_headers_are_joined() {
    let headers = parse_headers("Subject: one\r\n two\r\nCall-ID: x").expect("valid");
    assert_eq!(headers.len(), 2);
    match &headers[0] {
        Header::Extension { name, value } => {
            assert_eq!(name.raw, "Subject");
            assert_eq!(*value, "one\r\n two");
        }
        other => panic!("the first header is an extension: {other:?}"),
    }
    assert_eq!(parse_headers(" leading: x"), Err(SipParseError::InvalidHeaderValue));
    assert_eq!(parse_headers("no colon"), Err(SipParseError::InvalidHeaderName));
    assert_eq!(parse_headers("A: 1\r\n\r\nB: 2"), Err(SipParseError::InvalidHeaderValue));
}

#[test]
fn first_lines_are_checked() {
    assert_eq!(parse_request_line("INVITE sip:a"), Err(SipParseError::InvalidRequestLine));
    assert_eq!(
        parse_request_line("INVITE sip:a SIP/3.0"),
        Err(SipParseError::UnsupportedVersion)
    );
    assert_eq!(
        parse_request_line("INVITE sip:a SIP/2.0 x"),
        Err(SipParseError::InvalidRequestLine)
    );
    assert_eq!(parse_request_line("INVITE a SIP/2.0"), Err(SipParseError::InvalidUri));
    assert_eq!(parse_status_line("SIP/2.0"), Err(SipParseError::InvalidStatusLine));
    assert_eq!(parse_status_line("SIP/1.0 200 OK"), Err(SipParseError::UnsupportedVersion));
    assert_eq!(parse_status_line("SIP/2.0 20 OK"), Err(SipParseError::InvalidStatusLine));
    assert_eq!(parse_status_line("SIP/2.0 200").expect("valid").reason, "");
}

#[test]
fn a_message_needs_an_empty_line() {
    assert_eq!(parse_request("OPTIONS sip:a SIP/2.0"), Err(SipParseError::UnexpectedEof));
    assert_eq!(
        parse_request("OPTIONS sip:a SIP/2.0\r\nCall-ID: x\r\n"),
        Err(SipParseError::UnexpectedEof)
    );
    assert_eq!(parse_response("SIP/2.0 200 OK\r\n\r\n"), Err(SipParseError::UnexpectedEof));
}

#[test]
fn the_body_of_bytes_may_be_anything() {
    let mut bytes = b"MESSAGE sip:a SIP/2.0\r\nCall-ID: x\r\n\r\n".to_vec();
    bytes.extend_from_slice(&[0xff, 0xfe]);
    let message = parse_request_bytes(&bytes).expect("the head is text");
    assert_eq!(message.body, &[0xff, 0xfe]);
    let mut out = String::new();
    assert_eq!(write_message(&mut out, &message), Err(SipFormatError::NonUtf8Body));
    assert_eq!(parse_request_bytes(&[0xff, 0xfe]), Err(SipParseError::UnexpectedEof));
    assert_eq!(
        parse_request_bytes(b"M sip:a SIP/2.0\r\nX: \xff\r\n\r\n"),
        Err(SipParseError::InvalidHeaderValue)
    );
}

#[test]
fn messages_are_written_from_their_parts() {
    let line = parse_request_line("INFO sip:a SIP/2.0").expect("valid");
    let headers = parse_headers("Call-ID: x").expect("valid");
    let mut out = String::new();
    write_request(&mut out, &line, &headers, b"hi").expect("text");
    assert_eq!(out, "INFO sip:a SIP/2.0\r\nCall-ID: x\r\n\r\nhi");
    let line = parse_status_line("SIP/2.0 200").expect("valid");
    let mut out = String::new();
    write_response(&mut out, &line, &headers, b"").expect("text");
    assert_eq!(out, "SIP/2.0 200\r\nCall-ID: x\r\n\r\n");
}

#[test]
fn methods_are_case_sensitive_and_header_names_are_not() {
    assert_eq!(Method::from_token("INVITE"), Method::Invite);
    assert_eq!(Method::from_token("invite"), Method::Extension("invite"));
    assert_eq!(Method::from_token("UPDATE").as_str(), "UPDATE");
    assert_eq!(HeaderName::new("cALL-id").kind, HeaderKind::CallId);
    assert_eq!(HeaderName::new("i").kind, HeaderKind::Other);
}

#[test]
fn addresses_of_record_can_be_kept() {
    let addr = parse_name_addr("\"Alice\" <sip:alice@b.c>").expect("valid");
    assert_eq!(AorRef::from(&addr).into_owned().as_str(), "sip:alice@b.c");
    assert_eq!(ContactUriRef::from(&addr).into_owned().as_str(), "sip:alice@b.c");
    assert_eq!(Aor::from_name_addr(&addr).as_str(), Aor::from_uri(&addr.uri).as_str());
    assert_eq!(ContactUri::new("x".to_string()).as_str(), "x");
    assert_eq!(AorRef::from(&addr.uri).as_uri().host, "b.c");
}

#[test]
fn a_cancel_before_the_final_response_wins() {
    let mut transaction = InviteServerTransaction::new();
    transaction.advance_to_proceeding();
    assert_eq!(transaction.state(), InviteServerTransactionState::Proceeding);
    let outcome = transaction.handle_cancel().expect("the transaction is alive");
    assert_eq!(outcome.cancel_response, 200);
    assert_eq!(outcome.final_response, Some(FinalResponseDisposition::Generated(487)));
    assert!(outcome.cancelled_invite);
    assert_eq!(transaction.final_response(), Some(487));
    assert!(transaction.cancel_applied());
    assert_eq!(
        transaction.record_final_response(200),
        Err(SipTransactionError::FinalResponseConflict { existing: 487, attempted: 200 })
    );
    let again = transaction.handle_cancel().expect("the transaction is alive");
    assert_eq!(again.final_response, Some(FinalResponseDisposition::AlreadySent(487)));
    assert!(!again.cancelled_invite);
}

#[test]
fn a_final_response_before_the_cancel_wins() {
    let mut transaction = InviteServerTransaction::new();
    transaction.record_final_response(200).expect("nothing is settled");
    transaction.record_final_response(200).expect("the same response again");
    let outcome = transaction.handle_cancel().expect("the transaction is alive");
    assert_eq!(outcome.final_response, Some(FinalResponseDisposition::AlreadySent(200)));
    assert!(!outcome.cancelled_invite);
    assert!(!transaction.cancel_applied());
    transaction.terminate();
    assert_eq!(transaction.handle_cancel(), Err(SipTransactionError::TransactionTerminated));
    assert_eq!(
        transaction.record_final_response(200),
        Err(SipTransactionError::TransactionTerminated)
    );
    assert_eq!(InviteServerTransactionState::Trying.as_str(), "Trying");
}

#[test]
fn sip_errors_say_what_is_wrong() {
    let conflict = SipTransactionError::FinalResponseConflict { existing: 487, attempted: 200 };
    assert!(conflict.message().contains("487"));
    assert!(conflict.message().contains("200"));
    assert!(!SipParseError::InvalidUri.message().is_empty());
    assert!(!SipFormatError::NonUtf8Body.message().is_empty());
    let matrix = Vec::new();
    assert_eq!(
        SipTransactionError::NoMatchingInvite.to_error_category(&matrix),
        ErrorCategory::NonRetryable
    );
}

#[test]
fn a_contact_reads_back_as_the_address_it_was_made_of() {
    for text in [
        "sip:alice@b.c",
        " SIPS:a@b@host:0005060;lr;x=[y]?q=1?2 \r\n",
        "sip:host:",
        "sip:a:5:6",
        "sip:a b ;",
        "sip:h?",
        "sip:[plain]",
    ] {
        let uri = parse_sip_uri(text).expect("the URI is valid");
        let contact = ContactUriRef::from(&uri).into_owned();
        assert_eq!(parse_sip_uri(contact.as_str()), Ok(uri), "{text}");
    }
    let uri = parse_sip_uri("sip:[::1]").expect("the URI is valid");
    let contact = ContactUriRef::from(&uri).into_owned();
    assert_ne!(parse_sip_uri(contact.as_str()), Ok(uri));
}

#[test]
fn errors_of_others_become_format_errors() {
    let fault = String::from_utf8(vec![0xff]).expect_err("not UTF-8").utf8_error();
    assert_eq!(SipFormatError::from(fault), SipFormatError::NonUtf8Body);
    assert_eq!(SipFormatError::from(std::fmt::Error), SipFormatError::Io);
}

#[test]
fn addresses_can_be_read_as_text() {
    let aor = Aor::new("sip:a@b".to_string());
    let text: &str = &aor;
    assert_eq!(text, "sip:a@b");
    assert_eq!(aor.as_ref(), "sip:a@b");
    let contact = ContactUri::new("sip:c".to_string());
    let text: &str = &contact;
    assert_eq!(text, contact.as_ref());
    assert!(contact.starts_with("sip:"));
}
