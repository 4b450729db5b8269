use whois_ranges::address::{decode_ip, IpAddress};
use whois_ranges::address::IpAddress::{V4, V6};
use whois_ranges::events::{parse_events, parse_ip, XmlAttribute, XmlEvent};
use whois_ranges::model::ParseError;
use whois_ranges::query::{resolve_response, url_from_filter, Filter, HttpClientError, QueryError};
use whois_ranges::xmlparser::{StdWhoisXmlParser, WhoisXmlParser};

fn attr(name: &str, value: &str) -> XmlAttribute {
    XmlAttribute { name: name.to_string(), value: value.to_string() }
}

fn start(name: &str, attributes: Vec<XmlAttribute>) -> XmlEvent {
    XmlEvent::StartElement { name: name.to_string(), attributes }
}

fn end(name: &str) -> XmlEvent {
    XmlEvent::EndElement { name: name.to_string() }
}

fn text(t: &str) -> XmlEvent {
    XmlEvent::Characters(t.to_string())
}

fn record(name: &str, first: &str, last: &str) -> Vec<XmlEvent> {
    vec![
        start("netRef", vec![attr("endAddress", last), attr("startAddress", first), attr("name", name)]),
        text("https://whois.arin.net/rest/net/NET-1"),
        end("netRef"),
    ]
}

fn listing(limit: &str, records: Vec<Vec<XmlEvent>>) -> Vec<XmlEvent> {
    let mut evs = vec![
        XmlEvent::StartDocument,
        start("nets", vec![]),
        XmlEvent::Whitespace("\n  ".to_string()),
        start("limitExceeded", vec![attr("limit", "256")]),
        text(limit),
        end("limitExceeded"),
    ];
    for r in records {
        evs.extend(r);
    }
    evs.push(end("nets"));
    evs.push(XmlEvent::EndDocument);
    evs
}

const DOC_ONE: &str = r#"<?xml version="1.0"?>
<nets xmlns="http://www.arin.net/whoisrws/core/v1">
  <limitExceeded limit="256">false</limitExceeded>
  <netRef endAddress="162.125.255.255" startAddress="162.125.0.0" handle="NET-162-125-0-0-1" name="DROPB">https://whois.arin.net/rest/net/NET-162-125-0-0-1</netRef>
</nets>
"#;

#[test]
fn decode_ip_follows_the_standard_grammar() {
    let cases: Vec<(&str, Option<IpAddress>)> = vec![
        ("162.125.0.0", Some(V4(0xA27D_0000))),
        ("0.0.0.0", Some(V4(0))),
        ("255.255.255.255", Some(V4(0xFFFF_FFFF))),
        ("1.2.3.4", Some(V4(0x0102_0304))),
        ("01.2.3.4", None),
        ("256.1.1.1", None),
        ("1.2.3", None),
        ("1.2.3.4.5", None),
        ("1..2.3", None),
        ("1.2.3.4 ", None),
        ("", None),
        ("dropbox.com", None),
        ("::", Some(V6(0))),
        ("::1", Some(V6(1))),
        ("1::", Some(V6(1 << 112))),
        ("2001:db8::1", Some(V6(0x2001_0db8_0000_0000_0000_0000_0000_0001))),
        ("2001:DB8:0:0:8:800:200C:417A", Some(V6(0x2001_0db8_0000_0000_0008_0800_200c_417a))),
        ("1:2:3:4:5:6:7:8", Some(V6(0x0001_0002_0003_0004_0005_0006_0007_0008))),
        ("1:2:3:4:5:6:7:8:9", None),
        ("1:2:3:4:5:6:7", None),
        ("::ffff:10.0.0.1", Some(V6(0xffff_0a00_0001))),
        ("1:2:3:4:5:6:1.2.3.4", Some(V6(0x0001_0002_0003_0004_0005_0006_0102_0304))),
        ("1:2:3:4:5:6:7:1.2.3.4", None),
        ("1.2.3.4::", None),
        (":::", None),
        ("1::2::3", None),
        ("12345::", None),
        ("1:::2", None),
        (":1", None),
        ("1:", None),
        ("::1.2.3.4", Some(V6(0x0102_0304))),
        ("1:2:3:4:5:6:7::", Some(V6(0x0001_0002_0003_0004_0005_0006_0007_0000))),
        ("::2:3:4:5:6:7:8", Some(V6(0x0000_0002_0003_0004_0005_0006_0007_0008))),
        ("1:2:3:4:5:6:7:8::", None),
        ("fe80::1%eth0", None),
        ("abcd::ef01", Some(V6(0xabcd_0000_0000_0000_0000_0000_0000_ef01))),
        ("g::1", None),
        ("1:2:3:4:5::1.2.3.4", Some(V6(0x0001_0002_0003_0004_0005_0000_0102_0304))),
        ("1:2:3:4:5:6::1.2.3.4", None),
        ("::ffff:1.2.3", None),
        ("0:0:0:0:0:0:0:0", Some(V6(0))),
    ];
    for (token, expected) in cases {
        assert_eq!(decode_ip(token), expected, "token {:?}", token);
    }
}

#[test]
fn decode_ip_values() {
    assert_eq!(decode_ip("162.125.0.0"), Some(IpAddress::V4(0xA27D_0000)));
    assert_eq!(decode_ip("::1"), Some(IpAddress::V6(1)));
    assert_eq!(decode_ip("2001:db8::ff00:42:8329"), Some(IpAddress::V6(0x2001_0db8_0000_0000_0000_ff00_0042_8329)));
    assert_eq!(decode_ip("::ffff:10.0.0.1"), Some(IpAddress::V6(0xffff_0a00_0001)));
    assert_eq!(decode_ip(""), None);
    assert_eq!(decode_ip("dropbox.com"), None);
}

#[test]
fn parse_ip_names_field_and_token() {
    assert_eq!(parse_ip("startAddress", "10.0.0.1"), Ok(IpAddress::V4(0x0a00_0001)));
    assert_eq!(
        parse_ip("startAddress", "dropbox.com"),
        Err(ParseError::IpAddrError("Failed to parse IP address: invalid IP address syntax (dropbox.com) in startAddress".to_string()))
    );
}

#[test]
fn events_without_records_read_as_empty() {
    let r = parse_events(&listing("false", vec![])).unwrap();
    assert_eq!(r.ips.len(), 0);
}

#[test]
fn events_records_kept_in_document_order() {
    let evs = listing(
        "false",
        vec![record("A", "10.0.0.0", "10.0.0.255"), record("B", "::1", "::2"), record("C", "1.1.1.1", "1.1.1.1")],
    );
    let r = parse_events(&evs).unwrap();
    assert_eq!(r.ips.len(), 3);
    assert_eq!(r.ips[0].name, Some("A".to_string()));
    assert_eq!(r.ips[0].start_ip, IpAddress::V4(0x0a00_0000));
    assert_eq!(r.ips[0].end_ip, IpAddress::V4(0x0a00_00ff));
    assert_eq!(r.ips[1].name, Some("B".to_string()));
    assert_eq!(r.ips[1].start_ip, IpAddress::V6(1));
    assert_eq!(r.ips[1].end_ip, IpAddress::V6(2));
    assert_eq!(r.ips[2].name, Some("C".to_string()));
}

#[test]
fn events_record_without_name() {
    let evs = listing(
        "false",
        vec![vec![start("netRef", vec![attr("startAddress", "1.0.0.0"), attr("endAddress", "1.0.0.9")]), end("netRef")]],
    );
    let r = parse_events(&evs).unwrap();
    assert_eq!(r.ips.len(), 1);
    assert_eq!(r.ips[0].name, None);
}

#[test]
fn events_truncated_listing_fails_whatever_records_surround_it() {
    let mut evs = vec![start("nets", vec![])];
    evs.extend(record("A", "10.0.0.0", "10.0.0.255"));
    evs.push(start("limitExceeded", vec![]));
    evs.push(text("true"));
    evs.push(end("limitExceeded"));
    evs.extend(record("B", "10.0.1.0", "10.0.1.255"));
    evs.push(end("nets"));
    evs.push(XmlEvent::EndDocument);
    assert_eq!(parse_events(&evs).unwrap_err(), ParseError::LimitExceeded);
    assert_eq!(parse_events(&listing("False", vec![])).unwrap_err(), ParseError::LimitExceeded);
    assert_eq!(parse_events(&listing("", vec![])).unwrap_err(), ParseError::LimitExceeded);
}

#[test]
fn events_bad_end_address_fails() {
    let evs = listing("false", vec![record("A", "10.0.0.0", "not-an-ip")]);
    assert_eq!(
        parse_events(&evs).unwrap_err(),
        ParseError::IpAddrError("Failed to parse IP address: invalid IP address syntax (not-an-ip) in endAddress".to_string())
    );
}

#[test]
fn events_missing_start_address_fails() {
    let evs = listing("false", vec![vec![start("netRef", vec![attr("endAddress", "1.0.0.9")]), end("netRef")]]);
    assert_eq!(
        parse_events(&evs).unwrap_err(),
        ParseError::IpAddrError("Failed to parse IP address: invalid IP address syntax () in startAddress".to_string())
    );
}

#[test]
fn events_cdata_and_malformed_fail() {
    let mut evs = listing("false", vec![]);
    evs.insert(2, XmlEvent::CData("x".to_string()));
    assert_eq!(parse_events(&evs).unwrap_err(), ParseError::UnexpectedCData);
    let bad = vec![start("nets", vec![]), XmlEvent::Malformed("1:1 oops".to_string())];
    assert_eq!(parse_events(&bad).unwrap_err(), ParseError::XmlError("1:1 oops".to_string()));
}

#[test]
fn events_stop_at_end_of_document() {
    let mut evs = listing("false", vec![]);
    evs.extend(record("A", "10.0.0.0", "10.0.0.255"));
    assert_eq!(parse_events(&evs).unwrap().ips.len(), 0);
}

#[test]
fn document_malformed_is_xml_error() {
    let parser = StdWhoisXmlParser::new();
    assert!(matches!(parser.parse_content(b"{}"), Err(ParseError::XmlError(_))));
    assert!(matches!(parser.parse_content(b""), Err(ParseError::XmlError(_))));
    assert!(matches!(parser.parse_content(b"<nets><other></nets>"), Err(ParseError::XmlError(_))));
}

#[test]
fn document_single_range_scenario() {
    let r = StdWhoisXmlParser::new().parse_content(DOC_ONE.as_bytes()).unwrap();
    assert_eq!(r.ips.len(), 1);
    assert_eq!(r.ips[0].name, Some("DROPB".to_string()));
    assert_eq!(r.ips[0].start_ip, IpAddress::V4(0xA27D_0000));
    assert_eq!(r.ips[0].end_ip, IpAddress::V4(0xA27D_FFFF));
}

#[test]
fn document_two_identical_records() {
    let doc = r#"<nets><limitExceeded>false</limitExceeded><netRef startAddress="1.2.3.0" endAddress="1.2.3.255" name="X"/><netRef startAddress="1.2.3.0" endAddress="1.2.3.255" name="X"/></nets>"#;
    let r = StdWhoisXmlParser::new().parse_content(doc.as_bytes()).unwrap();
    assert_eq!(r.ips.len(), 2);
    assert_eq!(r.ips[0], r.ips[1]);
    assert_eq!(r.ips[0].start_ip, IpAddress::V4(0x0102_0300));
}

#[test]
fn document_parsed_twice_is_the_same() {
    let parser = StdWhoisXmlParser::new();
    let a = parser.parse_content(DOC_ONE.as_bytes());
    let b = parser.parse_content(DOC_ONE.as_bytes());
    assert_eq!(a, b);
}

#[test]
fn document_cdata_is_rejected() {
    let doc = "<nets><limitExceeded>false</limitExceeded><![CDATA[x]]></nets>";
    assert_eq!(StdWhoisXmlParser::new().parse_content(doc.as_bytes()).unwrap_err(), ParseError::UnexpectedCData);
}

#[test]
fn document_ipv6_range() {
    let doc = r#"<nets><limitExceeded>false</limitExceeded><netRef startAddress="2620:100:6000::" endAddress="2620:100:6fff:ffff:ffff:ffff:ffff:ffff" name="DBX6"/></nets>"#;
    let r = StdWhoisXmlParser::new().parse_content(doc.as_bytes()).unwrap();
    assert_eq!(r.ips.len(), 1);
    assert_eq!(r.ips[0].start_ip, IpAddress::V6(0x2620_0100_6000_0000_0000_0000_0000_0000));
    assert_eq!(r.ips[0].end_ip, IpAddress::V6(0x2620_0100_6fff_ffff_ffff_ffff_ffff_ffff));
}

#[test]
fn url_for_each_filter() {
    assert_eq!(
        url_from_filter(&Filter::PointOfContact("ABC-ARIN".to_string())),
        "http://whois.arin.net/rest/poc/ABC-ARIN/nets?showDetails=true"
    );
    assert_eq!(
        url_from_filter(&Filter::Organization("DROPB".to_string())),
        "http://whois.arin.net/rest/org/DROPB/nets?showDetails=true"
    );
}

#[test]
fn response_failures_keep_their_stage() {
    let parser = StdWhoisXmlParser::new();
    let http = HttpClientError::HttpError("HTTP Error: 404 Not Found".to_string());
    assert_eq!(resolve_response(&parser, Err(http.clone())), Err(QueryError::Http(http)));
    let r = resolve_response(&parser, Ok(b"{}".to_vec()));
    assert!(matches!(r, Err(QueryError::Parse(ParseError::XmlError(_)))));
    let ok = resolve_response(&parser, Ok(DOC_ONE.as_bytes().to_vec())).unwrap();
    assert_eq!(ok.ips.len(), 1);
}

#[test]
fn document_blank_marker_is_truncation() {
    let parser = StdWhoisXmlParser::new();
    for doc in [
        "<nets><limitExceeded/></nets>",
        "<nets><limitExceeded></limitExceeded></nets>",
        "<nets><limitExceeded> </limitExceeded></nets>",
        "<nets><limitExceeded>\n  </limitExceeded><netRef startAddress=\"1.0.0.0\" endAddress=\"1.0.0.9\"/></nets>",
        "<nets><limitExceeded> false</limitExceeded></nets>",
        "<nets><limitExceeded>fals</limitExceeded></nets>",
    ] {
        assert_eq!(parser.parse_content(doc.as_bytes()).unwrap_err(), ParseError::LimitExceeded, "{}", doc);
    }
}

#[test]
fn document_marker_with_child_still_checked() {
    let doc = "<nets><limitExceeded><x/>true</limitExceeded></nets>";
    assert_eq!(StdWhoisXmlParser::new().parse_content(doc.as_bytes()).unwrap_err(), ParseError::LimitExceeded);
}

#[test]
fn events_marker_text_split_over_events() {
    let mut evs = vec![start("nets", vec![]), start("limitExceeded", vec![])];
    evs.push(text("fal"));
    evs.push(XmlEvent::Comment);
    evs.push(text("se"));
    evs.push(end("limitExceeded"));
    evs.push(end("nets"));
    evs.push(XmlEvent::EndDocument);
    assert_eq!(parse_events(&evs).unwrap().ips.len(), 0);
    let short = vec![start("limitExceeded", vec![]), text("fal"), end("limitExceeded"), XmlEvent::EndDocument];
    assert_eq!(parse_events(&short).unwrap_err(), ParseError::LimitExceeded);
    let blank = vec![
        start("limitExceeded", vec![]),
        XmlEvent::Whitespace(" ".to_string()),
        end("limitExceeded"),
        XmlEvent::EndDocument,
    ];
    assert_eq!(parse_events(&blank).unwrap_err(), ParseError::LimitExceeded);
}

#[test]
fn error_messages_name_the_stage() {
    assert_eq!(ParseError::LimitExceeded.message(), "API result limit exceeded");
    assert_eq!(ParseError::UnexpectedCData.message(), "unexpected CDATA section");
    assert_eq!(ParseError::XmlError("1:1 bad".to_string()).message(), "1:1 bad");
    assert_eq!(QueryError::Parse(ParseError::LimitExceeded).message(), "XML Error: API result limit exceeded");
    assert_eq!(
        QueryError::Http(HttpClientError::Unknown("timed out".to_string())).message(),
        "HTTP Error: timed out"
    );
}
