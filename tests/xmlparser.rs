use whois_ranges::address::IpAddress;
use whois_ranges::model::ParseError;
use whois_ranges::xmlparser::{StdWhoisXmlParser, WhoisXmlParser};

// 162.125.0.0 and 162.125.255.255
const START: IpAddress = IpAddress::V4(0xA27D_0000);
const END: IpAddress = IpAddress::V4(0xA27D_FFFF);

#[test]
fn parse_content_empty() {
    let xml = "".as_bytes();
    let result = StdWhoisXmlParser::new().parse_content(xml);
    assert!(result.is_err());
}

#[test]
fn parse_content_invalid_xml() {
    let xml = "{}".as_bytes();
    let result = StdWhoisXmlParser::new().parse_content(xml);
    assert!(result.is_err());
}

#[test]
fn parse_content_empty_xml() {
    let xml = r#"<?xml version="1.0"?>
<?xml-stylesheet type='text/xsl' href='http://whois.arin.net/xsl/website.xsl' ?>
<nets xmlns="http://www.arin.net/whoisrws/core/v1" xmlns:ns2="http://www.arin.net/whoisrws/rdns/v1" xmlns:ns3="http://www.arin.net/whoisrws/netref/v2" inaccuracyReportUrl="https://www.arin.net/public/whoisinaccuracy/index.xhtml" termsOfUse="https://www.arin.net/whois_tou.html">
  <limitExceeded limit="256">false</limitExceeded>
</nets>
"#.as_bytes();
    let result = StdWhoisXmlParser::new().parse_content(xml);
    assert!(result.is_ok());
    let whois_result = result.unwrap();
    assert_eq!(whois_result.ips.len(), 0);
}

#[test]
fn parse_content_single() {
    let xml = r#"<?xml version="1.0"?>
<?xml-stylesheet type='text/xsl' href='http://whois.arin.net/xsl/website.xsl' ?>
<nets xmlns="http://www.arin.net/whoisrws/core/v1" xmlns:ns2="http://www.arin.net/whoisrws/rdns/v1" xmlns:ns3="http://www.arin.net/whoisrws/netref/v2" inaccuracyReportUrl="https://www.arin.net/public/whoisinaccuracy/index.xhtml" termsOfUse="https://www.arin.net/whois_tou.html">
  <limitExceeded limit="256">false</limitExceeded>
  <netRef endAddress="162.125.255.255" startAddress="162.125.0.0" handle="NET-162-125-0-0-1" name="DROPB">https://whois.arin.net/rest/net/NET-162-125-0-0-1</netRef>
</nets>
"#.as_bytes();
    let result = StdWhoisXmlParser::new().parse_content(xml);
    assert!(result.is_ok());
    let whois_result = result.unwrap();
    assert_eq!(whois_result.ips.len(), 1);
    let whois_ip_result = whois_result.ips.get(0).unwrap();
    assert_eq!(whois_ip_result.start_ip, START);
    assert_eq!(whois_ip_result.end_ip, END);
}

#[test]
fn parse_content_ipv4_and_ipv6() {
    let xml = r#"<?xml version="1.0"?>
<?xml-stylesheet type='text/xsl' href='http://whois.arin.net/xsl/website.xsl' ?>
<nets xmlns="http://www.arin.net/whoisrws/core/v1" xmlns:ns2="http://www.arin.net/whoisrws/rdns/v1" xmlns:ns3="http://www.arin.net/whoisrws/netref/v2" inaccuracyReportUrl="https://www.arin.net/public/whoisinaccuracy/index.xhtml" termsOfUse="https://www.arin.net/whois_tou.html">
  <limitExceeded limit="256">false</limitExceeded>
  <netRef endAddress="162.125.255.255" startAddress="162.125.0.0" handle="NET-162-125-0-0-1" name="DROPB">https://whois.arin.net/rest/net/NET-162-125-0-0-1</netRef>
  <netRef endAddress="162.125.255.255" startAddress="162.125.0.0" handle="NET-162-125-0-0-1" name="DROPB">https://whois.arin.net/rest/net/NET-162-125-0-0-1</netRef>
</nets>
"#.as_bytes();
    let result = StdWhoisXmlParser::new().parse_content(xml);
    assert!(result.is_ok());
    let whois_result = result.unwrap();
    assert_eq!(whois_result.ips.len(), 2);

    let whois_ip_result_0 = whois_result.ips.get(0).unwrap();
    assert_eq!(whois_ip_result_0.start_ip, START);
    assert_eq!(whois_ip_result_0.end_ip, END);

    let whois_ip_result_1 = whois_result.ips.get(1).unwrap();
    assert_eq!(whois_ip_result_1.start_ip, START);
    assert_eq!(whois_ip_result_1.end_ip, END);
}

#[test]
fn parse_content_invalid_ip() {
    let xml = r#"<?xml version="1.0"?>
<?xml-stylesheet type='text/xsl' href='http://whois.arin.net/xsl/website.xsl' ?>
<nets xmlns="http://www.arin.net/whoisrws/core/v1" xmlns:ns2="http://www.arin.net/whoisrws/rdns/v1" xmlns:ns3="http://www.arin.net/whoisrws/netref/v2" inaccuracyReportUrl="https://www.arin.net/public/whoisinaccuracy/index.xhtml" termsOfUse="https://www.arin.net/whois_tou.html">
  <limitExceeded limit="256">false</limitExceeded>
  <netRef endAddress="162.125.255.255" startAddress="dropbox.com" handle="NET-162-125-0-0-1" name="DROPB">https://whois.arin.net/rest/net/NET-162-125-0-0-1</netRef>
</nets>
"#.as_bytes();
    let result = StdWhoisXmlParser::new().parse_content(xml);
    assert!(result.is_err());
}

#[test]
fn parse_content_linit_exceeded() {
    let xml = r#"<?xml version="1.0"?>
<?xml-stylesheet type='text/xsl' href='http://whois.arin.net/xsl/website.xsl' ?>
<nets xmlns="http://www.arin.net/whoisrws/core/v1" xmlns:ns2="http://www.arin.net/whoisrws/rdns/v1" xmlns:ns3="http://www.arin.net/whoisrws/netref/v2" inaccuracyReportUrl="https://www.arin.net/public/whoisinaccuracy/index.xhtml" termsOfUse="https://www.arin.net/whois_tou.html">
  <limitExceeded limit="256">true</limitExceeded>
</nets>
"#.as_bytes();
    let result = StdWhoisXmlParser::new().parse_content(xml);
    assert!(result.is_err());
    assert_eq!(result.unwrap_err(), ParseError::LimitExceeded);
}
