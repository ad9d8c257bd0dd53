use wmde_files::network_discovery::DeviceKind;
use wmde_files::wsd::dechunk;
use wmde_files::wsd::extract_friendly_name;
use wmde_files::wsd::friendly_name_from_response;
use wmde_files::wsd::get_request;
use wmde_files::wsd::message_id;
use wmde_files::wsd::parse_probe_match;
use wmde_files::wsd::pick_http_xaddr;
use wmde_files::wsd::responder_device;
use wmde_files::wsd::split_http_url;
use wmde_files::wsd::wsd_get_envelope;
use wmde_files::wsd::wsd_probe_envelope;
use wmde_files::wsd::Responders;
use wmde_files::wsd::friendly_name_from_nodes;
use wmde_files::wsd::headers_chunked;
use wmde_files::wsd::probe_match_from_nodes;
use wmde_files::wsd::split_response;
use wmde_files::wsd::XmlNode;

fn element(name: &str, text: Option<&str>) -> XmlNode {
    XmlNode { is_element: true, name: name.to_string(), text: text.map(|t| t.to_string()) }
}

fn chars(s: &str) -> Vec<char> {
    s.chars().collect()
}

const PROBE_MATCH: &str = r#"<?xml version="1.0" encoding="utf-8"?><soap:Envelope xmlns:soap="http://www.w3.org/2003/05/soap-envelope" xmlns:wsd="http://schemas.xmlsoap.org/ws/2005/04/discovery"><soap:Body><wsd:ProbeMatches><wsd:ProbeMatch><wsd:Types>wsdp:Device wprt:PrintDeviceType wscn:ScanDeviceType</wsd:Types><wsd:XAddrs>http://[fe80::1]:5357/abc http://192.168.1.30:5357/abc</wsd:XAddrs></wsd:ProbeMatch></wsd:ProbeMatches></soap:Body></soap:Envelope>"#;

const SCANNER_MATCH: &str = r#"<?xml version="1.0"?><e xmlns:wsd="urn:d"><wsd:Types>wscn:ScanDeviceType</wsd:Types></e>"#;

const METADATA: &str = r#"<?xml version="1.0"?><m xmlns:wsdp="urn:p"><wsdp:ThisDevice><wsdp:FriendlyName>  Office Printer  </wsdp:FriendlyName></wsdp:ThisDevice></m>"#;

#[test]
fn the_probe_carries_its_message_id() {
    let probe = wsd_probe_envelope("urn:uuid:1");
    let expected = format!(
        r#"<?xml version="1.0" encoding="utf-8"?>
<soap:Envelope xmlns:soap="http://www.w3.org/2003/05/soap-envelope" xmlns:wsa="http://schemas.xmlsoap.org/ws/2004/08/addressing" xmlns:wsd="http://schemas.xmlsoap.org/ws/2005/04/discovery">
<soap:Header>
<wsa:To>urn:schemas-xmlsoap-org:ws:2005:04:discovery</wsa:To>
<wsa:Action>http://schemas.xmlsoap.org/ws/2005/04/discovery/Probe</wsa:Action>
<wsa:MessageID>{}</wsa:MessageID>
</soap:Header>
<soap:Body><wsd:Probe/></soap:Body>
</soap:Envelope>"#,
        "urn:uuid:1"
    );
    assert_eq!(probe, expected);
}

#[test]
fn the_get_carries_its_message_id() {
    let get = wsd_get_envelope("urn:uuid:2");
    let expected = format!(
        r#"<?xml version="1.0" encoding="utf-8"?>
<soap:Envelope xmlns:soap="http://www.w3.org/2003/05/soap-envelope" xmlns:wsa="http://schemas.xmlsoap.org/ws/2004/08/addressing" xmlns:wst="http://schemas.xmlsoap.org/ws/2004/09/transfer">
<soap:Header>
<wsa:Action>http://schemas.xmlsoap.org/ws/2004/09/transfer/Get</wsa:Action>
<wsa:MessageID>{}</wsa:MessageID>
</soap:Header>
<soap:Body/>
</soap:Envelope>"#,
        "urn:uuid:2"
    );
    assert_eq!(get, expected);
}

#[test]
fn message_ids_are_uuid_shaped() {
    assert_eq!(
        message_id(0x0123_4567_89ab_cdef, 5, 42),
        "urn:uuid:01234567-cdef-4005-802a-45678b0bc8ef"
    );
    assert_eq!(message_id(0, 0, 0), "urn:uuid:00000000-0000-4000-8000-000000000000");
}

#[test]
fn urls_split_into_authority_and_path() {
    assert_eq!(
        split_http_url("http://192.168.1.9:5357/abc"),
        Some(("192.168.1.9:5357".to_string(), "/abc".to_string()))
    );
    assert_eq!(split_http_url("https://host"), Some(("host:443".to_string(), "/".to_string())));
    assert_eq!(split_http_url("http://h/a/b"), Some(("h:80".to_string(), "/a/b".to_string())));
    assert_eq!(split_http_url("ftp://x/"), None);
}

#[test]
fn an_ipv6_host_gets_the_scheme_port() {
    assert_eq!(
        split_http_url("http://[fe80::1]/x"),
        Some(("[fe80::1]:80".to_string(), "/x".to_string()))
    );
    assert_eq!(
        split_http_url("https://[fe80::1]:5358/x"),
        Some(("[fe80::1]:5358".to_string(), "/x".to_string()))
    );
    assert_eq!(
        split_http_url("https://[::1]"),
        Some(("[::1]:443".to_string(), "/".to_string()))
    );
}

#[test]
fn the_request_counts_bytes() {
    let request = get_request("/dev", "10.0.0.1:5357", "<é/>");
    assert_eq!(
        request,
        "POST /dev HTTP/1.1\r\nHost: 10.0.0.1:5357\r\nContent-Type: application/soap+xml; charset=utf-8\r\nContent-Length: 5\r\nConnection: close\r\n\r\n<é/>"
    );
}

#[test]
fn an_http_address_is_preferred() {
    assert_eq!(
        pick_http_xaddr(" urn:x http://[fe80::1]/ http://10.0.0.1:5357/dev "),
        Some("http://10.0.0.1:5357/dev".to_string())
    );
    assert_eq!(pick_http_xaddr("urn:a urn:b"), Some("urn:a".to_string()));
    assert_eq!(pick_http_xaddr("  \t "), None);
}

#[test]
fn a_print_and_scan_device_is_a_printer() {
    let (xaddr, kind) = parse_probe_match(PROBE_MATCH);
    assert_eq!(xaddr, Some("http://192.168.1.30:5357/abc".to_string()));
    assert_eq!(kind, DeviceKind::Printer);
    assert_eq!(parse_probe_match(SCANNER_MATCH), (None, DeviceKind::Scanner));
}

#[test]
fn an_unreadable_probe_match_is_a_computer() {
    assert_eq!(parse_probe_match("not xml <"), (None, DeviceKind::Computer));
}

#[test]
fn the_friendly_name_is_trimmed() {
    assert_eq!(extract_friendly_name(METADATA), Some("Office Printer".to_string()));
    assert_eq!(extract_friendly_name("<m><FriendlyName> </FriendlyName></m>"), None);
    assert_eq!(extract_friendly_name("<m/>"), None);
}

#[test]
fn chunked_bodies_are_decoded() {
    let body: Vec<char> = "4\r\nWiki\r\n5;ext=1\r\npedia\r\n0\r\n\r\n".chars().collect();
    let decoded: String = dechunk(&body).unwrap().into_iter().collect();
    assert_eq!(decoded, "Wikipedia");
    let bad: Vec<char> = "zz\r\nWiki\r\n".chars().collect();
    assert_eq!(dechunk(&bad), Some(Vec::new()));
    // Sizes count bytes: "é" takes two.
    let wide: Vec<char> = "3\r\naé\r\n0\r\n\r\n".chars().collect();
    let decoded: String = dechunk(&wide).unwrap().into_iter().collect();
    assert_eq!(decoded, "aé");
    // A size that ends inside a character.
    let cut: Vec<char> = "2\r\naé\r\n".chars().collect();
    assert_eq!(dechunk(&cut), None);
}

#[test]
fn the_answer_to_the_get_names_the_device() {
    let plain = format!("HTTP/1.1 200 OK\r\nContent-Type: application/soap+xml\r\n\r\n{METADATA}");
    assert_eq!(
        friendly_name_from_response(plain.as_bytes()),
        Ok(Some("Office Printer".to_string()))
    );
    let (a, b) = METADATA.split_at(40);
    let chunked = format!(
        "HTTP/1.1 200 OK\r\nTransfer-Encoding: Chunked\r\n\r\n{:x}\r\n{a}\r\n{:x}\r\n{b}\r\n0\r\n\r\n",
        a.len(),
        b.len()
    );
    assert_eq!(
        friendly_name_from_response(chunked.as_bytes()),
        Ok(Some("Office Printer".to_string()))
    );
    assert_eq!(friendly_name_from_response(b"HTTP/1.1 200 OK\r\n"), Ok(None));
    assert!(friendly_name_from_response(
        "HTTP/1.1 200 OK\r\ntransfer-encoding: chunked\r\n\r\n2\r\naé\r\n".as_bytes()
    )
    .is_err());
}

#[test]
fn responders_keep_the_first_url_and_the_specific_kind() {
    let mut responders = Responders::new();
    responders.record("10.0.0.7".to_string(), b"<not xml");
    responders.record("10.0.0.7".to_string(), PROBE_MATCH.as_bytes());
    responders.record("10.0.0.7".to_string(), SCANNER_MATCH.as_bytes());
    responders.record("10.0.0.2".to_string(), SCANNER_MATCH.as_bytes());
    let list = responders.into_list();
    assert_eq!(
        list,
        vec![
            ("10.0.0.2".to_string(), None, DeviceKind::Scanner),
            (
                "10.0.0.7".to_string(),
                Some("http://192.168.1.30:5357/abc".to_string()),
                DeviceKind::Printer
            ),
        ]
    );
}

#[test]
fn a_blank_friendly_name_falls_back_to_the_address() {
    let d = responder_device("10.0.0.7".to_string(), DeviceKind::Printer, Some("  ".to_string()));
    assert_eq!(d.name, "10.0.0.7");
    assert_eq!(d.addr, "10.0.0.7");
    let d = responder_device("10.0.0.7".to_string(), DeviceKind::Printer, Some("Laser".to_string()));
    assert_eq!(d.name, "Laser");
    let d = responder_device("10.0.0.8".to_string(), DeviceKind::Computer, None);
    assert_eq!(d.name, "10.0.0.8");
}

#[test]
fn the_nodes_of_a_probe_match_give_url_and_kind() {
    let nodes = vec![
        element("Envelope", None),
        XmlNode { is_element: false, name: String::new(), text: Some("x".to_string()) },
        element("Types", Some("wsdp:Device wscn:ScanDeviceType")),
        element("XAddrs", Some("http://[fe80::2]:5357/a http://10.0.0.4:5357/a")),
        element("XAddrs", Some("http://10.0.0.9/ignored")),
    ];
    let (url, kind) = probe_match_from_nodes(&nodes);
    assert_eq!(url.as_deref(), Some("http://10.0.0.4:5357/a"));
    assert_eq!(kind, DeviceKind::Scanner);
    assert_eq!(probe_match_from_nodes(&Vec::new()), (None, DeviceKind::Computer));
}

#[test]
fn the_first_friendly_name_node_is_read() {
    let nodes = vec![
        element("Model", Some("M")),
        element("FriendlyName", Some("  Office printer \n")),
        element("FriendlyName", Some("Other")),
    ];
    assert_eq!(friendly_name_from_nodes(&nodes).as_deref(), Some("Office printer"));
    let blank = vec![element("FriendlyName", Some("   ")), element("FriendlyName", Some("Later"))];
    assert_eq!(friendly_name_from_nodes(&blank), None);
}

#[test]
fn a_decoded_answer_is_split_at_its_blank_line() {
    assert_eq!(split_response(&chars("HTTP/1.1 200 OK\r\nA: b")), Ok(None));
    assert_eq!(
        split_response(&chars("HTTP/1.1 200 OK\r\n\r\n<x/>\r\n\r\nmore")),
        Ok(Some(chars("<x/>\r\n\r\nmore")))
    );
    assert_eq!(
        split_response(&chars("HTTP/1.1 200 OK\r\nTRANSFER-ENCODING: Chunked\r\n\r\n3\r\nabc\r\n0\r\n\r\n")),
        Ok(Some(chars("abc")))
    );
    assert!(headers_chunked(&chars("HTTP/1.1 200 OK\r\ntransfer-encoding: chunked")));
    assert!(!headers_chunked(&chars("HTTP/1.1 200 OK\r\nX-Note: transfer-encoding: chunked")));
}

#[test]
fn message_ids_of_successive_counters_differ() {
    let nanos = 0x0123_4567_89ab_cdef;
    let ids: Vec<String> = (0..4096u64).map(|n| message_id(nanos, n, 7)).collect();
    for (i, a) in ids.iter().enumerate() {
        assert_eq!(a.len(), 45);
        assert_eq!(&a[23..24], "4");
        assert!(matches!(&a[28..29], "8" | "9" | "a" | "b"));
        if i + 1 < ids.len() {
            assert_ne!(a, &ids[i + 1]);
        }
    }
    let mut sorted = ids.clone();
    sorted.sort();
    sorted.dedup();
    assert_eq!(sorted.len(), 4096);
}
