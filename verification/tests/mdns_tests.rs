use naviarr::mdns::{dns_name, dns_read_u16, dns_skip_name, mdns_query, parse_mdns_response};

fn name(labels: &[&str]) -> Vec<u8> {
    let mut v = Vec::new();
    for l in labels {
        v.push(l.len() as u8);
        v.extend_from_slice(l.as_bytes());
    }
    v.push(0);
    v
}

fn record(owner: &[u8], rtype: u16, rdata: &[u8]) -> Vec<u8> {
    let mut v = owner.to_vec();
    v.extend_from_slice(&rtype.to_be_bytes());
    v.extend_from_slice(&[0x80, 0x01, 0, 0, 0x11, 0x94]);
    v.extend_from_slice(&(rdata.len() as u16).to_be_bytes());
    v.extend_from_slice(rdata);
    v
}

fn header(qd: u16, an: u16, ar: u16) -> Vec<u8> {
    let mut v = vec![0, 0, 0x84, 0];
    v.extend_from_slice(&qd.to_be_bytes());
    v.extend_from_slice(&an.to_be_bytes());
    v.extend_from_slice(&[0, 0]);
    v.extend_from_slice(&ar.to_be_bytes());
    v
}

#[test]
fn query_packet_layout() {
    let pkt = mdns_query("_googlecast._tcp.local.");
    let mut expected = vec![0u8, 0, 0, 0, 0, 1, 0, 0, 0, 0, 0, 0];
    expected.extend(name(&["_googlecast", "_tcp", "local"]));
    expected.extend_from_slice(&[0x00, 0x0C, 0x80, 0x01]);
    assert_eq!(pkt, expected);
}

#[test]
fn names_and_pointers() {
    let mut buf = vec![0xAAu8, 0xBB];
    buf.extend(name(&["host", "local"]));
    assert_eq!(dns_read_u16(&buf, 0), Some(0xAABB));
    assert_eq!(dns_read_u16(&buf, buf.len() - 1), None);
    assert_eq!(dns_name(&buf, 2), Some(("host.local".to_string(), 14)));
    let ptr_at = buf.len();
    buf.extend_from_slice(&[3, b'w', b'w', b'w', 0xC0, 2]);
    assert_eq!(dns_name(&buf, ptr_at), Some(("www.host.local".to_string(), ptr_at + 6)));
    assert_eq!(dns_skip_name(&buf, ptr_at), Some(ptr_at + 6));
    assert_eq!(dns_name(&[5, b'a'], 0), None);
    assert_eq!(dns_name(&[0xC0, 0], 0), None);
}

#[test]
fn chromecast_answer() {
    let instance = name(&["Living Room", "_googlecast", "_tcp", "local"]);
    let target = name(&["host", "local"]);
    let mut srv = vec![0, 0, 0, 0, 0x1F, 0x49];
    srv.extend(target.clone());
    let mut txt = Vec::new();
    for s in ["id=abc", "fn=Kitchen Speaker"] {
        txt.push(s.len() as u8);
        txt.extend_from_slice(s.as_bytes());
    }
    let mut pkt = header(0, 1, 2);
    pkt.extend(record(&instance, 33, &srv));
    pkt.extend(record(&instance, 16, &txt));
    pkt.extend(record(&target, 1, &[192, 168, 1, 5]));
    let found = parse_mdns_response(&pkt, (10, 0, 0, 9));
    assert_eq!(found, vec![("Kitchen Speaker".to_string(), "192.168.1.5".to_string(), 8009)]);
}

#[test]
fn answer_without_name_or_address() {
    let instance = name(&["Living Room", "_googlecast", "_tcp", "local"]);
    let mut srv = vec![0, 0, 0, 0, 0x1F, 0x49];
    srv.extend(name(&["other", "local"]));
    let mut pkt = header(1, 1, 0);
    pkt.extend(name(&["_googlecast", "_tcp", "local"]));
    pkt.extend_from_slice(&[0, 12, 0, 1]);
    pkt.extend(record(&instance, 33, &srv));
    let found = parse_mdns_response(&pkt, (10, 0, 0, 9));
    assert_eq!(found, vec![("Living Room".to_string(), "10.0.0.9".to_string(), 8009)]);
    assert!(parse_mdns_response(&[0, 1, 2], (1, 2, 3, 4)).is_empty());
}

#[test]
fn query_name_reads_back() {
    let pkt = mdns_query("_googlecast._tcp.local.");
    let (name, end) = dns_name(&pkt, 12).unwrap();
    assert_eq!(name, "_googlecast._tcp.local");
    assert_eq!(end, pkt.len() - 4);
}
