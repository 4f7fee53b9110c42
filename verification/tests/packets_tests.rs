use hcxmap::packets::{
    extract_mac, freq_to_channel, group_packets_by_mac, parse_management_frame_body,
    parse_wifi_packet, parse_wifi_security, Packet, WifiSecurity,
};
use hcxmap::geo::Position;

const MAC: [u8; 6] = [0x00, 0x11, 0x22, 0x33, 0x44, 0x55];

/// A beacon frame body: 802.11 header (24 bytes, AP address in
/// 10..16), fixed parameters, a capability field, then tagged elements.
fn beacon_wlan(privacy: bool, elements: &[u8]) -> Vec<u8> {
    let mut w = vec![0u8; 24];
    w[0] = 0x80; // management, subtype 8 (beacon)
    w[1] = 0x00;
    w[10..16].copy_from_slice(&MAC);
    w.extend_from_slice(&[0u8; 8]); // timestamp
    w.extend_from_slice(&[0x64, 0x00]); // beacon interval
    let cap: u16 = if privacy { 0x0010 } else { 0x0000 };
    w.extend_from_slice(&cap.to_le_bytes());
    w.extend_from_slice(elements);
    w
}

fn rsn_element(akm_suite_bytes: &[u8]) -> Vec<u8> {
    // version, group cipher, one pairwise suite, then the AKM suites
    let mut data = vec![0x01, 0x00];
    data.extend_from_slice(&[0x00, 0x0f, 0xac, 0x04]);
    data.extend_from_slice(&[0x01, 0x00]);
    data.extend_from_slice(&[0x00, 0x0f, 0xac, 0x04]);
    let count = (akm_suite_bytes.len() / 4) as u8;
    data.extend_from_slice(&[count, 0x00]);
    data.extend_from_slice(akm_suite_bytes);
    let mut el = vec![48u8, data.len() as u8];
    el.extend_from_slice(&data);
    el
}

#[test]
fn freq_to_channel_known_mappings() {
    assert_eq!(freq_to_channel(2412), Some(1));
    assert_eq!(freq_to_channel(2484), Some(14));
    assert_eq!(freq_to_channel(5180), Some(36));
    assert_eq!(freq_to_channel(5825), Some(165));
    assert_eq!(freq_to_channel(2500), None);
}

#[test]
fn extract_mac_copies_six_bytes() {
    let bytes = [1u8, 2, 3, 4, 5, 6];
    assert_eq!(extract_mac(&bytes), [1, 2, 3, 4, 5, 6]);
}

#[test]
fn ssid_element_is_decoded() {
    // body: 12 fixed bytes, then an unrelated element, then the SSID
    let mut body = vec![0u8; 12];
    body.extend_from_slice(&[3, 1, 0x07]); // some other tag
    body.extend_from_slice(&[0, 4, b't', b'e', b's', b't']);
    assert_eq!(parse_management_frame_body(&body), Some("test".to_string()));
}

#[test]
fn ssid_overrun_element_stops_walk() {
    let mut body = vec![0u8; 12];
    body.extend_from_slice(&[0, 200, b'x']); // declared length overruns
    assert_eq!(parse_management_frame_body(&body), None);
}

#[test]
fn ssid_invalid_utf8_is_rejected() {
    let mut body = vec![0u8; 12];
    body.extend_from_slice(&[0, 2, 0xff, 0xfe]);
    assert_eq!(parse_management_frame_body(&body), None);
}

#[test]
fn ssid_empty_element_keeps_walking() {
    let mut body = vec![0u8; 12];
    body.extend_from_slice(&[0, 0]); // empty SSID element: skipped
    body.extend_from_slice(&[0, 2, b'h', b'i']);
    assert_eq!(parse_management_frame_body(&body), Some("hi".to_string()));
}

#[test]
fn security_privacy_clear_is_open() {
    // even with an RSN element present, a clear privacy bit means Open
    let mut body = vec![0u8; 12];
    body.extend_from_slice(&rsn_element(&[0x00, 0x0f, 0xac, 0x02]));
    assert_eq!(parse_wifi_security(&body, 0x0000), WifiSecurity::Open);
}

#[test]
fn security_rsn_psk_is_wpa2() {
    let mut body = vec![0u8; 12];
    body.extend_from_slice(&rsn_element(&[0x00, 0x0f, 0xac, 0x02]));
    assert_eq!(parse_wifi_security(&body, 0x0010), WifiSecurity::WPA2);
}

#[test]
fn security_rsn_sae_is_wpa3() {
    let mut body = vec![0u8; 12];
    body.extend_from_slice(&rsn_element(&[0x00, 0x0f, 0xac, 0x08]));
    assert_eq!(parse_wifi_security(&body, 0x0010), WifiSecurity::WPA3);
}

#[test]
fn security_rsn_psk_and_sae_is_transition_mode() {
    let mut body = vec![0u8; 12];
    body.extend_from_slice(&rsn_element(&[0x00, 0x0f, 0xac, 0x02, 0x00, 0x0f, 0xac, 0x08]));
    assert_eq!(parse_wifi_security(&body, 0x0010), WifiSecurity::WPA2WPA3);
}

#[test]
fn security_privacy_without_elements_is_wep() {
    let body = vec![0u8; 12];
    assert_eq!(parse_wifi_security(&body, 0x0010), WifiSecurity::WEP);
}

#[test]
fn security_vendor_wpa_marker() {
    let mut body = vec![0u8; 12];
    body.extend_from_slice(&[221, 8, 0x00, 0x50, 0xf2, 0x01, 0x01, 0x00, 0x00, 0x50]);
    assert_eq!(parse_wifi_security(&body, 0x0010), WifiSecurity::WPA);
}

#[test]
fn security_short_body_is_unknown() {
    assert_eq!(parse_wifi_security(&[0u8; 4], 0x0010), WifiSecurity::Unknown);
}

#[test]
fn beacon_packet_decodes_address_ssid_security_and_signal() {
    // radiotap: version 0, length 9, antenna-signal present, -40 dBm
    let mut data = vec![0u8, 0, 9, 0, 0x20, 0, 0, 0, 0xd8];
    let mut elements = vec![0u8, 4, b'm', b'i', b'n', b'e'];
    elements.extend_from_slice(&rsn_element(&[0x00, 0x0f, 0xac, 0x02]));
    data.extend_from_slice(&beacon_wlan(true, &elements));
    let p = parse_wifi_packet(&data, 1234).expect("beacon should decode");
    assert_eq!(p.timestamp, 1234);
    assert_eq!(p.source_address, Some(MAC));
    assert_eq!(p.ssid, Some("mine".to_string()));
    assert_eq!(p.signal_strength, Some(-40));
    assert_eq!(p.security, Some(WifiSecurity::WPA2));
}

#[test]
fn channel_is_mapped_from_radiotap_frequency() {
    // radiotap: length 12, channel present, 2437 MHz
    let mut data = vec![0u8, 0, 12, 0, 0x08, 0, 0, 0, 0x85, 0x09, 0x00, 0x00];
    data.extend_from_slice(&beacon_wlan(false, &[]));
    let p = parse_wifi_packet(&data, 0).expect("beacon should decode");
    assert_eq!(p.channel, Some(6));
    assert_eq!(p.security, Some(WifiSecurity::Open));
}

#[test]
fn data_frame_to_ds_takes_address_from_bytes_4_to_10() {
    let mut data = vec![0u8, 0, 8, 0, 0, 0, 0, 0];
    let mut w = vec![0u8; 24];
    w[0] = 0x08; // data frame
    w[1] = 0x01; // to-DS set
    w[4..10].copy_from_slice(&MAC);
    data.extend_from_slice(&w);
    let p = parse_wifi_packet(&data, 0).expect("data frame should decode");
    assert_eq!(p.source_address, Some(MAC));
    assert_eq!(p.ssid, None);
}

#[test]
fn data_frame_from_ds_takes_address_from_bytes_10_to_16() {
    let mut data = vec![0u8, 0, 8, 0, 0, 0, 0, 0];
    let mut w = vec![0u8; 24];
    w[0] = 0x08;
    w[1] = 0x02; // from-DS set
    w[10..16].copy_from_slice(&MAC);
    data.extend_from_slice(&w);
    let p = parse_wifi_packet(&data, 0).expect("data frame should decode");
    assert_eq!(p.source_address, Some(MAC));
}

#[test]
fn data_frame_both_ds_bits_is_undecodable() {
    let mut data = vec![0u8, 0, 8, 0, 0, 0, 0, 0];
    let mut w = vec![0u8; 24];
    w[0] = 0x08;
    w[1] = 0x03; // to-DS and from-DS
    data.extend_from_slice(&w);
    assert!(parse_wifi_packet(&data, 0).is_none());
}

#[test]
fn truncated_frame_is_rejected() {
    let data = vec![0u8, 0, 8, 0, 0, 0, 0, 0, 0x80, 0x00];
    assert!(parse_wifi_packet(&data, 0).is_none());
}

#[test]
fn unknown_management_subtype_is_rejected() {
    let mut data = vec![0u8, 0, 8, 0, 0, 0, 0, 0];
    let mut w = vec![0u8; 24];
    w[0] = 0x40; // probe request (subtype 4): not decodable
    data.extend_from_slice(&w);
    assert!(parse_wifi_packet(&data, 0).is_none());
}

fn packet(mac: Option<[u8; 6]>, rssi: Option<i8>, ts: i64, ssid: Option<&str>) -> Packet {
    Packet {
        timestamp: ts,
        source_address: mac,
        ssid: ssid.map(|s| s.to_string()),
        signal_strength: rssi,
        channel: None,
        security: None,
    }
}

#[test]
fn grouping_collects_observations_per_mac() {
    let track = vec![
        Position { lat_e7: 0, lon_e7: 0, timestamp: 0 },
        Position { lat_e7: 10_000_000, lon_e7: 0, timestamp: 10 },
    ];
    let other: [u8; 6] = [9, 9, 9, 9, 9, 9];
    let packets = vec![
        packet(Some(MAC), Some(-40), 2, None),
        packet(Some(other), Some(-70), 4, Some("other-net")),
        packet(Some(MAC), Some(-50), 6, Some("mine")),
        packet(None, Some(-30), 6, None),    // no address: dropped
        packet(Some(MAC), None, 6, None),    // no signal: dropped
        packet(Some(MAC), Some(-45), 99, None), // no GPS coverage: dropped
    ];
    let aps = group_packets_by_mac(&packets, &track);
    assert_eq!(aps.len(), 2);
    assert_eq!(aps[0].mac, MAC);
    assert_eq!(aps[0].observations.len(), 2);
    // the SSID arrived with the second packet and was backfilled
    assert_eq!(aps[0].ssid, Some("mine".to_string()));
    assert_eq!(aps[0].observations[0].position.lat_e7, 2_000_000);
    assert_eq!(aps[0].observations[1].position.lat_e7, 6_000_000);
    assert_eq!(aps[1].mac, other);
    assert_eq!(aps[1].ssid, Some("other-net".to_string()));
}

#[test]
fn security_label_text() {
    assert_eq!(WifiSecurity::WPA2WPA3.label(), "WPA2/WPA3");
    assert_eq!(WifiSecurity::Open.label(), "Open");
}

#[test]
fn short_beacon_has_address_but_no_elements() {
    // a 24-byte beacon: too short for capability field and elements
    let mut data = vec![0u8, 0, 8, 0, 0, 0, 0, 0];
    let mut w = vec![0u8; 24];
    w[0] = 0x80;
    w[10..16].copy_from_slice(&MAC);
    data.extend_from_slice(&w);
    let p = parse_wifi_packet(&data, 0).expect("short beacon should decode");
    assert_eq!(p.source_address, Some(MAC));
    assert_eq!(p.ssid, None);
    assert_eq!(p.security, None);
}

#[test]
fn association_response_takes_address_only() {
    let mut data = vec![0u8, 0, 8, 0, 0, 0, 0, 0];
    let mut w = vec![0u8; 40];
    w[0] = 0x10; // management, subtype 1 (association response)
    w[10..16].copy_from_slice(&MAC);
    data.extend_from_slice(&w);
    let p = parse_wifi_packet(&data, 0).expect("association response should decode");
    assert_eq!(p.source_address, Some(MAC));
    assert_eq!(p.ssid, None);
    assert_eq!(p.security, None);
}

#[test]
fn vendor_namespace_record_is_rejected() {
    // version 0, declared length 14, one presence word with the
    // vendor-namespace bit set, then a six-byte vendor field whose
    // skip length runs far past the record
    let mut data = vec![0u8, 0, 14, 0, 0x00, 0x00, 0x00, 0x40];
    data.extend_from_slice(&[0x00, 0x50, 0xf2, 0x01, 0xff, 0xff]);
    data.extend_from_slice(&[0u8; 24]); // enough bytes for an 802.11 header
    assert!(parse_wifi_packet(&data, 0).is_none());
}

#[test]
fn extended_presence_chain_without_vendor_bit_decodes() {
    // two presence words: the first carries the antenna-signal bit and
    // extends the chain (bit 31), the second ends it; the signal byte
    // follows the 12-byte header
    let mut data = vec![0u8, 0, 13, 0, 0x20, 0x00, 0x00, 0x80, 0x00, 0x00, 0x00, 0x00, 0xce];
    data.extend_from_slice(&beacon_wlan(false, &[]));
    let p = parse_wifi_packet(&data, 0).expect("record should decode");
    assert_eq!(p.signal_strength, Some(-50));
}

#[test]
fn security_vendor_wpa_marker_minimal_element() {
    // the four OUI/sub-type bytes alone mark WPA
    let mut body = vec![0u8; 12];
    body.extend_from_slice(&[221, 4, 0x00, 0x50, 0xf2, 0x01]);
    assert_eq!(parse_wifi_security(&body, 0x0010), WifiSecurity::WPA);
}

#[test]
fn long_presence_chain_record_is_rejected() {
    // version 0, declared length 40, eight presence words that only
    // extend the chain, then a ninth with a field bit: the parser's
    // eight-bit field numbering cannot reach it
    let mut data = vec![0u8, 0, 40, 0];
    for _ in 0..8 {
        data.extend_from_slice(&[0x00, 0x00, 0x00, 0x80]);
    }
    data.extend_from_slice(&[0x01, 0x00, 0x00, 0x00]);
    data.extend_from_slice(&[0u8; 24]); // enough bytes for an 802.11 header
    assert!(parse_wifi_packet(&data, 0).is_none());
}

#[test]
fn namespace_reset_keeps_chain_decodable() {
    // eight extending words, a reset word (bit 29), then the signal
    // word: the reset restarts the field numbering, so the record is
    // safe and still decodes
    let mut data = vec![0u8, 0, 45, 0];
    for _ in 0..8 {
        data.extend_from_slice(&[0x00, 0x00, 0x00, 0x80]);
    }
    data.extend_from_slice(&[0x00, 0x00, 0x00, 0xa0]); // reset, extend
    data.extend_from_slice(&[0x20, 0x00, 0x00, 0x00]); // antenna signal
    data.push(0xd8);
    data.extend_from_slice(&beacon_wlan(false, &[]));
    let p = parse_wifi_packet(&data, 0).expect("reset chain should decode");
    assert_eq!(p.signal_strength, Some(-40));
}
