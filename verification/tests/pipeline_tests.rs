use hcxmap::geo::{rssi_to_distance, Observation, Position};
use hcxmap::hashcat::{
    bind_passwords_to_aps, collect_passwords, parse_22000_line, parse_22000_lines,
    parse_hashcat_show_line, parse_security_from_eapol, APPassword,
};
use hcxmap::mac::{bind_vendors_to_aps, lookup};
use hcxmap::packets::WifiSecurity;
use hcxmap::text::{parse_mac_lenient, parse_mac_strict, split_str, str_contains, str_eq};
use hcxmap::{
    estimate_position, merge_optional, observation_count_stats, AccessPoint, PositionMethod,
};

const MAC: [u8; 6] = [0xaa, 0xbb, 0xcc, 0xdd, 0xee, 0xff];

fn obs(lat_e7: i64, lon_e7: i64, ts: i64, rssi: i8) -> Observation {
    Observation {
        position: Position { lat_e7, lon_e7, timestamp: ts },
        signal_strength: rssi,
        distance_mm: rssi_to_distance(rssi),
    }
}

fn ap(mac: [u8; 6], ssid: Option<&str>, observations: Vec<Observation>) -> AccessPoint {
    AccessPoint {
        mac,
        ssid: ssid.map(|s| s.to_string()),
        observations,
        estimated_position: None,
        position_method: None,
        security: None,
        channel: None,
        vendor: None,
        password: None,
    }
}

#[test]
fn estimator_single_observation_returns_it_verbatim() {
    let observations = vec![obs(123, 456, 7, -50)];
    let (p, m) = estimate_position(&observations).unwrap();
    assert_eq!(m, PositionMethod::Single);
    assert_eq!((p.lat_e7, p.lon_e7, p.timestamp), (123, 456, 7));
    assert_eq!(m.label(), "single");
}

#[test]
fn estimator_two_observations_use_weighted_centroid() {
    let observations = vec![obs(10, 20, 1, -50), obs(30, 40, 2, -50)];
    let (p, m) = estimate_position(&observations).unwrap();
    assert_eq!(m, PositionMethod::WeightedCentroid);
    assert_eq!((p.lat_e7, p.lon_e7), (20, 30));
    assert_eq!(m.label(), "weighted_centroid");
}

#[test]
fn estimator_three_observations_use_trilateration() {
    let observations = vec![
        obs(0, 0, 1, -40),
        obs(20_000, 0, 2, -50),
        obs(0, 20_000, 3, -60),
    ];
    let (p, m) = estimate_position(&observations).unwrap();
    assert_eq!(m, PositionMethod::Trilateration);
    assert_eq!(m.label(), "trilateration");
    // the initial estimate lies inside the triangle of observations
    assert!(p.lat_e7 > 0 && p.lat_e7 < 20_000);
    assert!(p.lon_e7 > 0 && p.lon_e7 < 20_000);
}

#[test]
fn estimator_no_observations_no_estimate() {
    assert!(estimate_position(&vec![]).is_none());
}

#[test]
fn merge_optional_keeps_set_value() {
    assert_eq!(merge_optional(Some(1), Some(2)), Some(1));
    assert_eq!(merge_optional(None, Some(2)), Some(2));
    assert_eq!(merge_optional::<u8>(None, None), None);
}

#[test]
fn observation_stats_counts() {
    let aps = vec![
        ap(MAC, None, vec![obs(0, 0, 1, -40)]),
        ap([1; 6], None, vec![obs(0, 0, 1, -40), obs(1, 1, 2, -50)]),
        ap([2; 6], None, vec![]),
        ap([3; 6], None, vec![obs(0, 0, 1, -40); 3]),
    ];
    assert_eq!(observation_count_stats(&aps), (1, 1, 2));
}

#[test]
fn eapol_suite_detection() {
    assert_eq!(parse_security_from_eapol("xx000fac08yy"), WifiSecurity::WPA3);
    assert_eq!(parse_security_from_eapol("xx000fac0cyy"), WifiSecurity::WPA3);
    assert_eq!(parse_security_from_eapol("xx000fac02yy"), WifiSecurity::WPA2);
    assert_eq!(parse_security_from_eapol("xx000fac01yy"), WifiSecurity::WPA);
    assert_eq!(parse_security_from_eapol("xx0050f202yy"), WifiSecurity::WPA);
    assert_eq!(parse_security_from_eapol("nothing"), WifiSecurity::WPA2);
}

#[test]
fn hash_line_eapol_record() {
    let line = "WPA*02*pmkid*aabbccddeeff*112233445566*4d696e65*anonce*000fac08data*02";
    let (mac, sec) = parse_22000_line(line).unwrap();
    assert_eq!(mac, MAC);
    assert_eq!(sec, WifiSecurity::WPA3);
}

#[test]
fn hash_line_pmkid_record_assumes_wpa2() {
    let line = "WPA*01*pmkid*aabbccddeeff*112233445566*4d696e65";
    let (mac, sec) = parse_22000_line(line).unwrap();
    assert_eq!(mac, MAC);
    assert_eq!(sec, WifiSecurity::WPA2);
}

#[test]
fn hash_line_rejects_malformed() {
    assert!(parse_22000_line("not a hash line").is_none());
    assert!(parse_22000_line("WPA*01*x").is_none());
    assert!(parse_22000_line("WPA2*01*pmkid*aabbccddeeff*1*2").is_none());
    assert!(parse_22000_line("WPA*01*pmkid*zzbbccddeeff*1*2").is_none());
    assert!(parse_22000_line("WPA*01*pmkid*aabbccddee*1*2").is_none());
}

#[test]
fn hash_lines_skip_unparseable() {
    let lines = vec![
        "WPA*01*p*aabbccddeeff*1*2".to_string(),
        "garbage".to_string(),
        "WPA*02*p*aabbccddeeff*1*2*a*000fac08*9".to_string(),
    ];
    let entries = parse_22000_lines(&lines);
    assert_eq!(entries.len(), 2);
    assert_eq!(entries[0], (MAC, WifiSecurity::WPA2));
    assert_eq!(entries[1], (MAC, WifiSecurity::WPA3));
}

#[test]
fn show_line_parses_fields() {
    let line = "hash:aabbccddeeff:112233445566:MyNet:hunter2";
    let (mac, ssid, password) = parse_hashcat_show_line(line).unwrap();
    assert_eq!(mac, MAC);
    assert_eq!(ssid, "MyNet");
    assert_eq!(password, "hunter2");
    assert!(parse_hashcat_show_line("a:b:c").is_none());
}

#[test]
fn collect_passwords_dedupes_and_binds_security() {
    let security = vec![([0u8; 6], WifiSecurity::WPA), (MAC, WifiSecurity::WPA3)];
    let lines = vec![
        "h:aabbccddeeff:1:MyNet:pw1".to_string(),
        "h:aabbccddeeff:1:MyNet:pw1".to_string(), // duplicate line: skipped
        "h:001122334455:1:Other:pw2".to_string(),
    ];
    let pwds = collect_passwords(&lines, &security);
    assert_eq!(pwds.len(), 2);
    assert_eq!(pwds[0].mac, MAC);
    assert_eq!(pwds[0].password, "pw1");
    assert_eq!(pwds[0].security, WifiSecurity::WPA3);
    assert_eq!(pwds[1].security, WifiSecurity::Unknown);
}

#[test]
fn passwords_fill_unset_ssid_and_never_overwrite() {
    let pwd = |ssid: &str, password: &str| APPassword {
        mac: MAC,
        ssid: ssid.to_string(),
        password: password.to_string(),
        security: WifiSecurity::WPA2,
    };
    let mut aps = vec![
        ap(MAC, None, vec![]),            // takes SSID and password
        ap(MAC, Some("MyNet"), vec![]),   // matching SSID: password only
        ap(MAC, Some("Else"), vec![]),    // different SSID: untouched
        ap([0; 6], None, vec![]),         // different MAC: untouched
    ];
    bind_passwords_to_aps(&mut aps, &vec![pwd("MyNet", "hunter2")]);
    assert_eq!(aps[0].ssid, Some("MyNet".to_string()));
    assert_eq!(aps[0].password, Some("hunter2".to_string()));
    assert_eq!(aps[0].security, Some(WifiSecurity::WPA2));
    assert_eq!(aps[1].password, Some("hunter2".to_string()));
    assert_eq!(aps[2].password, None);
    assert_eq!(aps[2].ssid, Some("Else".to_string()));
    assert_eq!(aps[3].password, None);
}

#[test]
fn vendor_lookup_matches_uppercase_prefix() {
    let csv = vec![
        "Mac Prefix,Vendor Name".to_string(), // header: skipped
        "\"AA:BB:CC\",\"Acme Radios\"".to_string(),
        "\"00:11:22\",\"Other Corp\"".to_string(),
        "\"AA:BB:CC\",\"Acme Networks\"".to_string(), // later line wins
    ];
    let found = lookup(&vec![MAC, [9; 6], MAC], &csv);
    assert_eq!(found.len(), 1);
    assert_eq!(found[0].0, MAC);
    assert_eq!(found[0].1, "Acme Networks");
}

#[test]
fn vendors_bind_to_matching_aps() {
    let csv = vec![
        "Mac Prefix,Vendor Name".to_string(),
        "\"AA:BB:CC\",\"Acme\"".to_string(),
    ];
    let mut aps = vec![ap(MAC, None, vec![]), ap([9; 6], None, vec![])];
    bind_vendors_to_aps(&mut aps, &csv);
    assert_eq!(aps[0].vendor, Some("Acme".to_string()));
    assert_eq!(aps[1].vendor, None);
}

#[test]
fn text_helpers() {
    assert!(str_eq("abc", "abc"));
    assert!(!str_eq("abc", "abd"));
    assert!(str_contains("hello world", "lo wo"));
    assert!(!str_contains("hello", "world"));
    assert_eq!(split_str("a*b**c", '*'), vec!["a", "b", "", "c"]);
    assert_eq!(split_str("", '*'), vec![""]);
    assert_eq!(parse_mac_strict("aabbccddeeff"), Some(MAC));
    assert_eq!(parse_mac_strict("AABBCCDDEEFF"), Some(MAC));
    assert_eq!(parse_mac_strict("zzbbccddeeff"), None);
    assert_eq!(
        parse_mac_lenient("zzbbccddeeff"),
        Some([0x00, 0xbb, 0xcc, 0xdd, 0xee, 0xff])
    );
}
