use vstd::prelude::*;

use crate::packets::WifiSecurity;
use crate::text::{
    contains_seq, mac_bytes_lenient, mac_hex_valid, parse_mac_lenient, parse_mac_strict, split_chars,
    split_str, str_contains, str_eq,
};
use crate::AccessPoint;
use crate::ApModel;

verus! {

/// A password recovered for one access point, keyed by MAC and bound to
/// the SSID it was cracked under.
#[derive(Debug, Clone)]
pub struct APPassword {
    pub mac: [u8; 6],
    pub ssid: String,
    pub password: String,
    pub security: WifiSecurity,
}

/// The abstract value of an `APPassword`.
pub ghost struct PwdModel {
    pub mac: Seq<u8>,
    pub ssid: Seq<char>,
    pub password: Seq<char>,
    pub security: WifiSecurity,
}

impl View for APPassword {
    type V = PwdModel;

    open spec fn view(&self) -> PwdModel {
        PwdModel {
            mac: self.mac@,
            ssid: self.ssid@,
            password: self.password@,
            security: self.security,
        }
    }
}

/// The scheme read from the EAPOL hex blob of a handshake record: SAE
/// or 192-bit suites mean WPA3, the PSK suites mean WPA2, the 802.1X
/// suite and the legacy vendor suite mean WPA, and an unrecognized blob
/// is assumed WPA2.
pub open spec fn eapol_security_spec(e: Seq<char>) -> WifiSecurity {
    if contains_seq(e, "000fac08"@) || contains_seq(e, "000fac0c"@) {
        WifiSecurity::WPA3
    } else if contains_seq(e, "000fac02"@) || contains_seq(e, "000fac06"@) {
        WifiSecurity::WPA2
    } else if contains_seq(e, "000fac01"@) {
        WifiSecurity::WPA
    } else if contains_seq(e, "0050f202"@) {
        WifiSecurity::WPA
    } else {
        WifiSecurity::WPA2
    }
}

/// Reads the security scheme out of a handshake record's EAPOL hex
/// blob by the AKM suite identifiers it contains (see
/// `eapol_security_spec`).
pub fn parse_security_from_eapol(eapol: &str) -> (r: WifiSecurity)
    ensures
        r == eapol_security_spec(eapol@),
{
    if str_contains(eapol, "000fac08") || str_contains(eapol, "000fac0c") {
        WifiSecurity::WPA3
    } else if str_contains(eapol, "000fac02") || str_contains(eapol, "000fac06") {
        WifiSecurity::WPA2
    } else if str_contains(eapol, "000fac01") {
        WifiSecurity::WPA
    } else if str_contains(eapol, "0050f202") {
        WifiSecurity::WPA
    } else {
        WifiSecurity::WPA2
    }
}

/// The (MAC, security) fact carried by one line of a hash-capture
/// file. A line holds asterisk-separated fields: the marker `WPA`, a
/// record type, a hash, the AP MAC as twelve hexadecimal characters,
/// and more; record type `02` carries an EAPOL blob in the eighth field
/// that names the scheme, while any other record reveals no more than
/// WPA2.
pub open spec fn line_22000_spec(line: Seq<char>) -> Option<(Seq<u8>, WifiSecurity)> {
    let parts = split_chars(line, '*');
    if parts.len() < 5 || parts[0] != "WPA"@ {
        Option::<(Seq<u8>, WifiSecurity)>::None
    } else if !mac_hex_valid(parts[3]) {
        Option::<(Seq<u8>, WifiSecurity)>::None
    } else {
        let sec = if parts[1] == "02"@ && parts.len() >= 9 {
            eapol_security_spec(parts[7])
        } else {
            WifiSecurity::WPA2
        };
        Option::Some((mac_bytes_lenient(parts[3]), sec))
    }
}

/// Parses one line of a hash-capture file into the AP MAC it names and
/// the security scheme it reveals (see `line_22000_spec`).
pub fn parse_22000_line(line: &str) -> (r: Option<([u8; 6], WifiSecurity)>)
    ensures
        r matches Some(p) ==> line_22000_spec(line@) == Option::Some((p.0@, p.1)),
        r is None ==> line_22000_spec(line@) is None,
{
    let parts = split_str(line, '*');
    if parts.len() < 5 {
        return Option::None;
    }
    if !str_eq(parts[0].as_str(), "WPA") {
        return Option::None;
    }
    let mac = match parse_mac_strict(parts[3].as_str()) {
        Option::Some(m) => m,
        Option::None => {
            return Option::None;
        },
    };
    let sec = if str_eq(parts[1].as_str(), "02") && parts.len() >= 9 {
        parse_security_from_eapol(parts[7].as_str())
    } else {
        WifiSecurity::WPA2
    };
    Option::Some((mac, sec))
}

/// The (MAC, security) facts of a sequence of hash-capture lines, in
/// order, unparseable lines skipped.
pub open spec fn lines_22000_spec(lines: Seq<Seq<char>>) -> Seq<(Seq<u8>, WifiSecurity)>
    decreases lines.len(),
{
    if lines.len() == 0 {
        Seq::<(Seq<u8>, WifiSecurity)>::empty()
    } else {
        let prefix = lines_22000_spec(lines.drop_last());
        match line_22000_spec(lines.last()) {
            Option::Some(p) => prefix.push(p),
            Option::None => prefix,
        }
    }
}

/// Parses the lines of the hash-capture files, in order, into the
/// (MAC, security) facts they carry; unparseable lines are skipped.
pub fn parse_22000_lines(lines: &Vec<String>) -> (r: Vec<([u8; 6], WifiSecurity)>)
    ensures
        r@.map_values(|p: ([u8; 6], WifiSecurity)| (p.0@, p.1)) == lines_22000_spec(
            lines@.map_values(|l: String| l@),
        ),
{
    let mut out: Vec<([u8; 6], WifiSecurity)> = Vec::new();
    let mut i: usize = 0;
    while i < lines.len()
        invariant
            0 <= i <= lines@.len(),
            out@.map_values(|p: ([u8; 6], WifiSecurity)| (p.0@, p.1)) == lines_22000_spec(
                lines@.map_values(|l: String| l@).take(i as int),
            ),
        decreases lines@.len() - i,
    {
        proof {
            let ls = lines@.map_values(|l: String| l@);
            assert(ls.take(i as int + 1).drop_last() =~= ls.take(i as int));
            assert(ls.take(i as int + 1).last() == ls[i as int]);
        }
        match parse_22000_line(lines[i].as_str()) {
            Option::Some(p) => {
                proof {
                    let f = |q: ([u8; 6], WifiSecurity)| (q.0@, q.1);
                    assert(out@.push(p).map_values(f) =~= out@.map_values(f).push((p.0@, p.1)));
                }
                out.push(p);
            },
            Option::None => {},
        }
        i = i + 1;
    }
    proof {
        let ls = lines@.map_values(|l: String| l@);
        assert(ls.take(lines@.len() as int) =~= ls);
    }
    out
}

/// The security recorded for a MAC by the hash-capture files: the last
/// fact wins, and a MAC no file names stays `Unknown`.
pub open spec fn security_for_mac(entries: Seq<(Seq<u8>, WifiSecurity)>, mac: Seq<u8>) -> WifiSecurity
    decreases entries.len(),
{
    if entries.len() == 0 {
        WifiSecurity::Unknown
    } else if entries.last().0 == mac {
        entries.last().1
    } else {
        security_for_mac(entries.drop_last(), mac)
    }
}

/// What one recovered-credentials line contributes: colon-separated
/// fields with the AP MAC second (twelve hexadecimal characters, an
/// undecodable pair reading as zero), the SSID fourth and the password
/// fifth.
pub open spec fn show_line_spec(line: Seq<char>) -> Option<(Seq<u8>, Seq<char>, Seq<char>)> {
    let parts = split_chars(line, ':');
    if parts.len() >= 5 && parts[1].len() == 12 {
        Option::Some((mac_bytes_lenient(parts[1]), parts[3], parts[4]))
    } else {
        Option::<(Seq<u8>, Seq<char>, Seq<char>)>::None
    }
}

/// Parses one recovered-credentials line into MAC, SSID and password
/// (see `show_line_spec`).
pub fn parse_hashcat_show_line(line: &str) -> (r: Option<([u8; 6], String, String)>)
    ensures
        r matches Some(p) ==> show_line_spec(line@) == Option::Some((p.0@, p.1@, p.2@)),
        r is None ==> show_line_spec(line@) is None,
{
    let mut parts = split_str(line, ':');
    if parts.len() < 5 {
        return Option::None;
    }
    let mac = match parse_mac_lenient(parts[1].as_str()) {
        Option::Some(m) => m,
        Option::None => {
            return Option::None;
        },
    };
    let password = parts.remove(4);
    let ssid = parts.remove(3);
    Option::Some((mac, ssid, password))
}

/// The passwords collected from the recovered-credentials lines, in
/// order: a line seen before is skipped, an unparseable line is
/// skipped, and each password carries the security the hash-capture
/// files recorded for its MAC.
pub open spec fn collect_passwords_spec(
    lines: Seq<Seq<char>>,
    sec: Seq<(Seq<u8>, WifiSecurity)>,
) -> Seq<PwdModel>
    decreases lines.len(),
{
    if lines.len() == 0 {
        Seq::<PwdModel>::empty()
    } else {
        let prefix = collect_passwords_spec(lines.drop_last(), sec);
        if lines.drop_last().contains(lines.last()) {
            prefix
        } else {
            match show_line_spec(lines.last()) {
                Option::Some(p) => prefix.push(
                    PwdModel {
                        mac: p.0,
                        ssid: p.1,
                        password: p.2,
                        security: security_for_mac(sec, p.0),
                    },
                ),
                Option::None => prefix,
            }
        }
    }
}

fn lines_contain(seen: &Vec<String>, line: &str) -> (r: bool)
    ensures
        r == seen@.map_values(|s: String| s@).contains(line@),
{
    let mut i: usize = 0;
    while i < seen.len()
        invariant
            0 <= i <= seen@.len(),
            forall|k: int| 0 <= k < i ==> (#[trigger] seen@[k])@ != line@,
        decreases seen@.len() - i,
    {
        if str_eq(seen[i].as_str(), line) {
            proof {
                assert(seen@.map_values(|s: String| s@)[i as int] == line@);
            }
            return true;
        }
        i = i + 1;
    }
    proof {
        let sv = seen@.map_values(|s: String| s@);
        if sv.contains(line@) {
            let w = choose|w: int| 0 <= w < sv.len() && sv[w] == line@;
            assert(seen@[w]@ == line@);
        }
    }
    false
}

fn security_for_mac_val(entries: &Vec<([u8; 6], WifiSecurity)>, mac: &[u8; 6]) -> (r: WifiSecurity)
    ensures
        r == security_for_mac(
            entries@.map_values(|p: ([u8; 6], WifiSecurity)| (p.0@, p.1)),
            mac@,
        ),
{
    let ghost es = entries@.map_values(|p: ([u8; 6], WifiSecurity)| (p.0@, p.1));
    let mut i: usize = entries.len();
    proof {
        assert(es.take(i as int) =~= es);
    }
    while i > 0
        invariant
            0 <= i <= entries@.len(),
            es == entries@.map_values(|p: ([u8; 6], WifiSecurity)| (p.0@, p.1)),
            security_for_mac(es, mac@) == security_for_mac(es.take(i as int), mac@),
        decreases i,
    {
        proof {
            assert(es.take(i as int).drop_last() =~= es.take(i as int - 1));
            assert(es.take(i as int).last() == es[i as int - 1]);
        }
        if crate::text::mac_eq(&entries[i - 1].0, mac) {
            return entries[i - 1].1;
        }
        i = i - 1;
    }
    WifiSecurity::Unknown
}

/// Collects the recovered passwords from the credential lines the
/// password-recovery tool printed, one entry per distinct line, each
/// bound to the security the hash-capture files recorded for its MAC
/// (see `collect_passwords_spec`).
pub fn collect_passwords(lines: &Vec<String>, security: &Vec<([u8; 6], WifiSecurity)>) -> (r: Vec<
    APPassword,
>)
    ensures
        r@.map_values(|p: APPassword| p@) == collect_passwords_spec(
            lines@.map_values(|l: String| l@),
            security@.map_values(|p: ([u8; 6], WifiSecurity)| (p.0@, p.1)),
        ),
{
    let ghost ls = lines@.map_values(|l: String| l@);
    let ghost sec = security@.map_values(|p: ([u8; 6], WifiSecurity)| (p.0@, p.1));
    let mut out: Vec<APPassword> = Vec::new();
    let mut seen: Vec<String> = Vec::new();
    let mut i: usize = 0;
    while i < lines.len()
        invariant
            0 <= i <= lines@.len(),
            ls == lines@.map_values(|l: String| l@),
            sec == security@.map_values(|p: ([u8; 6], WifiSecurity)| (p.0@, p.1)),
            out@.map_values(|p: APPassword| p@) == collect_passwords_spec(ls.take(i as int), sec),
            forall|c: Seq<char>|
                seen@.map_values(|s: String| s@).contains(c) <==> ls.take(i as int).contains(c),
        decreases lines@.len() - i,
    {
        proof {
            assert(ls.take(i as int + 1).drop_last() =~= ls.take(i as int));
            assert(ls.take(i as int + 1).last() == ls[i as int]);
        }
        let line = &lines[i];
        if !lines_contain(&seen, line.as_str()) {
            match parse_hashcat_show_line(line.as_str()) {
                Option::Some((mac, ssid, password)) => {
                    let s = security_for_mac_val(security, &mac);
                    let entry = APPassword { mac, ssid, password, security: s };
                    proof {
                        let f = |p: APPassword| p@;
                        assert(out@.push(entry).map_values(f) =~= out@.map_values(f).push(entry@));
                    }
                    out.push(entry);
                },
                Option::None => {},
            }
            let ghost pre = seen@;
            seen.push(line.clone());
            proof {
                let f = |s: String| s@;
                assert(seen@.map_values(f) =~= pre.map_values(f).push(ls[i as int]));
                assert(ls.take(i as int + 1) =~= ls.take(i as int).push(ls[i as int]));
                assert forall|c: Seq<char>|
                    #![trigger ls.take(i as int + 1).contains(c)]
                    seen@.map_values(|s: String| s@).contains(c) <==> ls.take(
                        i as int + 1,
                    ).contains(c) by {
                    crate::text::lemma_push_contains(pre.map_values(f), ls[i as int], c);
                    crate::text::lemma_push_contains(ls.take(i as int), ls[i as int], c);
                }
            }
        } else {
            proof {
                assert(ls.take(i as int).contains(ls[i as int]));
                assert(ls.take(i as int + 1) =~= ls.take(i as int).push(ls[i as int]));
                assert forall|c: Seq<char>|
                    #![trigger ls.take(i as int + 1).contains(c)]
                    seen@.map_values(|s: String| s@).contains(c) <==> ls.take(
                        i as int + 1,
                    ).contains(c) by {
                    crate::text::lemma_push_contains(ls.take(i as int), ls[i as int], c);
                }
            }
        }
        i = i + 1;
    }
    proof {
        assert(ls.take(lines@.len() as int) =~= ls);
    }
    out
}

/// How one recovered password changes one access point: only an AP with
/// the same MAC is touched; an AP without an SSID takes the recovered
/// SSID and password, an AP whose SSID matches takes the password; an
/// AP whose SSID differs is left alone (the password likely belongs to
/// another network under the same MAC). Security is filled only where
/// it was unset.
pub open spec fn apply_password(ap: ApModel, p: PwdModel) -> ApModel {
    if ap.mac != p.mac {
        ap
    } else if ap.ssid is None {
        ApModel {
            ssid: Option::Some(p.ssid),
            password: Option::Some(p.password),
            security: crate::merge_optional_spec(ap.security, Option::Some(p.security)),
            ..ap
        }
    } else if ap.ssid == Option::<Seq<char>>::Some(p.ssid) {
        ApModel {
            password: Option::Some(p.password),
            security: crate::merge_optional_spec(ap.security, Option::Some(p.security)),
            ..ap
        }
    } else {
        ap
    }
}

/// The result of applying every recovered password to one access
/// point, in order.
pub open spec fn apply_passwords(ap: ApModel, pwds: Seq<PwdModel>) -> ApModel
    decreases pwds.len(),
{
    if pwds.len() == 0 {
        ap
    } else {
        apply_password(apply_passwords(ap, pwds.drop_last()), pwds.last())
    }
}

/// Binds recovered passwords onto the access points: each AP takes, in
/// order, every password recovered for its MAC (see `apply_password`);
/// SSIDs and security are only ever filled, never overwritten.
pub fn bind_passwords_to_aps(aps: &mut Vec<AccessPoint>, passwords: &Vec<APPassword>)
    ensures
        final(aps)@.len() == old(aps)@.len(),
        forall|i: int| 0 <= i < old(aps)@.len() ==> (#[trigger] final(aps)@[i])@ == apply_passwords(
            old(aps)@[i]@,
            passwords@.map_values(|p: APPassword| p@),
        ),
{
    let ghost pws = passwords@.map_values(|p: APPassword| p@);
    let n = aps.len();
    let mut i: usize = 0;
    while i < n
        invariant
            n == aps@.len(),
            n == old(aps)@.len(),
            pws == passwords@.map_values(|p: APPassword| p@),
            0 <= i <= n,
            forall|k: int| i <= k < n ==> #[trigger] aps@[k] == old(aps)@[k],
            forall|k: int| 0 <= k < i ==> (#[trigger] aps@[k])@ == apply_passwords(
                old(aps)@[k]@,
                pws,
            ),
        decreases n - i,
    {
        let mut ap = aps.remove(i);
        let ghost orig_ap = ap@;
        let mut j: usize = 0;
        while j < passwords.len()
            invariant
                pws == passwords@.map_values(|p: APPassword| p@),
                0 <= j <= passwords@.len(),
                ap@ == apply_passwords(orig_ap, pws.take(j as int)),
            decreases passwords@.len() - j,
        {
            proof {
                assert(pws.take(j as int + 1).drop_last() =~= pws.take(j as int));
                assert(pws.take(j as int + 1).last() == pws[j as int]);
            }
            let pwd = &passwords[j];
            if crate::text::mac_eq(&ap.mac, &pwd.mac) {
                if ap.ssid.is_none() {
                    ap.ssid = Option::Some(pwd.ssid.clone());
                    ap.password = Option::Some(pwd.password.clone());
                    if ap.security.is_none() {
                        ap.security = Option::Some(pwd.security);
                    }
                } else if str_eq(ap.ssid.as_ref().unwrap().as_str(), pwd.ssid.as_str()) {
                    ap.password = Option::Some(pwd.password.clone());
                    if ap.security.is_none() {
                        ap.security = Option::Some(pwd.security);
                    }
                }
            }
            j = j + 1;
        }
        proof {
            assert(pws.take(passwords@.len() as int) =~= pws);
        }
        aps.insert(i, ap);
        i = i + 1;
    }
}


/// Binding passwords never downgrades a field: an SSID or security
/// already set keeps its value through any sequence of recovered
/// passwords, and a set password is only ever replaced by another
/// recovered password, never cleared.
pub proof fn lemma_passwords_never_downgrade(ap: ApModel, pwds: Seq<PwdModel>)
    ensures
        ap.ssid is Some ==> apply_passwords(ap, pwds).ssid == ap.ssid,
        ap.security is Some ==> apply_passwords(ap, pwds).security == ap.security,
        ap.password is Some ==> apply_passwords(ap, pwds).password is Some,
    decreases pwds.len(),
{
    if pwds.len() > 0 {
        lemma_passwords_never_downgrade(ap, pwds.drop_last());
    }
}

} // verus!
