use vstd::prelude::*;
use vstd::utf8::{decode_utf8, valid_utf8};

use crate::geo::{
    position_at_spec, rssi_distance_mm, get_position_at, rssi_to_distance, Observation, Position,
};
use crate::AccessPoint;
use crate::ApModel;

verus! {

/// One decoded 802.11 frame, normalized to what the geolocation
/// pipeline consumes. The timestamp is seconds since the Unix epoch.
#[derive(Debug, Clone)]
pub struct Packet {
    pub timestamp: i64,
    pub source_address: Option<[u8; 6]>,
    pub ssid: Option<String>,
    pub signal_strength: Option<i8>,
    pub channel: Option<u8>,
    pub security: Option<WifiSecurity>,
}

/// The abstract value of a `Packet`: the SSID as a character sequence.
pub ghost struct PacketModel {
    pub timestamp: i64,
    pub source_address: Option<Seq<u8>>,
    pub ssid: Option<Seq<char>>,
    pub signal_strength: Option<i8>,
    pub channel: Option<u8>,
    pub security: Option<WifiSecurity>,
}

impl View for Packet {
    type V = PacketModel;

    open spec fn view(&self) -> PacketModel {
        PacketModel {
            timestamp: self.timestamp,
            source_address: match self.source_address {
                Option::Some(a) => Option::Some(a@),
                Option::None => Option::None,
            },
            ssid: match self.ssid {
                Option::Some(s) => Option::Some(s@),
                Option::None => Option::None,
            },
            signal_strength: self.signal_strength,
            channel: self.channel,
            security: self.security,
        }
    }
}

/// The cryptographic scheme advertised by an access point.
#[derive(Clone, Copy, Debug, PartialEq, Eq, Structural)]
pub enum WifiSecurity {
    Open,
    WEP,
    WPA,
    WPA2,
    WPA3,
    WPA2WPA3,
    Unknown,
}

impl WifiSecurity {
    /// The display name of the scheme.
    pub fn label(&self) -> (r: String)
        ensures
            r@ == self.label_spec(),
    {
        match self {
            WifiSecurity::Open => "Open".to_owned(),
            WifiSecurity::WEP => "WEP".to_owned(),
            WifiSecurity::WPA => "WPA".to_owned(),
            WifiSecurity::WPA2 => "WPA2".to_owned(),
            WifiSecurity::WPA3 => "WPA3".to_owned(),
            WifiSecurity::WPA2WPA3 => "WPA2/WPA3".to_owned(),
            WifiSecurity::Unknown => "Unknown".to_owned(),
        }
    }

    pub open spec fn label_spec(self) -> Seq<char> {
        match self {
            WifiSecurity::Open => "Open"@,
            WifiSecurity::WEP => "WEP"@,
            WifiSecurity::WPA => "WPA"@,
            WifiSecurity::WPA2 => "WPA2"@,
            WifiSecurity::WPA3 => "WPA3"@,
            WifiSecurity::WPA2WPA3 => "WPA2/WPA3"@,
            WifiSecurity::Unknown => "Unknown"@,
        }
    }
}

/// The value of two bytes read as a little-endian 16-bit integer.
pub open spec fn le16(b0: u8, b1: u8) -> int {
    b0 + 256 * b1
}

fn le16_val(b0: u8, b1: u8) -> (r: u16)
    ensures
        r as int == le16(b0, b1),
{
    (b0 as u16) + 256 * (b1 as u16)
}

/// Copies a six-byte MAC address out of a slice.
pub fn extract_mac(bytes: &[u8]) -> (mac: [u8; 6])
    requires
        bytes@.len() == 6,
    ensures
        mac@ == bytes@,
{
    let mac: [u8; 6] = [bytes[0], bytes[1], bytes[2], bytes[3], bytes[4], bytes[5]];
    proof {
        assert(mac@ =~= bytes@);
    }
    mac
}

/// Relies on std's str::from_utf8: it returns `Ok` exactly when the
/// bytes are valid UTF-8, and the returned slice holds the characters
/// those bytes decode to.
#[verifier::external_body]
fn bytes_to_str(bytes: &[u8]) -> (r: Option<&str>)
    ensures
        r matches Some(s) ==> valid_utf8(bytes@) && s@ == decode_utf8(bytes@),
        r is None ==> !valid_utf8(bytes@),
{
    std::str::from_utf8(bytes).ok()
}

/// The first SSID (tag 0) element at or after `offset` in a
/// length-prefixed tagged-element region: its value decoded as UTF-8.
/// The walk ends, yielding `None`, when the next element header or a
/// declared element length would run past the buffer, and when the
/// first non-empty SSID element is not valid UTF-8.
pub open spec fn ssid_elements(body: Seq<u8>, offset: int) -> Option<Seq<char>>
    decreases body.len() - offset,
{
    if offset < 0 || offset + 2 > body.len() {
        Option::<Seq<char>>::None
    } else {
        let tag = body[offset];
        let tl = body[offset + 1] as int;
        if offset + 2 + tl > body.len() {
            Option::<Seq<char>>::None
        } else if tag == 0 && tl > 0 {
            let v = body.subrange(offset + 2, offset + 2 + tl);
            if valid_utf8(v) {
                Option::Some(decode_utf8(v))
            } else {
                Option::<Seq<char>>::None
            }
        } else {
            ssid_elements(body, offset + 2 + tl)
        }
    }
}

/// The SSID advertised in a management frame body: the tagged elements
/// start after twelve bytes of fixed parameters.
pub open spec fn mgmt_ssid_spec(body: Seq<u8>) -> Option<Seq<char>> {
    if body.len() < 12 {
        Option::<Seq<char>>::None
    } else {
        ssid_elements(body, 12)
    }
}

/// Extracts the SSID from a management frame body (fixed parameters
/// followed by length-prefixed tagged elements): the first non-empty,
/// UTF-8-decodable SSID element, or `None`.
pub fn parse_management_frame_body(frame_body: &[u8]) -> (r: Option<String>)
    ensures
        r matches Some(s) ==> mgmt_ssid_spec(frame_body@) == Option::Some(s@),
        r is None ==> mgmt_ssid_spec(frame_body@) is None,
{
    let n = frame_body.len();
    if n < 12 {
        return Option::None;
    }
    let mut offset: usize = 12;
    while offset <= n - 2
        invariant
            n == frame_body@.len(),
            12 <= n,
            12 <= offset <= n,
            ssid_elements(frame_body@, 12) == ssid_elements(frame_body@, offset as int),
        decreases n - offset,
    {
        let tag = frame_body[offset];
        let tl = frame_body[offset + 1] as usize;
        if tl > n - offset - 2 {
            return Option::None;
        }
        if tag == 0 && tl > 0 {
            let v = vstd::slice::slice_subrange(frame_body, offset + 2, offset + 2 + tl);
            match bytes_to_str(v) {
                Option::Some(s) => {
                    return Option::Some(s.to_owned());
                },
                Option::None => {
                    return Option::None;
                },
            }
        }
        offset = offset + 2 + tl;
    }
    Option::None
}


/// The facts the security classifier gathers from the tagged elements:
/// whether an RSN element, a vendor WPA marker, an SAE AKM suite and a
/// PSK AKM suite were seen.
pub ghost struct SecurityFlags {
    pub has_rsn: bool,
    pub has_wpa: bool,
    pub has_sae: bool,
    pub has_psk: bool,
}

pub open spec fn no_flags() -> SecurityFlags {
    SecurityFlags { has_rsn: false, has_wpa: false, has_sae: false, has_psk: false }
}

pub open spec fn or_flags(a: SecurityFlags, b: SecurityFlags) -> SecurityFlags {
    SecurityFlags {
        has_rsn: a.has_rsn || b.has_rsn,
        has_wpa: a.has_wpa || b.has_wpa,
        has_sae: a.has_sae || b.has_sae,
        has_psk: a.has_psk || b.has_psk,
    }
}

/// Which of the AKM suites numbered `i` to `count - 1` in an RSN
/// element mark PSK (last suite byte 2) and SAE (last suite byte 8)
/// support; suites whose four bytes run past the element are ignored.
pub open spec fn akm_flags(td: Seq<u8>, base: int, count: int, i: int) -> (bool, bool)
    decreases count - i,
{
    if i >= count {
        (false, false)
    } else {
        let rest = akm_flags(td, base, count, i + 1);
        let so = base + 2 + 4 * i;
        if so + 4 <= td.len() {
            (rest.0 || td[so + 3] == 2, rest.1 || td[so + 3] == 8)
        } else {
            rest
        }
    }
}

/// The (PSK, SAE) support advertised by an RSN element body: after the
/// two-byte version and four-byte group cipher, a two-byte pairwise
/// cipher count, that many four-byte suites, then a two-byte AKM count
/// and the AKM suites. A body too short for a declared field yields no
/// flags.
pub open spec fn rsn_akm(td: Seq<u8>) -> (bool, bool) {
    if td.len() >= 8 {
        let akm_off = 8 + 4 * le16(td[6], td[7]);
        if td.len() >= akm_off + 2 {
            akm_flags(td, akm_off, le16(td[akm_off], td[akm_off + 1]), 0)
        } else {
            (false, false)
        }
    } else {
        (false, false)
    }
}

/// Whether an element body carries the vendor-specific WPA marker: its
/// first four payload bytes are the WPA OUI 00:50:F2 and sub-type 1.
pub open spec fn is_vendor_wpa(td: Seq<u8>) -> bool {
    td.len() >= 4 && td[0] == 0x00 && td[1] == 0x50 && td[2] == 0xf2 && td[3] == 0x01
}

/// The security facts gathered from the length-prefixed tagged elements
/// at or after `offset`: tag 48 marks RSN presence and contributes its
/// AKM flags, tag 221 with the WPA OUI marks legacy WPA. The walk stops
/// silently when an element header or declared length would run past
/// the buffer.
pub open spec fn security_elements(body: Seq<u8>, offset: int) -> SecurityFlags
    decreases body.len() - offset,
{
    if offset < 0 || offset + 2 > body.len() {
        no_flags()
    } else {
        let tag = body[offset];
        let tl = body[offset + 1] as int;
        if offset + 2 + tl > body.len() {
            no_flags()
        } else {
            let td = body.subrange(offset + 2, offset + 2 + tl);
            let rest = security_elements(body, offset + 2 + tl);
            if tag == 48 {
                let akm = rsn_akm(td);
                or_flags(
                    SecurityFlags { has_rsn: true, has_wpa: false, has_sae: akm.1, has_psk: akm.0 },
                    rest,
                )
            } else if tag == 221 && is_vendor_wpa(td) {
                or_flags(
                    SecurityFlags { has_rsn: false, has_wpa: true, has_sae: false, has_psk: false },
                    rest,
                )
            } else {
                rest
            }
        }
    }
}

/// The fixed resolution priority over the gathered facts, for a frame
/// whose privacy capability bit is set: RSN with both PSK and SAE is
/// WPA2/WPA3 transition mode, RSN with SAE alone is WPA3, any other RSN
/// is WPA2; no RSN but the vendor marker is WPA; otherwise WEP.
pub open spec fn resolve_security(f: SecurityFlags) -> WifiSecurity {
    if f.has_rsn {
        if f.has_sae && f.has_psk {
            WifiSecurity::WPA2WPA3
        } else if f.has_sae {
            WifiSecurity::WPA3
        } else {
            WifiSecurity::WPA2
        }
    } else if f.has_wpa {
        WifiSecurity::WPA
    } else {
        WifiSecurity::WEP
    }
}

/// Whether the privacy bit (bit 4) of a capability field is set.
pub open spec fn privacy_bit(capabilities: u16) -> bool {
    ((capabilities as int) / 16) % 2 == 1
}

/// The security classification of a beacon or probe response: `Open`
/// whenever the privacy capability bit is clear, regardless of element
/// content; `Unknown` for a body too short to hold tagged elements;
/// otherwise the resolution of the facts gathered from the elements.
pub open spec fn wifi_security_spec(body: Seq<u8>, capabilities: u16) -> WifiSecurity {
    if !privacy_bit(capabilities) {
        WifiSecurity::Open
    } else if body.len() < 12 {
        WifiSecurity::Unknown
    } else {
        resolve_security(security_elements(body, 12))
    }
}

fn rsn_akm_val(td: &[u8]) -> (r: (bool, bool))
    ensures
        r == rsn_akm(td@),
{
    let n = td.len();
    if n < 8 {
        return (false, false);
    }
    let pairwise_count = le16_val(td[6], td[7]) as usize;
    let akm_off = 8 + 4 * pairwise_count;
    if n < akm_off + 2 {
        return (false, false);
    }
    let count = le16_val(td[akm_off], td[akm_off + 1]) as usize;
    let mut psk = false;
    let mut sae = false;
    let mut i: usize = 0;
    while i < count
        invariant
            n == td@.len(),
            n >= akm_off + 2,
            akm_off == 8 + 4 * le16(td@[6], td@[7]),
            count == le16(td@[akm_off as int], td@[akm_off as int + 1]),
            0 <= i <= count,
            akm_flags(td@, akm_off as int, count as int, 0) == {
                let rest = akm_flags(td@, akm_off as int, count as int, i as int);
                (psk || rest.0, sae || rest.1)
            },
        decreases count - i,
    {
        let so = akm_off + 2 + 4 * i;
        if so + 4 <= n {
            let t = td[so + 3];
            if t == 2 {
                psk = true;
            } else if t == 8 {
                sae = true;
            }
        }
        i = i + 1;
    }
    (psk, sae)
}

/// Classifies the security scheme of a beacon or probe response from
/// its capability field and the tagged-element region of its body (see
/// `wifi_security_spec`). Never fails: undecodable content degrades to
/// `Unknown`.
pub fn parse_wifi_security(frame_body: &[u8], capabilities: u16) -> (r: WifiSecurity)
    ensures
        r == wifi_security_spec(frame_body@, capabilities),
{
    let privacy = (capabilities / 16) % 2 == 1;
    if !privacy {
        return WifiSecurity::Open;
    }
    let n = frame_body.len();
    if n < 12 {
        return WifiSecurity::Unknown;
    }
    let mut flags = SecurityFlagsVal { has_rsn: false, has_wpa: false, has_sae: false, has_psk: false };
    let mut offset: usize = 12;
    let mut overrun = false;
    while offset <= n - 2 && !overrun
        invariant
            n == frame_body@.len(),
            12 <= n,
            12 <= offset <= n,
            overrun ==> security_elements(frame_body@, offset as int) == no_flags(),
            security_elements(frame_body@, 12) == or_flags(
                flags.view(),
                security_elements(frame_body@, offset as int),
            ),
        decreases n - offset, 1int - (if overrun { 1int } else { 0int }),
    {
        let tag = frame_body[offset];
        let tl = frame_body[offset + 1] as usize;
        if tl > n - offset - 2 {
            overrun = true;
            continue;
        }
        let td = vstd::slice::slice_subrange(frame_body, offset + 2, offset + 2 + tl);
        if tag == 48 {
            flags.has_rsn = true;
            let akm = rsn_akm_val(td);
            if akm.0 {
                flags.has_psk = true;
            }
            if akm.1 {
                flags.has_sae = true;
            }
        } else if tag == 221 {
            if tl >= 4 && td[0] == 0x00 && td[1] == 0x50 && td[2] == 0xf2 && td[3] == 0x01 {
                flags.has_wpa = true;
            }
        }
        offset = offset + 2 + tl;
    }
    proof {
        assert(security_elements(frame_body@, 12) == flags.view());
    }
    if flags.has_rsn {
        if flags.has_sae && flags.has_psk {
            WifiSecurity::WPA2WPA3
        } else if flags.has_sae {
            WifiSecurity::WPA3
        } else {
            WifiSecurity::WPA2
        }
    } else if flags.has_wpa {
        WifiSecurity::WPA
    } else {
        WifiSecurity::WEP
    }
}

/// The executable counterpart of `SecurityFlags`.
struct SecurityFlagsVal {
    has_rsn: bool,
    has_wpa: bool,
    has_sae: bool,
    has_psk: bool,
}

impl SecurityFlagsVal {
    spec fn view(&self) -> SecurityFlags {
        SecurityFlags {
            has_rsn: self.has_rsn,
            has_wpa: self.has_wpa,
            has_sae: self.has_sae,
            has_psk: self.has_psk,
        }
    }
}

/// A clear privacy capability bit classifies the network as `Open`, no
/// matter what the tagged elements hold.
pub proof fn lemma_privacy_clear_is_open(body: Seq<u8>, capabilities: u16)
    requires
        !privacy_bit(capabilities),
    ensures
        wifi_security_spec(body, capabilities) == WifiSecurity::Open,
{
}

/// With the privacy bit set and elements long enough to walk: RSN with
/// PSK and no SAE resolves to WPA2, SAE without PSK to WPA3, both to
/// WPA2/WPA3 transition mode, and no RSN, no vendor WPA to WEP.
pub proof fn lemma_security_resolution(f: SecurityFlags)
    ensures
        f.has_rsn && f.has_psk && !f.has_sae ==> resolve_security(f) == WifiSecurity::WPA2,
        f.has_rsn && f.has_sae && !f.has_psk ==> resolve_security(f) == WifiSecurity::WPA3,
        f.has_rsn && f.has_sae && f.has_psk ==> resolve_security(f) == WifiSecurity::WPA2WPA3,
        !f.has_rsn && !f.has_wpa ==> resolve_security(f) == WifiSecurity::WEP,
        !f.has_rsn && f.has_wpa ==> resolve_security(f) == WifiSecurity::WPA,
{
}


/// The WiFi channel number assigned to a carrier frequency in MHz,
/// over the 2.4 GHz channels 1-14 and the 5 GHz channels 36-165;
/// unmapped frequencies have no channel.
pub open spec fn freq_to_channel_spec(freq: u16) -> Option<u8> {
    if freq == 2412 {
        Option::Some(1u8)
    } else if freq == 2417 {
        Option::Some(2u8)
    } else if freq == 2422 {
        Option::Some(3u8)
    } else if freq == 2427 {
        Option::Some(4u8)
    } else if freq == 2432 {
        Option::Some(5u8)
    } else if freq == 2437 {
        Option::Some(6u8)
    } else if freq == 2442 {
        Option::Some(7u8)
    } else if freq == 2447 {
        Option::Some(8u8)
    } else if freq == 2452 {
        Option::Some(9u8)
    } else if freq == 2457 {
        Option::Some(10u8)
    } else if freq == 2462 {
        Option::Some(11u8)
    } else if freq == 2467 {
        Option::Some(12u8)
    } else if freq == 2472 {
        Option::Some(13u8)
    } else if freq == 2484 {
        Option::Some(14u8)
    } else if freq == 5180 {
        Option::Some(36u8)
    } else if freq == 5200 {
        Option::Some(40u8)
    } else if freq == 5220 {
        Option::Some(44u8)
    } else if freq == 5240 {
        Option::Some(48u8)
    } else if freq == 5260 {
        Option::Some(52u8)
    } else if freq == 5280 {
        Option::Some(56u8)
    } else if freq == 5300 {
        Option::Some(60u8)
    } else if freq == 5320 {
        Option::Some(64u8)
    } else if freq == 5500 {
        Option::Some(100u8)
    } else if freq == 5520 {
        Option::Some(104u8)
    } else if freq == 5540 {
        Option::Some(108u8)
    } else if freq == 5560 {
        Option::Some(112u8)
    } else if freq == 5580 {
        Option::Some(116u8)
    } else if freq == 5600 {
        Option::Some(120u8)
    } else if freq == 5620 {
        Option::Some(124u8)
    } else if freq == 5640 {
        Option::Some(128u8)
    } else if freq == 5660 {
        Option::Some(132u8)
    } else if freq == 5680 {
        Option::Some(136u8)
    } else if freq == 5700 {
        Option::Some(140u8)
    } else if freq == 5745 {
        Option::Some(149u8)
    } else if freq == 5765 {
        Option::Some(153u8)
    } else if freq == 5785 {
        Option::Some(157u8)
    } else if freq == 5805 {
        Option::Some(161u8)
    } else if freq == 5825 {
        Option::Some(165u8)
    } else {
        Option::<u8>::None
    }
}

/// Maps a channel frequency in MHz to its channel number.
pub fn freq_to_channel(freq: u16) -> (r: Option<u8>)
    ensures
        r == freq_to_channel_spec(freq),
{
    match freq {
        2412 => Option::Some(1),
        2417 => Option::Some(2),
        2422 => Option::Some(3),
        2427 => Option::Some(4),
        2432 => Option::Some(5),
        2437 => Option::Some(6),
        2442 => Option::Some(7),
        2447 => Option::Some(8),
        2452 => Option::Some(9),
        2457 => Option::Some(10),
        2462 => Option::Some(11),
        2467 => Option::Some(12),
        2472 => Option::Some(13),
        2484 => Option::Some(14),
        5180 => Option::Some(36),
        5200 => Option::Some(40),
        5220 => Option::Some(44),
        5240 => Option::Some(48),
        5260 => Option::Some(52),
        5280 => Option::Some(56),
        5300 => Option::Some(60),
        5320 => Option::Some(64),
        5500 => Option::Some(100),
        5520 => Option::Some(104),
        5540 => Option::Some(108),
        5560 => Option::Some(112),
        5580 => Option::Some(116),
        5600 => Option::Some(120),
        5620 => Option::Some(124),
        5640 => Option::Some(128),
        5660 => Option::Some(132),
        5680 => Option::Some(136),
        5700 => Option::Some(140),
        5745 => Option::Some(149),
        5765 => Option::Some(153),
        5785 => Option::Some(157),
        5805 => Option::Some(161),
        5825 => Option::Some(165),
        _ => Option::None,
    }
}

/// The frame-control field of an 802.11 header: its first two bytes,
/// little endian.
pub open spec fn frame_control(wlan: Seq<u8>) -> int {
    le16(wlan[0], wlan[1])
}

/// Bits 2-3 of the frame control: the frame type.
pub open spec fn frame_type(wlan: Seq<u8>) -> int {
    (frame_control(wlan) / 4) % 4
}

/// Bits 4-7 of the frame control: the frame subtype.
pub open spec fn frame_subtype(wlan: Seq<u8>) -> int {
    (frame_control(wlan) / 16) % 16
}

/// Bit 8 of the frame control: to-DS.
pub open spec fn frame_to_ds(wlan: Seq<u8>) -> int {
    (frame_control(wlan) / 256) % 2
}

/// Bit 9 of the frame control: from-DS.
pub open spec fn frame_from_ds(wlan: Seq<u8>) -> int {
    (frame_control(wlan) / 512) % 2
}

/// The decoded form of one 802.11 frame (the bytes after the radio
/// header), together with the radio metadata already extracted.
/// Management frames: beacons (subtype 8) and probe responses (5) take
/// the AP address from bytes 10..16 and, when at least 36 bytes are
/// present, the capability field at offset 34 and the tagged elements
/// from offset 24 yield security and SSID; association and
/// reassociation responses (1, 3) take only the address; other
/// subtypes are undecodable. Data frames take the address by their
/// to-DS/from-DS bits: (1,0) bytes 4..10, (0,1) bytes 10..16, (0,0)
/// bytes 16..22, and (1,1) is undecodable. Other frame types are
/// undecodable.
pub open spec fn decode_frame_spec(
    wlan: Seq<u8>,
    signal: Option<i8>,
    channel: Option<u8>,
    ts: i64,
) -> Option<PacketModel> {
    let base = PacketModel {
        timestamp: ts,
        source_address: Option::None,
        ssid: Option::None,
        signal_strength: signal,
        channel,
        security: Option::None,
    };
    if frame_type(wlan) == 0 {
        if frame_subtype(wlan) == 8 || frame_subtype(wlan) == 5 {
            let body = wlan.subrange(24, wlan.len() as int);
            if wlan.len() >= 36 {
                Option::Some(
                    PacketModel {
                        source_address: Option::Some(wlan.subrange(10, 16)),
                        ssid: mgmt_ssid_spec(body),
                        security: Option::Some(
                            wifi_security_spec(body, le16(wlan[34], wlan[35]) as u16),
                        ),
                        ..base
                    },
                )
            } else {
                Option::Some(
                    PacketModel { source_address: Option::Some(wlan.subrange(10, 16)), ..base },
                )
            }
        } else if frame_subtype(wlan) == 1 || frame_subtype(wlan) == 3 {
            Option::Some(PacketModel { source_address: Option::Some(wlan.subrange(10, 16)), ..base })
        } else {
            Option::<PacketModel>::None
        }
    } else if frame_type(wlan) == 2 {
        if frame_to_ds(wlan) == 1 && frame_from_ds(wlan) == 0 {
            Option::Some(PacketModel { source_address: Option::Some(wlan.subrange(4, 10)), ..base })
        } else if frame_to_ds(wlan) == 0 && frame_from_ds(wlan) == 1 {
            Option::Some(PacketModel { source_address: Option::Some(wlan.subrange(10, 16)), ..base })
        } else if frame_to_ds(wlan) == 0 && frame_from_ds(wlan) == 0 {
            Option::Some(PacketModel { source_address: Option::Some(wlan.subrange(16, 22)), ..base })
        } else {
            Option::<PacketModel>::None
        }
    } else {
        Option::<PacketModel>::None
    }
}

/// Decodes one 802.11 frame, handed the radio metadata (signal and
/// channel) already read from its radio header (see
/// `decode_frame_spec`).
pub fn decode_frame(wlan: &[u8], signal_strength: Option<i8>, channel: Option<u8>, timestamp: i64) -> (r:
    Option<Packet>)
    requires
        wlan@.len() >= 24,
    ensures
        r matches Some(p) ==> decode_frame_spec(wlan@, signal_strength, channel, timestamp)
            == Option::Some(p@),
        r is None ==> decode_frame_spec(wlan@, signal_strength, channel, timestamp) is None,
{
    let n = wlan.len();
    let fc = le16_val(wlan[0], wlan[1]);
    let ftype = (fc / 4) % 4;
    let subtype = (fc / 16) % 16;
    let to_ds = (fc / 256) % 2;
    let from_ds = (fc / 512) % 2;
    let mut ssid: Option<String> = Option::None;
    let mut security: Option<WifiSecurity> = Option::None;
    let ap_mac: Option<[u8; 6]>;
    if ftype == 0 {
        if subtype == 8 || subtype == 5 {
            ap_mac = Option::Some(extract_mac(&wlan[10..16]));
            if n >= 36 {
                let capabilities = le16_val(wlan[34], wlan[35]);
                let body = vstd::slice::slice_subrange(wlan, 24, n);
                security = Option::Some(parse_wifi_security(body, capabilities));
                ssid = parse_management_frame_body(body);
            }
        } else if subtype == 1 || subtype == 3 {
            ap_mac = Option::Some(extract_mac(&wlan[10..16]));
        } else {
            return Option::None;
        }
    } else if ftype == 2 {
        if to_ds == 1 && from_ds == 0 {
            ap_mac = Option::Some(extract_mac(&wlan[4..10]));
        } else if to_ds == 0 && from_ds == 1 {
            ap_mac = Option::Some(extract_mac(&wlan[10..16]));
        } else if to_ds == 0 && from_ds == 0 {
            ap_mac = Option::Some(extract_mac(&wlan[16..22]));
        } else {
            return Option::None;
        }
    } else {
        return Option::None;
    }
    Option::Some(
        Packet {
            timestamp,
            source_address: ap_mac,
            ssid,
            signal_strength,
            channel,
            security,
        },
    )
}


/// The value of four bytes read as a little-endian 32-bit integer.
pub open spec fn le32(b0: u8, b1: u8, b2: u8, b3: u8) -> int {
    b0 + 0x100 * b1 + 0x10000 * b2 + 0x1000000 * b3
}

fn le32_val(b0: u8, b1: u8, b2: u8, b3: u8) -> (r: u32)
    ensures
        r as int == le32(b0, b1, b2, b3),
{
    (b0 as u32) + 0x100 * (b1 as u32) + 0x10000 * (b2 as u32) + 0x1000000 * (b3 as u32)
}

/// Whether the chain of radio-header presence words beginning at `off`
/// would take the radio-metadata parser outside the cases it handles
/// safely. A word flags a hazard when it sets the vendor-namespace bit
/// (bit 30), or when it carries any field bit (bits 0-28) once the
/// chain has already run eight words past the last namespace reset
/// (bit 29) — the parser numbers fields as `word * 32 + bit` in eight
/// bits, which such a word overflows — or when the eight-bit word
/// counter itself would pass 255. `seen` counts the chain's words
/// since the last reset; bit 31 extends the chain word by word, and a
/// chain that runs past the buffer flags nothing (the parser stops
/// with a clean error there). A word with both bits 29 and 30 set
/// would reset the namespace instead of opening a vendor one; flagging
/// it anyway only over-approximates the hazard.
pub open spec fn presence_chain_hazard(data: Seq<u8>, off: int, seen: int) -> bool
    decreases data.len() - off,
{
    if off < 0 || off + 4 > data.len() {
        false
    } else {
        let w = le32(data[off], data[off + 1], data[off + 2], data[off + 3]);
        if (w / 0x40000000) % 2 == 1 {
            true
        } else if seen >= 8 && w % 0x20000000 != 0 {
            true
        } else {
            let next_seen = if (w / 0x20000000) % 2 == 1 {
                0
            } else {
                seen + 1
            };
            if next_seen > 255 {
                true
            } else if w / 0x80000000 == 1 {
                presence_chain_hazard(data, off + 4, next_seen)
            } else {
                false
            }
        }
    }
}

/// Whether a capture record's radio header holds a presence-word chain
/// the metadata parser does not handle safely (see
/// `presence_chain_hazard`). The presence words start at byte 4 of the
/// record.
pub fn radiotap_presence_hazard(data: &[u8]) -> (r: bool)
    ensures
        r == presence_chain_hazard(data@, 4, 0),
{
    let n = data.len();
    let mut off: usize = 4;
    let mut seen: u32 = 0;
    while n >= 4 && off <= n - 4
        invariant
            n == data@.len(),
            4 <= off,
            seen <= 255,
            presence_chain_hazard(data@, 4, 0) == presence_chain_hazard(
                data@,
                off as int,
                seen as int,
            ),
        decreases n - off,
    {
        let w = le32_val(data[off], data[off + 1], data[off + 2], data[off + 3]);
        if (w / 0x40000000) % 2 == 1 {
            return true;
        }
        if seen >= 8 && w % 0x20000000 != 0 {
            return true;
        }
        let next_seen: u32 = if (w / 0x20000000) % 2 == 1 {
            0
        } else {
            seen + 1
        };
        if next_seen > 255 {
            return true;
        }
        if w / 0x80000000 == 0 {
            return false;
        }
        seen = next_seen;
        off = off + 4;
    }
    false
}

/// What the radio-metadata header of a capture record parses to: the
/// declared header length, the antenna signal in dBm and the channel
/// frequency in MHz. A function of the record's bytes alone.
pub uninterp spec fn radiotap_summary(data: Seq<u8>) -> Option<(usize, Option<i8>, Option<u16>)>;

/// Relies on radiotap::Radiotap::from_bytes: parsing the radio-metadata
/// header is a function of the bytes alone, and `from_bytes` rejects a
/// buffer shorter than the declared header length, so on success that
/// length fits within the buffer. The caller must first rule out the
/// presence-word hazards (`presence_chain_hazard`): on a record that
/// flags a vendor namespace the crate's field iterator extends the
/// vendor field's end by its skip length and slices without
/// rechecking; on a word carrying field bits once the chain has run
/// eight words past the last namespace reset, the eight-bit field
/// numbering (`present_count * 32 + bit`) overflows; and so does the
/// eight-bit word counter past 255 — each can panic. On every other
/// record its cursor reads fail with an error instead of panicking.
#[verifier::external_body]
fn parse_radiotap(data: &[u8]) -> (r: Option<(usize, Option<i8>, Option<u16>)>)
    requires
        !presence_chain_hazard(data@, 4, 0),
    ensures
        r == radiotap_summary(data@),
        r matches Some(m) ==> m.0 <= data@.len(),
{
    match radiotap::Radiotap::from_bytes(data) {
        Ok(rt) => Some(
            (rt.header.length, rt.antenna_signal.map(|s| s.value), rt.channel.map(|c| c.freq)),
        ),
        Err(_) => None,
    }
}

/// The packet decoded from one raw capture record: the radio-metadata
/// parse `meta` gives the header length to skip and the signal and
/// frequency; at least 24 bytes of 802.11 header must follow the radio
/// header, and the rest is `decode_frame_spec`.
pub open spec fn wifi_packet_spec(
    meta: Option<(usize, Option<i8>, Option<u16>)>,
    data: Seq<u8>,
    ts: i64,
) -> Option<PacketModel> {
    match meta {
        Option::None => Option::<PacketModel>::None,
        Option::Some(m) => {
            if data.len() < m.0 + 24 {
                Option::<PacketModel>::None
            } else {
                let wlan = data.subrange(m.0 as int, data.len() as int);
                let channel = match m.2 {
                    Option::Some(f) => freq_to_channel_spec(f),
                    Option::None => Option::<u8>::None,
                };
                decode_frame_spec(wlan, m.1, channel, ts)
            }
        },
    }
}

/// The packet of one raw capture record: a record whose radio header
/// holds a hazardous presence chain (a vendor namespace, field bits
/// past the eight-word field numbering, or an overlong chain) counts
/// as malformed — the metadata parser does not handle those safely —
/// and the rest is `wifi_packet_spec` over the radio-header parse.
pub open spec fn capture_record_spec(data: Seq<u8>, ts: i64) -> Option<PacketModel> {
    if presence_chain_hazard(data, 4, 0) {
        Option::<PacketModel>::None
    } else {
        wifi_packet_spec(radiotap_summary(data), data, ts)
    }
}

/// Decodes one raw capture record (radio-metadata header followed by an
/// 802.11 frame) taken at `timestamp` into a normalized packet.
/// Malformed records yield `None`, among them records whose radio
/// header holds a hazardous presence chain.
pub fn parse_wifi_packet(data: &[u8], timestamp: i64) -> (r: Option<Packet>)
    ensures
        r matches Some(p) ==> capture_record_spec(data@, timestamp) == Option::Some(p@),
        r is None ==> capture_record_spec(data@, timestamp) is None,
{
    if radiotap_presence_hazard(data) {
        return Option::None;
    }
    let meta = parse_radiotap(data);
    match meta {
        Option::None => Option::None,
        Option::Some((radiotap_len, signal_strength, freq)) => {
            let n = data.len();
            if n - radiotap_len < 24 {
                return Option::None;
            }
            let channel = match freq {
                Option::Some(f) => freq_to_channel(f),
                Option::None => Option::None,
            };
            let wlan = vstd::slice::slice_subrange(data, radiotap_len, n);
            decode_frame(wlan, signal_strength, channel, timestamp)
        },
    }
}

/// Where the AP address comes from: a data frame with to-DS set and
/// from-DS clear takes it from header bytes 4..10, and a beacon (a
/// management frame of subtype 8) from bytes 10..16.
pub proof fn lemma_frame_address_extraction(
    wlan: Seq<u8>,
    signal: Option<i8>,
    channel: Option<u8>,
    ts: i64,
)
    requires
        wlan.len() >= 24,
    ensures
        frame_type(wlan) == 2 && frame_to_ds(wlan) == 1 && frame_from_ds(wlan) == 0 ==> (
        decode_frame_spec(wlan, signal, channel, ts) matches Some(p) && p.source_address
            == Option::Some(wlan.subrange(4, 10))),
        frame_type(wlan) == 0 && frame_subtype(wlan) == 8 ==> (decode_frame_spec(
            wlan,
            signal,
            channel,
            ts,
        ) matches Some(p) && p.source_address == Option::Some(wlan.subrange(10, 16))),
{
}


/// The index of the first access point with this MAC at or after `i`,
/// or -1.
pub open spec fn find_ap_from(aps: Seq<ApModel>, mac: Seq<u8>, i: int) -> int
    decreases aps.len() - i,
{
    if i < 0 || i >= aps.len() {
        -1
    } else if aps[i].mac == mac {
        i
    } else {
        find_ap_from(aps, mac, i + 1)
    }
}

/// The observation a packet contributes: only a packet with a source
/// address and a signal strength, taken at a moment the track covers,
/// yields one, at the interpolated position, with the path-loss
/// distance estimate for its signal.
pub open spec fn corr_observation(p: PacketModel, positions: Seq<Position>) -> Option<Observation> {
    match p.source_address {
        Option::None => Option::<Observation>::None,
        Option::Some(_) => match p.signal_strength {
            Option::None => Option::<Observation>::None,
            Option::Some(sig) => match position_at_spec(p.timestamp, positions) {
                Option::None => Option::<Observation>::None,
                Option::Some(pos) => Option::Some(
                    Observation {
                        position: pos,
                        signal_strength: sig,
                        distance_mm: rssi_distance_mm(sig as int) as u64,
                    },
                ),
            },
        },
    }
}

/// A new access point seeded from the first packet seen for its MAC.
pub open spec fn new_ap_model(mac: Seq<u8>, p: PacketModel, obs: Observation) -> ApModel {
    ApModel {
        mac,
        ssid: p.ssid,
        observations: seq![obs],
        estimated_position: Option::None,
        position_method: Option::None,
        security: p.security,
        channel: p.channel,
        vendor: Option::None,
        password: Option::None,
    }
}

/// An existing access point updated by one more packet: the observation
/// is appended, and the SSID and security are filled only where unset.
pub open spec fn updated_ap_model(ap: ApModel, p: PacketModel, obs: Observation) -> ApModel {
    ApModel {
        observations: ap.observations.push(obs),
        ssid: crate::merge_optional_spec(ap.ssid, p.ssid),
        security: crate::merge_optional_spec(ap.security, p.security),
        ..ap
    }
}

/// How one packet changes the access-point list: a packet without a
/// usable observation changes nothing; otherwise its MAC's access point
/// is updated in place, or appended when the MAC is new.
pub open spec fn group_step(
    aps: Seq<ApModel>,
    p: PacketModel,
    positions: Seq<Position>,
) -> Seq<ApModel> {
    match corr_observation(p, positions) {
        Option::None => aps,
        Option::Some(obs) => {
            let mac = match p.source_address {
                Option::Some(m) => m,
                Option::None => Seq::<u8>::empty(),
            };
            let j = find_ap_from(aps, mac, 0);
            if j == -1 {
                aps.push(new_ap_model(mac, p, obs))
            } else {
                aps.update(j, updated_ap_model(aps[j], p, obs))
            }
        },
    }
}

/// The access points accumulated from a packet stream, one per
/// distinct MAC in order of first sight, each holding every observation
/// its packets contributed (see `group_step`).
pub open spec fn group_spec(packets: Seq<PacketModel>, positions: Seq<Position>) -> Seq<ApModel>
    decreases packets.len(),
{
    if packets.len() == 0 {
        Seq::<ApModel>::empty()
    } else {
        group_step(group_spec(packets.drop_last(), positions), packets.last(), positions)
    }
}

fn find_ap_index(aps: &Vec<AccessPoint>, mac: &[u8; 6]) -> (r: Option<usize>)
    ensures
        (match r {
            Option::Some(j) => j < aps@.len() && find_ap_from(
                aps@.map_values(|a: AccessPoint| a@),
                mac@,
                0,
            ) == j as int,
            Option::None => find_ap_from(aps@.map_values(|a: AccessPoint| a@), mac@, 0) == -1,
        }),
{
    let ghost ms = aps@.map_values(|a: AccessPoint| a@);
    let mut j: usize = 0;
    while j < aps.len()
        invariant
            ms == aps@.map_values(|a: AccessPoint| a@),
            0 <= j <= aps@.len(),
            find_ap_from(ms, mac@, 0) == find_ap_from(ms, mac@, j as int),
        decreases aps@.len() - j,
    {
        if crate::text::mac_eq(&aps[j].mac, mac) {
            proof {
                assert(ms[j as int].mac == mac@);
            }
            return Option::Some(j);
        }
        proof {
            assert(ms[j as int].mac != mac@);
        }
        j = j + 1;
    }
    Option::None
}

fn clone_opt_string(s: &Option<String>) -> (r: Option<String>)
    ensures
        r == *s,
{
    match s {
        Option::Some(v) => Option::Some(v.clone()),
        Option::None => Option::None,
    }
}

/// Folds the packet stream into one access point per distinct MAC
/// address, in order of first sight: every packet with an address, a
/// signal and a GPS-covered timestamp contributes an observation to its
/// AP, whose SSID and security are seeded by the first packet carrying
/// them and never overwritten (see `group_spec`). Packets without
/// address, signal or position are dropped silently.
pub fn group_packets_by_mac(packets: &Vec<Packet>, positions: &Vec<Position>) -> (r: Vec<
    AccessPoint,
>)
    requires
        forall|i: int| 0 <= i < positions@.len() ==> (#[trigger] positions@[i]).wf(),
    ensures
        r@.map_values(|a: AccessPoint| a@) == group_spec(
            packets@.map_values(|p: Packet| p@),
            positions@,
        ),
{
    let ghost pms = packets@.map_values(|p: Packet| p@);
    let mut aps: Vec<AccessPoint> = Vec::new();
    let mut i: usize = 0;
    while i < packets.len()
        invariant
            pms == packets@.map_values(|p: Packet| p@),
            forall|k: int| 0 <= k < positions@.len() ==> (#[trigger] positions@[k]).wf(),
            0 <= i <= packets@.len(),
            aps@.map_values(|a: AccessPoint| a@) == group_spec(pms.take(i as int), positions@),
        decreases packets@.len() - i,
    {
        proof {
            assert(pms.take(i as int + 1).drop_last() =~= pms.take(i as int));
            assert(pms.take(i as int + 1).last() == pms[i as int]);
        }
        let packet = &packets[i];
        let ghost pm = packet@;
        let ghost before = aps@.map_values(|a: AccessPoint| a@);
        if let Option::Some(mac) = packet.source_address {
            if let Option::Some(signal) = packet.signal_strength {
                match get_position_at(packet.timestamp, positions) {
                    Option::Some(pos) => {
                        let distance = rssi_to_distance(signal);
                        let observation = Observation {
                            position: pos,
                            signal_strength: signal,
                            distance_mm: distance,
                        };
                        proof {
                            assert(corr_observation(pm, positions@) == Option::Some(observation));
                        }
                        match find_ap_index(&aps, &mac) {
                            Option::Some(j) => {
                                let mut ap = aps.remove(j);
                                let ghost old_ap = ap@;
                                ap.observations.push(observation);
                                if ap.ssid.is_none() && packet.ssid.is_some() {
                                    ap.ssid = clone_opt_string(&packet.ssid);
                                }
                                if ap.security.is_none() && packet.security.is_some() {
                                    ap.security = packet.security;
                                }
                                proof {
                                    assert(ap@ == updated_ap_model(old_ap, pm, observation));
                                }
                                aps.insert(j, ap);
                                proof {
                                    assert(aps@.map_values(|a: AccessPoint| a@) =~= before.update(
                                        j as int,
                                        updated_ap_model(before[j as int], pm, observation),
                                    ));
                                }
                            },
                            Option::None => {
                                let ap = AccessPoint {
                                    mac,
                                    ssid: clone_opt_string(&packet.ssid),
                                    observations: vec![observation],
                                    estimated_position: Option::None,
                                    position_method: Option::None,
                                    security: packet.security,
                                    channel: packet.channel,
                                    vendor: Option::None,
                                    password: Option::None,
                                };
                                proof {
                                    assert(ap@.observations =~= seq![observation]);
                                    assert(ap@ == new_ap_model(mac@, pm, observation));
                                }
                                aps.push(ap);
                                proof {
                                    assert(aps@.map_values(|a: AccessPoint| a@) =~= before.push(
                                        new_ap_model(mac@, pm, observation),
                                    ));
                                }
                            },
                        }
                    },
                    Option::None => {
                        proof {
                            assert(corr_observation(pm, positions@) is None);
                        }
                    },
                }
            }
        }
        i = i + 1;
    }
    proof {
        assert(pms.take(packets@.len() as int) =~= pms);
    }
    aps
}


proof fn lemma_find_ap_hit(aps: Seq<ApModel>, mac: Seq<u8>, i: int)
    requires
        0 <= i,
        find_ap_from(aps, mac, i) != -1,
    ensures
        i <= find_ap_from(aps, mac, i) < aps.len(),
        aps[find_ap_from(aps, mac, i)].mac == mac,
    decreases aps.len() - i,
{
    if i < aps.len() && aps[i].mac != mac {
        lemma_find_ap_hit(aps, mac, i + 1);
    }
}

proof fn lemma_find_ap_miss(aps: Seq<ApModel>, mac: Seq<u8>, i: int)
    requires
        0 <= i,
        find_ap_from(aps, mac, i) == -1,
    ensures
        forall|j: int| i <= j < aps.len() ==> (#[trigger] aps[j]).mac != mac,
    decreases aps.len() - i,
{
    if i < aps.len() {
        lemma_find_ap_miss(aps, mac, i + 1);
    }
}

/// A MAC address identifies at most one access point: the aggregated
/// list never holds two entries with the same MAC.
pub proof fn lemma_group_macs_unique(packets: Seq<PacketModel>, positions: Seq<Position>)
    ensures
        forall|a: int, b: int|
            0 <= a < b < group_spec(packets, positions).len() ==> (#[trigger] group_spec(
                packets,
                positions,
            )[a]).mac != (#[trigger] group_spec(packets, positions)[b]).mac,
    decreases packets.len(),
{
    if packets.len() > 0 {
        lemma_group_macs_unique(packets.drop_last(), positions);
        let prev = group_spec(packets.drop_last(), positions);
        let cur = group_spec(packets, positions);
        let p = packets.last();
        match corr_observation(p, positions) {
            Option::None => {},
            Option::Some(obs) => {
                let mac = match p.source_address {
                    Option::Some(m) => m,
                    Option::None => Seq::<u8>::empty(),
                };
                let j = find_ap_from(prev, mac, 0);
                if j == -1 {
                    lemma_find_ap_miss(prev, mac, 0);
                    assert forall|a: int, b: int| 0 <= a < b < cur.len() implies (#[trigger] cur[a]).mac
                        != (#[trigger] cur[b]).mac by {
                        if b == cur.len() - 1 {
                            assert(cur[a] == prev[a]);
                            assert(cur[b].mac == mac);
                        } else {
                            assert(cur[a] == prev[a] && cur[b] == prev[b]);
                        }
                    }
                } else {
                    lemma_find_ap_hit(prev, mac, 0);
                    assert(cur == prev.update(j, updated_ap_model(prev[j], p, obs)));
                    assert(updated_ap_model(prev[j], p, obs).mac == prev[j].mac);
                    assert forall|a: int, b: int| 0 <= a < b < cur.len() implies (#[trigger] cur[a]).mac
                        != (#[trigger] cur[b]).mac by {
                        assert(cur[a].mac == prev[a].mac);
                        assert(cur[b].mac == prev[b].mac);
                    }
                }
            },
        }
    }
}


/// Aggregation never downgrades a field: an access point's SSID or
/// security, once set, keeps its value through every further packet.
pub proof fn lemma_aggregation_never_downgrades(ap: ApModel, p: PacketModel, obs: Observation)
    ensures
        ap.ssid is Some ==> updated_ap_model(ap, p, obs).ssid == ap.ssid,
        ap.security is Some ==> updated_ap_model(ap, p, obs).security == ap.security,
{
}

} // verus!
