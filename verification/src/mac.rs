use vstd::prelude::*;
use vstd::string::StrSliceExecFns;

use crate::text::{mac_eq, split_chars, split_str};
use crate::AccessPoint;
use crate::ApModel;

verus! {

/// The characters of `s` with every leading `c` removed.
pub open spec fn trim_leading(s: Seq<char>, c: char) -> Seq<char>
    decreases s.len(),
{
    if s.len() > 0 && s[0] == c {
        trim_leading(s.drop_first(), c)
    } else {
        s
    }
}

/// The characters of `s` with every trailing `c` removed.
pub open spec fn trim_trailing(s: Seq<char>, c: char) -> Seq<char>
    decreases s.len(),
{
    if s.len() > 0 && s.last() == c {
        trim_trailing(s.drop_last(), c)
    } else {
        s
    }
}

/// The characters of `s` with every leading and trailing `c` removed.
pub open spec fn trim_char(s: Seq<char>, c: char) -> Seq<char> {
    trim_trailing(trim_leading(s, c), c)
}

proof fn lemma_trim_leading_skip(s: Seq<char>, c: char, a: int)
    requires
        0 <= a <= s.len(),
        forall|k: int| 0 <= k < a ==> s[k] == c,
        a < s.len() ==> s[a] != c,
    ensures
        trim_leading(s, c) == s.skip(a),
    decreases a,
{
    if a == 0 {
        assert(s.skip(0) =~= s);
    } else {
        lemma_trim_leading_skip(s.drop_first(), c, a - 1);
        assert(s.drop_first().skip(a - 1) =~= s.skip(a));
    }
}

proof fn lemma_trim_trailing_take(s: Seq<char>, c: char, b: int)
    requires
        0 <= b <= s.len(),
        forall|k: int| b <= k < s.len() ==> s[k] == c,
        b > 0 ==> s[b - 1] != c,
    ensures
        trim_trailing(s, c) == s.take(b),
    decreases s.len() - b,
{
    if b == s.len() {
        assert(s.take(b) =~= s);
    } else {
        lemma_trim_trailing_take(s.drop_last(), c, b);
        assert(s.drop_last().take(b) =~= s.take(b));
    }
}

/// Removes every leading and trailing `c` from the string.
pub fn trim_char_val(s: &str, c: char) -> (r: String)
    ensures
        r@ == trim_char(s@, c),
{
    let n = s.unicode_len();
    let mut a: usize = 0;
    while a < n && s.get_char(a) == c
        invariant
            n == s@.len(),
            0 <= a <= n,
            forall|k: int| 0 <= k < a ==> s@[k] == c,
        decreases n - a,
    {
        a = a + 1;
    }
    proof {
        lemma_trim_leading_skip(s@, c, a as int);
    }
    let mut b: usize = n;
    while b > a && s.get_char(b - 1) == c
        invariant
            n == s@.len(),
            0 <= a <= b <= n,
            forall|k: int| b <= k < n ==> s@[k] == c,
        decreases b,
    {
        b = b - 1;
    }
    let r = s.substring_char(a, b);
    proof {
        let t = s@.skip(a as int);
        if b == a {
            lemma_trim_trailing_take(t, c, 0);
        } else {
            lemma_trim_trailing_take(t, c, b - a as int);
        }
        assert(t.take(b - a as int) =~= s@.subrange(a as int, b as int));
    }
    r.to_owned()
}

/// The value of an uppercase hexadecimal digit, or -1.
pub open spec fn hex_digit_upper(c: char) -> int {
    if '0' <= c && c <= '9' {
        c as int - '0' as int
    } else if 'A' <= c && c <= 'F' {
        c as int - 'A' as int + 10
    } else {
        -1
    }
}

/// The three bytes named by a vendor prefix written `AA:BB:CC` with
/// uppercase hexadecimal digits, or `None` for any other shape — the
/// exact shape the vendor table is matched under.
pub open spec fn prefix_bytes(s: Seq<char>) -> Option<Seq<u8>> {
    if s.len() == 8 && s[2] == ':' && s[5] == ':' && hex_digit_upper(s[0]) != -1 && hex_digit_upper(
        s[1],
    ) != -1 && hex_digit_upper(s[3]) != -1 && hex_digit_upper(s[4]) != -1 && hex_digit_upper(s[6])
        != -1 && hex_digit_upper(s[7]) != -1 {
        Option::Some(
            seq![
                (16 * hex_digit_upper(s[0]) + hex_digit_upper(s[1])) as u8,
                (16 * hex_digit_upper(s[3]) + hex_digit_upper(s[4])) as u8,
                (16 * hex_digit_upper(s[6]) + hex_digit_upper(s[7])) as u8,
            ],
        )
    } else {
        Option::<Seq<u8>>::None
    }
}

fn hex_digit_upper_val(c: char) -> (r: i8)
    ensures
        r as int == hex_digit_upper(c),
{
    if '0' <= c && c <= '9' {
        ((c as u32) - ('0' as u32)) as i8
    } else if 'A' <= c && c <= 'F' {
        ((c as u32) - ('A' as u32) + 10) as i8
    } else {
        -1
    }
}

fn prefix_bytes_val(s: &str) -> (r: Option<[u8; 3]>)
    ensures
        r matches Some(b) ==> prefix_bytes(s@) == Option::Some(b@),
        r is None ==> prefix_bytes(s@) is None,
{
    if s.unicode_len() != 8 {
        return Option::None;
    }
    if s.get_char(2) != ':' || s.get_char(5) != ':' {
        return Option::None;
    }
    let d0 = hex_digit_upper_val(s.get_char(0));
    let d1 = hex_digit_upper_val(s.get_char(1));
    let d2 = hex_digit_upper_val(s.get_char(3));
    let d3 = hex_digit_upper_val(s.get_char(4));
    let d4 = hex_digit_upper_val(s.get_char(6));
    let d5 = hex_digit_upper_val(s.get_char(7));
    if d0 < 0 || d1 < 0 || d2 < 0 || d3 < 0 || d4 < 0 || d5 < 0 {
        return Option::None;
    }
    let b: [u8; 3] = [
        16 * (d0 as u8) + (d1 as u8),
        16 * (d2 as u8) + (d3 as u8),
        16 * (d4 as u8) + (d5 as u8),
    ];
    proof {
        assert(b@ =~= prefix_bytes(s@).unwrap());
    }
    Option::Some(b)
}

/// The vendor named by one line of the vendor table: comma-separated
/// fields, quotes trimmed, the first a vendor prefix and the second the
/// vendor name.
pub open spec fn csv_entry(line: Seq<char>) -> Option<(Seq<u8>, Seq<char>)> {
    let parts = split_chars(line, ',');
    if parts.len() >= 2 {
        match prefix_bytes(trim_char(parts[0], '"')) {
            Option::Some(b) => Option::Some((b, trim_char(parts[1], '"'))),
            Option::None => Option::<(Seq<u8>, Seq<char>)>::None,
        }
    } else {
        Option::<(Seq<u8>, Seq<char>)>::None
    }
}

fn csv_entry_val(line: &str) -> (r: Option<([u8; 3], String)>)
    ensures
        r matches Some(e) ==> csv_entry(line@) == Option::Some((e.0@, e.1@)),
        r is None ==> csv_entry(line@) is None,
{
    let mut parts = split_str(line, ',');
    if parts.len() < 2 {
        return Option::None;
    }
    let p0 = trim_char_val(parts[0].as_str(), '"');
    match prefix_bytes_val(p0.as_str()) {
        Option::Some(b) => {
            let vendor = trim_char_val(parts[1].as_str(), '"');
            Option::Some((b, vendor))
        },
        Option::None => Option::None,
    }
}

/// The vendor the table's data lines (the header is not among them)
/// record for a three-byte prefix: the last matching line wins.
pub open spec fn vendor_for_prefix(lines: Seq<Seq<char>>, prefix: Seq<u8>) -> Option<Seq<char>>
    decreases lines.len(),
{
    if lines.len() == 0 {
        Option::<Seq<char>>::None
    } else {
        match csv_entry(lines.last()) {
            Option::Some(e) => if e.0 == prefix {
                Option::Some(e.1)
            } else {
                vendor_for_prefix(lines.drop_last(), prefix)
            },
            Option::None => vendor_for_prefix(lines.drop_last(), prefix),
        }
    }
}

fn vendor_for_mac(csv_lines: &Vec<String>, mac: &[u8; 6]) -> (r: Option<String>)
    requires
        csv_lines@.len() >= 1,
    ensures
        (match r {
            Option::Some(v) => vendor_for_prefix(
                csv_lines@.map_values(|l: String| l@).drop_first(),
                mac@.take(3),
            ) == Option::Some(v@),
            Option::None => vendor_for_prefix(
                csv_lines@.map_values(|l: String| l@).drop_first(),
                mac@.take(3),
            ) is None,
        }),
{
    let ghost ls = csv_lines@.map_values(|l: String| l@).drop_first();
    let mut i: usize = csv_lines.len();
    proof {
        assert(ls.take(i as int - 1) =~= ls);
    }
    while i > 1
        invariant
            1 <= i <= csv_lines@.len(),
            ls == csv_lines@.map_values(|l: String| l@).drop_first(),
            vendor_for_prefix(ls, mac@.take(3)) == vendor_for_prefix(
                ls.take(i as int - 1),
                mac@.take(3),
            ),
        decreases i,
    {
        proof {
            assert(ls.take(i as int - 1).drop_last() =~= ls.take(i as int - 2));
            assert(ls.take(i as int - 1).last() == ls[i as int - 2]);
            assert(ls[i as int - 2] == csv_lines@.map_values(|l: String| l@)[i as int - 1]);
        }
        match csv_entry_val(csv_lines[i - 1].as_str()) {
            Option::Some((b, vendor)) => {
                if b[0] == mac[0] && b[1] == mac[1] && b[2] == mac[2] {
                    proof {
                        assert(b@ =~= mac@.take(3));
                    }
                    return Option::Some(vendor);
                }
                proof {
                    assert(b@ !~= mac@.take(3));
                }
            },
            Option::None => {},
        }
        i = i - 1;
    }
    proof {
        assert(ls.take(0) =~= Seq::<Seq<char>>::empty());
    }
    Option::None
}

/// The vendors the table records for the queried MAC addresses: one
/// entry for each distinct MAC whose three-byte prefix a data line
/// names, in query order, the last matching line winning.
pub open spec fn lookup_spec(macs: Seq<[u8; 6]>, lines: Seq<Seq<char>>) -> Seq<(Seq<u8>, Seq<char>)>
    decreases macs.len(),
{
    if macs.len() == 0 {
        Seq::<(Seq<u8>, Seq<char>)>::empty()
    } else {
        let prefix = lookup_spec(macs.drop_last(), lines);
        let m = macs.last();
        if macs.drop_last().contains(m) {
            prefix
        } else {
            match vendor_for_prefix(lines, m@.take(3)) {
                Option::Some(v) => prefix.push((m@, v)),
                Option::None => prefix,
            }
        }
    }
}

fn macs_contain(macs: &Vec<[u8; 6]>, upto: usize, mac: &[u8; 6]) -> (r: bool)
    requires
        upto <= macs@.len(),
    ensures
        r == macs@.take(upto as int).contains(*mac),
{
    let mut i: usize = 0;
    while i < upto
        invariant
            0 <= i <= upto <= macs@.len(),
            forall|k: int| 0 <= k < i ==> macs@[k] != *mac,
        decreases upto - i,
    {
        if mac_eq(&macs[i], mac) {
            proof {
                assert(macs@[i as int]@ == mac@);
                assert(macs@[i as int] =~= *mac);
                assert(macs@.take(upto as int)[i as int] == *mac);
            }
            return true;
        }
        i = i + 1;
    }
    proof {
        if macs@.take(upto as int).contains(*mac) {
            let w = choose|w: int| 0 <= w < upto && macs@.take(upto as int)[w] == *mac;
            assert(macs@[w] == *mac);
        }
    }
    false
}

/// Looks each queried MAC address up in the vendor table (its first
/// line a header), matching on the three-byte prefix written `AA:BB:CC`
/// (see `lookup_spec`).
pub fn lookup(macs: &Vec<[u8; 6]>, csv_lines: &Vec<String>) -> (r: Vec<([u8; 6], String)>)
    requires
        csv_lines@.len() >= 1,
    ensures
        r@.map_values(|e: ([u8; 6], String)| (e.0@, e.1@)) == lookup_spec(
            macs@,
            csv_lines@.map_values(|l: String| l@).drop_first(),
        ),
{
    let ghost ls = csv_lines@.map_values(|l: String| l@).drop_first();
    let mut out: Vec<([u8; 6], String)> = Vec::new();
    let mut i: usize = 0;
    while i < macs.len()
        invariant
            0 <= i <= macs@.len(),
            csv_lines@.len() >= 1,
            ls == csv_lines@.map_values(|l: String| l@).drop_first(),
            out@.map_values(|e: ([u8; 6], String)| (e.0@, e.1@)) == lookup_spec(
                macs@.take(i as int),
                ls,
            ),
        decreases macs@.len() - i,
    {
        proof {
            assert(macs@.take(i as int + 1).drop_last() =~= macs@.take(i as int));
            assert(macs@.take(i as int + 1).last() == macs@[i as int]);
        }
        let m = macs[i];
        if !macs_contain(macs, i, &m) {
            match vendor_for_mac(csv_lines, &m) {
                Option::Some(v) => {
                    let entry = (m, v);
                    proof {
                        let f = |e: ([u8; 6], String)| (e.0@, e.1@);
                        assert(out@.push(entry).map_values(f) =~= out@.map_values(f).push(
                            (entry.0@, entry.1@),
                        ));
                    }
                    out.push(entry);
                },
                Option::None => {},
            }
        }
        i = i + 1;
    }
    proof {
        assert(macs@.take(macs@.len() as int) =~= macs@);
    }
    out
}

/// Binds a vendor name onto every access point whose MAC prefix the
/// vendor table (its first line a header) names; other access points
/// are left alone.
pub fn bind_vendors_to_aps(aps: &mut Vec<AccessPoint>, csv_lines: &Vec<String>)
    requires
        csv_lines@.len() >= 1,
    ensures
        final(aps)@.len() == old(aps)@.len(),
        forall|i: int| 0 <= i < old(aps)@.len() ==> (#[trigger] final(aps)@[i])@ == (ApModel {
            vendor: (match vendor_for_prefix(
                csv_lines@.map_values(|l: String| l@).drop_first(),
                old(aps)@[i]@.mac.take(3),
            ) {
                Option::Some(v) => Option::Some(v),
                Option::None => old(aps)@[i]@.vendor,
            }),
            ..old(aps)@[i]@
        }),
{
    let ghost ls = csv_lines@.map_values(|l: String| l@).drop_first();
    let n = aps.len();
    let mut i: usize = 0;
    while i < n
        invariant
            n == aps@.len(),
            n == old(aps)@.len(),
            csv_lines@.len() >= 1,
            ls == csv_lines@.map_values(|l: String| l@).drop_first(),
            0 <= i <= n,
            forall|k: int| i <= k < n ==> #[trigger] aps@[k] == old(aps)@[k],
            forall|k: int| 0 <= k < i ==> (#[trigger] aps@[k])@ == (ApModel {
                vendor: (match vendor_for_prefix(ls, old(aps)@[k]@.mac.take(3)) {
                    Option::Some(v) => Option::Some(v),
                    Option::None => old(aps)@[k]@.vendor,
                }),
                ..old(aps)@[k]@
            }),
        decreases n - i,
    {
        let mut ap = aps.remove(i);
        match vendor_for_mac(csv_lines, &ap.mac) {
            Option::Some(v) => {
                ap.vendor = Option::Some(v);
            },
            Option::None => {},
        }
        aps.insert(i, ap);
        i = i + 1;
    }
}

} // verus!
