use vstd::prelude::*;
use vstd::string::StrSliceExecFns;

verus! {

/// Whether two strings hold the same characters.
pub fn str_eq(a: &str, b: &str) -> (r: bool)
    ensures
        r == (a@ == b@),
{
    let n = a.unicode_len();
    let m = b.unicode_len();
    if n != m {
        return false;
    }
    let mut i: usize = 0;
    while i < n
        invariant
            n == a@.len(),
            n == b@.len(),
            0 <= i <= n,
            forall|k: int| 0 <= k < i ==> a@[k] == b@[k],
        decreases n - i,
    {
        if a.get_char(i) != b.get_char(i) {
            return false;
        }
        i = i + 1;
    }
    proof {
        assert(a@ =~= b@);
    }
    true
}

/// Whether `p` occurs in `s` as a contiguous run of characters.
pub open spec fn contains_seq(s: Seq<char>, p: Seq<char>) -> bool {
    exists|i: int|
        #![trigger s.subrange(i, i + p.len())]
        0 <= i <= s.len() - p.len() && s.subrange(i, i + p.len()) == p
}

/// Whether the string `s` contains the string `p`.
pub fn str_contains(s: &str, p: &str) -> (r: bool)
    ensures
        r == contains_seq(s@, p@),
{
    let n = s.unicode_len();
    let m = p.unicode_len();
    if m > n {
        proof {
            assert(!contains_seq(s@, p@));
        }
        return false;
    }
    if m == 0 {
        proof {
            assert(s@.subrange(0, 0 + p@.len() as int) =~= p@);
        }
        return true;
    }
    let mut i: usize = 0;
    while i <= n - m
        invariant
            n == s@.len(),
            m == p@.len(),
            0 < m <= n,
            0 <= i <= n - m + 1,
            forall|t: int| 0 <= t < i ==> #[trigger] s@.subrange(t, t + m) != p@,
        decreases n - i,
    {
        let mut j: usize = 0;
        let mut differs = false;
        while j < m && !differs
            invariant
                n == s@.len(),
                m == p@.len(),
                0 <= i <= n - m,
                0 <= j <= m,
                !differs ==> forall|t: int| 0 <= t < j ==> s@[i + t] == p@[t],
                differs ==> s@.subrange(i as int, i + m) != p@,
            decreases m - j, (if differs { 0int } else { 1int }),
        {
            if s.get_char(i + j) != p.get_char(j) {
                proof {
                    assert(s@.subrange(i as int, i + m)[j as int] != p@[j as int]);
                }
                differs = true;
            } else {
                j = j + 1;
            }
        }
        if !differs {
            proof {
                assert(s@.subrange(i as int, i + m) =~= p@);
            }
            return true;
        }
        i = i + 1;
    }
    proof {
        assert forall|t: int| 0 <= t <= n - m implies #[trigger] s@.subrange(t, t + m) != p@ by {
            assert(t < i);
        }
    }
    false
}

/// The index of the first occurrence of `sep` in `s`, or -1.
pub open spec fn find_char(s: Seq<char>, sep: char) -> int
    decreases s.len(),
{
    if s.len() == 0 {
        -1
    } else if s[0] == sep {
        0
    } else {
        let r = find_char(s.drop_first(), sep);
        if r == -1 {
            -1
        } else {
            r + 1
        }
    }
}

proof fn lemma_find_char_none(s: Seq<char>, sep: char)
    requires
        forall|k: int| 0 <= k < s.len() ==> s[k] != sep,
    ensures
        find_char(s, sep) == -1,
    decreases s.len(),
{
    if s.len() > 0 {
        lemma_find_char_none(s.drop_first(), sep);
    }
}

proof fn lemma_find_char_at(s: Seq<char>, sep: char, i: int)
    requires
        0 <= i < s.len(),
        s[i] == sep,
        forall|k: int| 0 <= k < i ==> s[k] != sep,
    ensures
        find_char(s, sep) == i,
    decreases i,
{
    if i > 0 {
        lemma_find_char_at(s.drop_first(), sep, i - 1);
    }
}

/// The pieces of `s` between occurrences of `sep`: always one more
/// piece than there are separators, so an empty input yields one empty
/// piece.
pub open spec fn split_chars(s: Seq<char>, sep: char) -> Seq<Seq<char>>
    decreases s.len(),
{
    let k = find_char(s, sep);
    if 0 <= k && k < s.len() {
        seq![s.take(k)] + split_chars(s.skip(k + 1), sep)
    } else {
        seq![s]
    }
}

/// Splits `s` at every occurrence of `sep`.
pub fn split_str(s: &str, sep: char) -> (r: Vec<String>)
    ensures
        r@.map_values(|p: String| p@) == split_chars(s@, sep),
{
    let n = s.unicode_len();
    let mut parts: Vec<String> = Vec::new();
    let mut start: usize = 0;
    let mut i: usize = 0;
    proof {
        assert(s@.skip(0) =~= s@);
        assert(parts@.map_values(|p: String| p@) + split_chars(s@, sep) =~= split_chars(s@, sep));
    }
    while i < n
        invariant
            n == s@.len(),
            0 <= start <= i <= n,
            forall|k: int| start <= k < i ==> s@[k] != sep,
            split_chars(s@, sep) == parts@.map_values(|p: String| p@) + split_chars(
                s@.skip(start as int),
                sep,
            ),
        decreases n - i,
    {
        if s.get_char(i) == sep {
            let piece = s.substring_char(start, i).to_owned();
            proof {
                let rest = s@.skip(start as int);
                assert(forall|k: int| 0 <= k < i - start ==> rest[k] != sep);
                assert(rest[i - start as int] == sep);
                lemma_find_char_at(rest, sep, i - start as int);
                assert(rest.take(i - start as int) =~= s@.subrange(start as int, i as int));
                assert(rest.skip(i - start as int + 1) =~= s@.skip(i as int + 1));
                assert((parts@.push(piece)).map_values(|p: String| p@) =~= parts@.map_values(
                    |p: String| p@,
                ).push(s@.subrange(start as int, i as int)));
            }
            parts.push(piece);
            start = i + 1;
        }
        i = i + 1;
    }
    let last = s.substring_char(start, n).to_owned();
    proof {
        let rest = s@.skip(start as int);
        lemma_find_char_none(rest, sep);
        assert(rest =~= s@.subrange(start as int, n as int));
        assert((parts@.push(last)).map_values(|p: String| p@) =~= parts@.map_values(
            |p: String| p@,
        ).push(s@.subrange(start as int, n as int)));
    }
    parts.push(last);
    parts
}

/// The numeric value of a hexadecimal digit, or -1.
pub open spec fn hex_digit(c: char) -> int {
    if '0' <= c && c <= '9' {
        c as int - '0' as int
    } else if 'a' <= c && c <= 'f' {
        c as int - 'a' as int + 10
    } else if 'A' <= c && c <= 'F' {
        c as int - 'A' as int + 10
    } else {
        -1
    }
}

fn hex_digit_val(c: char) -> (r: i8)
    ensures
        r as int == hex_digit(c),
{
    if '0' <= c && c <= '9' {
        ((c as u32) - ('0' as u32)) as i8
    } else if 'a' <= c && c <= 'f' {
        ((c as u32) - ('a' as u32) + 10) as i8
    } else if 'A' <= c && c <= 'F' {
        ((c as u32) - ('A' as u32) + 10) as i8
    } else {
        -1
    }
}

/// Whether twelve characters are all hexadecimal digits.
pub open spec fn mac_hex_valid(s: Seq<char>) -> bool {
    s.len() == 12 && forall|k: int| 0 <= k < 12 ==> hex_digit(#[trigger] s[k]) != -1
}

/// The six bytes encoded by twelve hexadecimal characters, where a pair
/// holding any non-hexadecimal character counts as zero.
pub open spec fn mac_bytes_lenient(s: Seq<char>) -> Seq<u8> {
    Seq::new(
        6,
        |i: int|
            {
                let hi = hex_digit(s[2 * i]);
                let lo = hex_digit(s[2 * i + 1]);
                if hi == -1 || lo == -1 {
                    0u8
                } else {
                    (16 * hi + lo) as u8
                }
            },
    )
}

/// Reads a MAC address out of twelve hexadecimal characters; `None`
/// when the length is wrong or any character is not a hexadecimal
/// digit.
pub fn parse_mac_strict(s: &str) -> (r: Option<[u8; 6]>)
    ensures
        r matches Some(m) ==> mac_hex_valid(s@) && m@ == mac_bytes_lenient(s@),
        r is None ==> !mac_hex_valid(s@),
{
    if s.unicode_len() != 12 {
        return Option::None;
    }
    let mut bytes: [u8; 6] = [0, 0, 0, 0, 0, 0];
    let mut i: usize = 0;
    while i < 6
        invariant
            s@.len() == 12,
            0 <= i <= 6,
            bytes@.len() == 6,
            forall|k: int| 0 <= k < 2 * i ==> hex_digit(#[trigger] s@[k]) != -1,
            forall|k: int| 0 <= k < i ==> #[trigger] bytes@[k] == mac_bytes_lenient(s@)[k],
        decreases 6 - i,
    {
        let hi = hex_digit_val(s.get_char(2 * i));
        let lo = hex_digit_val(s.get_char(2 * i + 1));
        if hi < 0 || lo < 0 {
            return Option::None;
        }
        bytes[i] = (16 * (hi as u8)) + (lo as u8);
        proof {
            assert(hex_digit(s@[2 * (i as int)]) == hi as int);
            assert(hex_digit(s@[2 * (i as int) + 1]) == lo as int);
            assert(bytes@[i as int] == mac_bytes_lenient(s@)[i as int]);
        }
        i = i + 1;
    }
    proof {
        assert(bytes@ =~= mac_bytes_lenient(s@));
    }
    Option::Some(bytes)
}

/// Reads a MAC address out of twelve characters, where a byte whose
/// pair holds a non-hexadecimal character reads as zero; `None` only
/// when the length is wrong.
pub fn parse_mac_lenient(s: &str) -> (r: Option<[u8; 6]>)
    ensures
        r matches Some(m) ==> s@.len() == 12 && m@ == mac_bytes_lenient(s@),
        r is None ==> s@.len() != 12,
{
    if s.unicode_len() != 12 {
        return Option::None;
    }
    let mut bytes: [u8; 6] = [0, 0, 0, 0, 0, 0];
    let mut i: usize = 0;
    while i < 6
        invariant
            s@.len() == 12,
            0 <= i <= 6,
            bytes@.len() == 6,
            forall|k: int| 0 <= k < i ==> #[trigger] bytes@[k] == mac_bytes_lenient(s@)[k],
        decreases 6 - i,
    {
        let hi = hex_digit_val(s.get_char(2 * i));
        let lo = hex_digit_val(s.get_char(2 * i + 1));
        if hi >= 0 && lo >= 0 {
            bytes[i] = (16 * (hi as u8)) + (lo as u8);
        } else {
            bytes[i] = 0;
        }
        proof {
            assert(hex_digit(s@[2 * (i as int)]) == hi as int);
            assert(hex_digit(s@[2 * (i as int) + 1]) == lo as int);
            assert(bytes@[i as int] == mac_bytes_lenient(s@)[i as int]);
        }
        i = i + 1;
    }
    proof {
        assert(bytes@ =~= mac_bytes_lenient(s@));
    }
    Option::Some(bytes)
}

/// Whether two six-byte MAC addresses are equal.
pub fn mac_eq(a: &[u8; 6], b: &[u8; 6]) -> (r: bool)
    ensures
        r == (a@ == b@),
{
    let mut i: usize = 0;
    while i < 6
        invariant
            0 <= i <= 6,
            forall|k: int| 0 <= k < i ==> a@[k] == b@[k],
        decreases 6 - i,
    {
        if a[i] != b[i] {
            return false;
        }
        i = i + 1;
    }
    proof {
        assert(a@ =~= b@);
    }
    true
}


/// A pushed sequence holds an element exactly when the sequence held
/// it before the push or it is the pushed one.
pub proof fn lemma_push_contains<T>(s: Seq<T>, x: T, c: T)
    ensures
        s.push(x).contains(c) <==> (s.contains(c) || c == x),
{
    let t = s.push(x);
    if t.contains(c) {
        let w = choose|w: int| 0 <= w < t.len() && t[w] == c;
        if w < s.len() {
            assert(s[w] == c);
        }
    }
    if s.contains(c) {
        let w = choose|w: int| 0 <= w < s.len() && s[w] == c;
        assert(t[w] == c);
    }
    if c == x {
        assert(t[s.len() as int] == c);
    }
}

} // verus!
