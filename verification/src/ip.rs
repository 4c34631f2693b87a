//! IPv4 addresses as text: the canonical dotted-quad form, its parser and its
//! formatter. The node-list wire format carries each address as four raw
//! bytes, so membership code converts between the textual form held in
//! `PeerNode` and those bytes.

use vstd::prelude::*;

verus! {

/// The numeric value of a decimal digit character, or 10 for anything else.
pub open spec fn digit_val(c: char) -> int {
    if c == '0' {
        0
    } else if c == '1' {
        1
    } else if c == '2' {
        2
    } else if c == '3' {
        3
    } else if c == '4' {
        4
    } else if c == '5' {
        5
    } else if c == '6' {
        6
    } else if c == '7' {
        7
    } else if c == '8' {
        8
    } else if c == '9' {
        9
    } else {
        10
    }
}

/// `c` is a decimal digit.
pub open spec fn is_digit(c: char) -> bool {
    digit_val(c) < 10
}

/// The decimal digit character for a value from 0 to 9.
pub open spec fn digit_char(d: int) -> char {
    if d == 0 {
        '0'
    } else if d == 1 {
        '1'
    } else if d == 2 {
        '2'
    } else if d == 3 {
        '3'
    } else if d == 4 {
        '4'
    } else if d == 5 {
        '5'
    } else if d == 6 {
        '6'
    } else if d == 7 {
        '7'
    } else if d == 8 {
        '8'
    } else {
        '9'
    }
}

/// The canonical decimal text of a byte: one to three digits, no leading
/// zeros.
pub open spec fn dec_chars(n: u8) -> Seq<char> {
    if n < 10 {
        seq![digit_char(n as int)]
    } else if n < 100 {
        seq![digit_char(n as int / 10), digit_char(n as int % 10)]
    } else {
        seq![
            digit_char(n as int / 100),
            digit_char((n as int / 10) % 10),
            digit_char(n as int % 10),
        ]
    }
}

/// The canonical dotted-quad text of an IPv4 address.
pub open spec fn ip_chars(a: u8, b: u8, c: u8, d: u8) -> Seq<char> {
    dec_chars(a) + seq!['.'] + dec_chars(b) + seq!['.'] + dec_chars(c) + seq!['.'] + dec_chars(d)
}

/// Parses one canonical decimal group starting at `i`: its value and the
/// position after it. A group is one to three digits, has no leading zero,
/// stays at most 255, and is as long as the digits run.
pub open spec fn group_at(s: Seq<char>, i: int) -> Option<(u8, int)> {
    if 0 <= i < s.len() && is_digit(s[i]) {
        if s[i] == '0' {
            Some((0u8, i + 1))
        } else if i + 1 < s.len() && is_digit(s[i + 1]) {
            if i + 2 < s.len() && is_digit(s[i + 2]) {
                if digit_val(s[i]) * 100 + digit_val(s[i + 1]) * 10 + digit_val(s[i + 2]) <= 255 {
                    Some(
                        (
                            (digit_val(s[i]) * 100 + digit_val(s[i + 1]) * 10 + digit_val(
                                s[i + 2],
                            )) as u8,
                            i + 3,
                        ),
                    )
                } else {
                    None
                }
            } else {
                Some(((digit_val(s[i]) * 10 + digit_val(s[i + 1])) as u8, i + 2))
            }
        } else {
            Some((digit_val(s[i]) as u8, i + 1))
        }
    } else {
        None
    }
}

/// Parses a whole character sequence as a canonical dotted quad.
pub open spec fn spec_parse_ipv4(s: Seq<char>) -> Option<(u8, u8, u8, u8)> {
    match group_at(s, 0) {
        Some((a, i1)) => if i1 < s.len() && s[i1] == '.' {
            match group_at(s, i1 + 1) {
                Some((b, i2)) => if i2 < s.len() && s[i2] == '.' {
                    match group_at(s, i2 + 1) {
                        Some((c, i3)) => if i3 < s.len() && s[i3] == '.' {
                            match group_at(s, i3 + 1) {
                                Some((d, i4)) => if i4 == s.len() {
                                    Some((a, b, c, d))
                                } else {
                                    None
                                },
                                None => None,
                            }
                        } else {
                            None
                        },
                        None => None,
                    }
                } else {
                    None
                },
                None => None,
            }
        } else {
            None
        },
        None => None,
    }
}

/// `s` is the canonical text of some IPv4 address.
pub open spec fn is_ipv4_text(s: Seq<char>) -> bool {
    spec_parse_ipv4(s) is Some
}

/// The quad encoded by a valid dotted-quad text.
pub open spec fn spec_ip_quad(s: Seq<char>) -> (u8, u8, u8, u8)
    recommends
        is_ipv4_text(s),
{
    spec_parse_ipv4(s)->Some_0
}

/// The numeric value of a digit character, or nothing for other characters.
fn char_digit_val(c: char) -> (r: Option<u8>)
    ensures
        r matches Some(v) ==> is_digit(c) && v == digit_val(c),
        r is None ==> !is_digit(c),
{
    match c {
        '0' => Some(0),
        '1' => Some(1),
        '2' => Some(2),
        '3' => Some(3),
        '4' => Some(4),
        '5' => Some(5),
        '6' => Some(6),
        '7' => Some(7),
        '8' => Some(8),
        '9' => Some(9),
        _ => None,
    }
}

/// Parses one canonical decimal group of `s` starting at `i`.
fn parse_group(s: &str, i: usize) -> (r: Option<(u8, usize)>)
    requires
        i <= s@.len(),
    ensures
        r matches Some(p) ==> group_at(s@, i as int) == Some((p.0, p.1 as int)) && i < p.1
            <= s@.len(),
        r is None ==> group_at(s@, i as int) is None,
{
    let n = s.unicode_len();
    if i >= n {
        return None;
    }
    let c0 = s.get_char(i);
    let d0 = match char_digit_val(c0) {
        Some(d) => d,
        None => {
            return None;
        },
    };
    if c0 == '0' {
        return Some((0, i + 1));
    }
    if i + 1 >= n {
        return Some((d0, i + 1));
    }
    let c1 = s.get_char(i + 1);
    let d1 = match char_digit_val(c1) {
        Some(d) => d,
        None => {
            return Some((d0, i + 1));
        },
    };
    if i + 2 >= n {
        return Some((10 * d0 + d1, i + 2));
    }
    let c2 = s.get_char(i + 2);
    let d2 = match char_digit_val(c2) {
        Some(d) => d,
        None => {
            return Some((10 * d0 + d1, i + 2));
        },
    };
    let v: u32 = 100 * (d0 as u32) + 10 * (d1 as u32) + (d2 as u32);
    if v <= 255 {
        Some((v as u8, i + 3))
    } else {
        None
    }
}

/// Parses the whole string as a canonical dotted quad.
pub fn parse_ipv4_text(s: &str) -> (r: Option<(u8, u8, u8, u8)>)
    ensures
        r == spec_parse_ipv4(s@),
{
    let n = s.unicode_len();
    let (a, i1) = match parse_group(s, 0) {
        Some(p) => p,
        None => {
            return None;
        },
    };
    if i1 >= n || s.get_char(i1) != '.' {
        return None;
    }
    let (b, i2) = match parse_group(s, i1 + 1) {
        Some(p) => p,
        None => {
            return None;
        },
    };
    if i2 >= n || s.get_char(i2) != '.' {
        return None;
    }
    let (c, i3) = match parse_group(s, i2 + 1) {
        Some(p) => p,
        None => {
            return None;
        },
    };
    if i3 >= n || s.get_char(i3) != '.' {
        return None;
    }
    let (d, i4) = match parse_group(s, i3 + 1) {
        Some(p) => p,
        None => {
            return None;
        },
    };
    if i4 == n {
        Some((a, b, c, d))
    } else {
        None
    }
}

/// True exactly when the string is a canonical dotted-quad IPv4 address.
pub fn is_ipv4_address(s: &str) -> (r: bool)
    ensures
        r == is_ipv4_text(s@),
{
    parse_ipv4_text(s).is_some()
}

/// Returns a list of exactly four integers encoding the given IPv4 address.
pub fn ip_address_bytes(address: &str) -> (r: [u8; 4])
    requires
        is_ipv4_text(address@),
    ensures
        spec_parse_ipv4(address@) == Some((r[0], r[1], r[2], r[3])),
{
    match parse_ipv4_text(address) {
        Some((a, b, c, d)) => [a, b, c, d],
        None => {
            proof {
                assert(false);
            }
            [0, 0, 0, 0]
        },
    }
}

/// Appends one decimal digit character.
fn push_digit(s: &mut String, d: u8)
    requires
        d < 10,
    ensures
        final(s)@ == old(s)@ + seq![digit_char(d as int)],
{
    proof {
        reveal_strlit("0");
        reveal_strlit("1");
        reveal_strlit("2");
        reveal_strlit("3");
        reveal_strlit("4");
        reveal_strlit("5");
        reveal_strlit("6");
        reveal_strlit("7");
        reveal_strlit("8");
        reveal_strlit("9");
    }
    match d {
        0 => s.append("0"),
        1 => s.append("1"),
        2 => s.append("2"),
        3 => s.append("3"),
        4 => s.append("4"),
        5 => s.append("5"),
        6 => s.append("6"),
        7 => s.append("7"),
        8 => s.append("8"),
        _ => s.append("9"),
    }
    proof {
        assert(final(s)@ =~= old(s)@ + seq![digit_char(d as int)]);
    }
}

/// Appends the canonical decimal text of `n`.
fn push_dec(s: &mut String, n: u8)
    ensures
        final(s)@ == old(s)@ + dec_chars(n),
{
    if n < 10 {
        push_digit(s, n);
    } else if n < 100 {
        push_digit(s, n / 10);
        push_digit(s, n % 10);
    } else {
        push_digit(s, n / 100);
        push_digit(s, (n / 10) % 10);
        push_digit(s, n % 10);
    }
    proof {
        assert(final(s)@ =~= old(s)@ + dec_chars(n));
    }
}

/// Appends a dot.
fn push_dot(s: &mut String)
    ensures
        final(s)@ == old(s)@ + seq!['.'],
{
    proof {
        reveal_strlit(".");
    }
    s.append(".");
    proof {
        assert(final(s)@ =~= old(s)@ + seq!['.']);
    }
}

/// Returns the IPv4 address encoded by the given bytes.
pub fn ip_address_from_bytes(bytes: &[u8; 4]) -> (r: String)
    ensures
        r@ == ip_chars(bytes[0], bytes[1], bytes[2], bytes[3]),
{
    let mut s = String::new();
    push_dec(&mut s, bytes[0]);
    push_dot(&mut s);
    push_dec(&mut s, bytes[1]);
    push_dot(&mut s);
    push_dec(&mut s, bytes[2]);
    push_dot(&mut s);
    push_dec(&mut s, bytes[3]);
    proof {
        assert(s@ =~= ip_chars(bytes[0], bytes[1], bytes[2], bytes[3]));
    }
    s
}

/// A canonical decimal group, followed by a dot or the end of the text,
/// parses to its value.
proof fn lemma_group_at_dec(s: Seq<char>, i: int, n: u8)
    requires
        0 <= i,
        i + dec_chars(n).len() <= s.len(),
        s.subrange(i, i + dec_chars(n).len()) == dec_chars(n),
        i + dec_chars(n).len() == s.len() || s[i + dec_chars(n).len()] == '.',
    ensures
        group_at(s, i) == Some((n, i + dec_chars(n).len())),
{
    let g = dec_chars(n);
    if n < 10 {
        assert(s[i] == g[0]);
    } else if n < 100 {
        assert(s[i] == g[0] && s[i + 1] == g[1]);
        assert(digit_val(s[i]) == n as int / 10 && digit_val(s[i + 1]) == n as int % 10);
    } else {
        assert(s[i] == g[0] && s[i + 1] == g[1] && s[i + 2] == g[2]);
        assert(digit_val(s[i]) == n as int / 100 && digit_val(s[i + 1]) == (n as int / 10) % 10
            && digit_val(s[i + 2]) == n as int % 10);
    }
}

/// A successful group parse consumed exactly the canonical text of its value.
proof fn lemma_group_at_sound(s: Seq<char>, i: int, n: u8, j: int)
    requires
        group_at(s, i) == Some((n, j)),
    ensures
        j == i + dec_chars(n).len(),
        i + dec_chars(n).len() <= s.len(),
        s.subrange(i, i + dec_chars(n).len()) == dec_chars(n),
{
    if s[i] == '0' {
        assert(s.subrange(i, i + 1) =~= dec_chars(0));
    } else if i + 1 < s.len() && is_digit(s[i + 1]) {
        if i + 2 < s.len() && is_digit(s[i + 2]) {
            let v = digit_val(s[i]) * 100 + digit_val(s[i + 1]) * 10 + digit_val(s[i + 2]);
            assert(digit_val(s[i]) >= 1);
            assert(100 <= v <= 255);
            assert(digit_char(v / 100) == s[i] && digit_char((v / 10) % 10) == s[i + 1]
                && digit_char(v % 10) == s[i + 2]);
            assert(s.subrange(i, i + 3) =~= dec_chars(n));
        } else {
            let v = digit_val(s[i]) * 10 + digit_val(s[i + 1]);
            assert(digit_val(s[i]) >= 1);
            assert(10 <= v <= 99);
            assert(digit_char(v / 10) == s[i] && digit_char(v % 10) == s[i + 1]);
            assert(s.subrange(i, i + 2) =~= dec_chars(n));
        }
    } else {
        let v = digit_val(s[i]);
        assert(1 <= v <= 9);
        assert(digit_char(v) == s[i]);
        assert(s.subrange(i, i + 1) =~= dec_chars(n));
    }
}

/// Law: the parser accepts only the canonical text of the address it returns,
/// so parsing and formatting are mutually inverse.
pub proof fn lemma_parse_ipv4_sound(s: Seq<char>, a: u8, b: u8, c: u8, d: u8)
    requires
        spec_parse_ipv4(s) == Some((a, b, c, d)),
    ensures
        s == ip_chars(a, b, c, d),
{
    let (a0, i1) = group_at(s, 0)->Some_0;
    lemma_group_at_sound(s, 0, a0, i1);
    let (b0, i2) = group_at(s, i1 + 1)->Some_0;
    lemma_group_at_sound(s, i1 + 1, b0, i2);
    let (c0, i3) = group_at(s, i2 + 1)->Some_0;
    lemma_group_at_sound(s, i2 + 1, c0, i3);
    let (d0, i4) = group_at(s, i3 + 1)->Some_0;
    lemma_group_at_sound(s, i3 + 1, d0, i4);
    assert(s[i1] == '.' && s[i2] == '.' && s[i3] == '.' && i4 == s.len());
    assert(s =~= ip_chars(a, b, c, d));
}

/// Law: formatting an address and parsing the text yields the address again.
pub proof fn lemma_parse_ip_chars(a: u8, b: u8, c: u8, d: u8)
    ensures
        spec_parse_ipv4(ip_chars(a, b, c, d)) == Some((a, b, c, d)),
        is_ipv4_text(ip_chars(a, b, c, d)),
        spec_ip_quad(ip_chars(a, b, c, d)) == (a, b, c, d),
{
    let s = ip_chars(a, b, c, d);
    let la = dec_chars(a).len() as int;
    let lb = dec_chars(b).len() as int;
    let lc = dec_chars(c).len() as int;
    let ld = dec_chars(d).len() as int;
    let i1 = la;
    let i2 = la + 1 + lb;
    let i3 = la + 1 + lb + 1 + lc;
    let i4 = la + 1 + lb + 1 + lc + 1 + ld;
    assert(s.len() == i4);
    assert(s.subrange(0, la) =~= dec_chars(a));
    assert(s[i1] == '.');
    lemma_group_at_dec(s, 0, a);
    assert(s.subrange(i1 + 1, i1 + 1 + lb) =~= dec_chars(b));
    assert(s[i2] == '.');
    lemma_group_at_dec(s, i1 + 1, b);
    assert(s.subrange(i2 + 1, i2 + 1 + lc) =~= dec_chars(c));
    assert(s[i3] == '.');
    lemma_group_at_dec(s, i2 + 1, c);
    assert(s.subrange(i3 + 1, i3 + 1 + ld) =~= dec_chars(d));
    lemma_group_at_dec(s, i3 + 1, d);
}

} // verus!
