//! The address validator.
//!
//! A destination is given to the caller as text of the form `address:port`.
//! Before any connection attempt the text is validated exactly once: it must
//! split on its last `:` into a non-empty address part and a non-empty port
//! part, the address part must be an IPv4 or IPv6 literal, and the port part
//! must be a decimal integer in `[1, 65535]`. The accepted grammar, stated
//! over the descriptor's UTF-8 bytes:
//!
//! - IPv4 literal: four groups separated by `.`, each one to three decimal
//!   digits without a leading zero, value at most 255;
//! - IPv6 literal: hexadecimal groups of one to four digits separated by `:`,
//!   the last of which may instead be an embedded IPv4 dotted quad standing
//!   for the final 32 bits; either exactly eight groups' worth, or less with
//!   one `::` standing for the missing zero groups;
//! - port: one or more decimal digits (leading zeros allowed), value in
//!   `[1, 65535]`.

use vstd::prelude::*;

verus! {

use vstd::slice::{slice_subrange, slice_to_vec};
use vstd::string::StringSliceAdditionalSpecFns;

/// The byte of the `:` separator.
pub const COLON: u8 = 58;

/// The byte of the `.` separator.
pub const DOT: u8 = 46;

/// Index of the first occurrence of `c` in `s`, if any.
pub open spec fn find_byte(s: Seq<u8>, c: u8) -> Option<int>
    decreases s.len(),
{
    if s.len() == 0 {
        None
    } else if s[0] == c {
        Some(0)
    } else {
        match find_byte(s.skip(1), c) {
            Some(i) => Some(i + 1),
            None => None,
        }
    }
}

/// What [`find_byte`] returns: the first position holding `c`, or nothing
/// when `c` does not occur.
pub proof fn lemma_find_byte(s: Seq<u8>, c: u8)
    ensures
        match find_byte(s, c) {
            Some(i) => 0 <= i < s.len() && s[i] == c && (forall|j: int| 0 <= j < i ==> s[j] != c),
            None => forall|j: int| 0 <= j < s.len() ==> s[j] != c,
        },
    decreases s.len(),
{
    if s.len() == 0 {
    } else if s[0] == c {
    } else {
        lemma_find_byte(s.skip(1), c);
        assert forall|j: int| 1 <= j < s.len() implies s[j] == s.skip(1)[j - 1] by {}
    }
}

/// Index of the last occurrence of `c` in `s`, if any.
pub open spec fn find_last_byte(s: Seq<u8>, c: u8) -> Option<int>
    decreases s.len(),
{
    if s.len() == 0 {
        None
    } else if s.last() == c {
        Some(s.len() - 1)
    } else {
        find_last_byte(s.drop_last(), c)
    }
}

/// What [`find_last_byte`] returns: the last position holding `c`, or
/// nothing when `c` does not occur.
pub proof fn lemma_find_last_byte(s: Seq<u8>, c: u8)
    ensures
        match find_last_byte(s, c) {
            Some(i) => 0 <= i < s.len() && s[i] == c && (forall|j: int|
                i < j < s.len() ==> s[j] != c),
            None => forall|j: int| 0 <= j < s.len() ==> s[j] != c,
        },
    decreases s.len(),
{
    if s.len() == 0 {
    } else if s.last() == c {
    } else {
        lemma_find_last_byte(s.drop_last(), c);
        assert forall|j: int| 0 <= j < s.len() - 1 implies s[j] == s.drop_last()[j] by {}
    }
}

/// Index of the first occurrence of two adjacent `c` bytes in `s`, if any.
pub open spec fn find_double_byte(s: Seq<u8>, c: u8) -> Option<int>
    decreases s.len(),
{
    if s.len() < 2 {
        None
    } else if s[0] == c && s[1] == c {
        Some(0)
    } else {
        match find_double_byte(s.skip(1), c) {
            Some(i) => Some(i + 1),
            None => None,
        }
    }
}

/// What [`find_double_byte`] returns: the first position where `c` stands
/// twice in a row, or nothing when no two adjacent bytes are both `c`.
pub proof fn lemma_find_double_byte(s: Seq<u8>, c: u8)
    ensures
        match find_double_byte(s, c) {
            Some(i) => 0 <= i < s.len() - 1 && s[i] == c && s[i + 1] == c && (forall|j: int|
                0 <= j < i ==> !(#[trigger] s[j] == c && s[j + 1] == c)),
            None => forall|j: int| 0 <= j < s.len() - 1 ==> !(#[trigger] s[j] == c && s[j + 1] == c),
        },
    decreases s.len(),
{
    if s.len() < 2 {
    } else if s[0] == c && s[1] == c {
    } else {
        lemma_find_double_byte(s.skip(1), c);
        assert forall|j: int| 1 <= j < s.len() implies s[j] == s.skip(1)[j - 1] by {}
    }
}

/// The groups of `s` between occurrences of the separator `c`. A separator
/// at the start or end, or two adjacent separators, yield empty groups.
pub open spec fn split_on(s: Seq<u8>, c: u8) -> Seq<Seq<u8>>
    decreases s.len(),
    via split_on_decreases
{
    match find_byte(s, c) {
        None => seq![s],
        Some(i) => seq![s.take(i)] + split_on(s.skip(i + 1), c),
    }
}

#[via_fn]
proof fn split_on_decreases(s: Seq<u8>, c: u8) {
    lemma_find_byte(s, c);
}

/// Find the first occurrence of `c` in a byte slice.
fn find_first(s: &[u8], c: u8) -> (r: Option<usize>)
    ensures
        match r {
            Some(i) => find_byte(s@, c) == Some(i as int),
            None => find_byte(s@, c) is None,
        },
{
    proof {
        lemma_find_byte(s@, c);
    }
    let mut i: usize = 0;
    while i < s.len()
        invariant
            0 <= i <= s@.len(),
            forall|j: int| 0 <= j < i ==> s@[j] != c,
        decreases s@.len() - i,
    {
        if s[i] == c {
            proof {
                lemma_find_byte(s@, c);
            }
            return Some(i);
        }
        i += 1;
    }
    None
}

/// Find the last occurrence of `c` in a byte slice.
fn find_last(s: &[u8], c: u8) -> (r: Option<usize>)
    ensures
        match r {
            Some(i) => find_last_byte(s@, c) == Some(i as int),
            None => find_last_byte(s@, c) is None,
        },
{
    proof {
        lemma_find_last_byte(s@, c);
    }
    let mut i: usize = s.len();
    while i > 0
        invariant
            0 <= i <= s@.len(),
            forall|j: int| i <= j < s@.len() ==> s@[j] != c,
        decreases i,
    {
        i -= 1;
        if s[i] == c {
            proof {
                lemma_find_last_byte(s@, c);
            }
            return Some(i);
        }
    }
    None
}

/// Find the first occurrence of two adjacent `c` bytes in a byte slice.
fn find_double(s: &[u8], c: u8) -> (r: Option<usize>)
    ensures
        match r {
            Some(i) => find_double_byte(s@, c) == Some(i as int),
            None => find_double_byte(s@, c) is None,
        },
{
    proof {
        lemma_find_double_byte(s@, c);
    }
    if s.len() < 2 {
        return None;
    }
    let mut i: usize = 0;
    while i < s.len() - 1
        invariant
            s@.len() >= 2,
            0 <= i <= s@.len() - 1,
            forall|j: int| 0 <= j < i ==> !(#[trigger] s@[j] == c && s@[j + 1] == c),
        decreases s@.len() - i,
    {
        if s[i] == c && s[i + 1] == c {
            proof {
                lemma_find_double_byte(s@, c);
            }
            return Some(i);
        }
        i += 1;
    }
    None
}

/// Split a byte slice into its groups between occurrences of `c`.
fn split_bytes(s: &[u8], c: u8) -> (r: Vec<Vec<u8>>)
    ensures
        r.deep_view() == split_on(s@, c),
    decreases s@.len(),
{
    proof {
        lemma_find_byte(s@, c);
    }
    match find_first(s, c) {
        None => {
            let mut r: Vec<Vec<u8>> = Vec::new();
            r.push(slice_to_vec(s));
            proof {
                assert(r.deep_view() =~~= split_on(s@, c));
            }
            r
        },
        Some(i) => {
            let n = s.len();
            proof {
                assert(0 <= (i as int) < s@.len());
            }
            let head = slice_to_vec(slice_subrange(s, 0, i));
            let mut tail = split_bytes(slice_subrange(s, i + 1, n), c);
            let mut r: Vec<Vec<u8>> = Vec::new();
            r.push(head);
            r.append(&mut tail);
            proof {
                assert(head@ =~= s@.take(i as int));
                assert(s@.subrange(i + 1, s@.len() as int) =~= s@.skip(i + 1));
                assert(r.deep_view() =~~= split_on(s@, c));
            }
            r
        },
    }
}

/// Whether `c` is a decimal digit byte.
pub open spec fn is_dec_digit(c: u8) -> bool {
    48 <= c <= 57
}

/// Whether every byte of `s` is a decimal digit.
pub open spec fn all_dec_digits(s: Seq<u8>) -> bool {
    forall|i: int| 0 <= i < s.len() ==> is_dec_digit(#[trigger] s[i])
}

/// The value of `s` read as decimal digits.
pub open spec fn dec_value(s: Seq<u8>) -> nat
    recommends
        all_dec_digits(s),
    decreases s.len(),
{
    if s.len() == 0 {
        0
    } else {
        dec_value(s.drop_last()) * 10 + (s.last() - 48) as nat
    }
}

/// A prefix of a digit string never denotes more than the whole string.
pub proof fn lemma_dec_value_prefix(s: Seq<u8>, i: int)
    requires
        0 <= i <= s.len(),
    ensures
        dec_value(s.take(i)) <= dec_value(s),
    decreases s.len() - i,
{
    if i == s.len() {
        assert(s.take(i) =~= s);
    } else {
        lemma_dec_value_prefix(s.drop_last(), i);
        assert(s.drop_last().take(i) =~= s.take(i));
    }
}

/// Whether `c` is a hexadecimal digit byte (either letter case).
pub open spec fn is_hex_digit(c: u8) -> bool {
    (48 <= c <= 57) || (65 <= c <= 70) || (97 <= c <= 102)
}

/// The value of one hexadecimal digit byte.
pub open spec fn hex_digit_value(c: u8) -> nat
    recommends
        is_hex_digit(c),
{
    if 48 <= c <= 57 {
        (c - 48) as nat
    } else if 65 <= c <= 70 {
        (c - 55) as nat
    } else {
        (c - 87) as nat
    }
}

/// Whether every byte of `s` is a hexadecimal digit.
pub open spec fn all_hex_digits(s: Seq<u8>) -> bool {
    forall|i: int| 0 <= i < s.len() ==> is_hex_digit(#[trigger] s[i])
}

/// The value of `s` read as hexadecimal digits.
pub open spec fn hex_value(s: Seq<u8>) -> nat
    recommends
        all_hex_digits(s),
    decreases s.len(),
{
    if s.len() == 0 {
        0
    } else {
        hex_value(s.drop_last()) * 16 + hex_digit_value(s.last())
    }
}

/// Sixteen to the power `n`.
pub open spec fn pow16(n: nat) -> nat
    decreases n,
{
    if n == 0 {
        1
    } else {
        16 * pow16((n - 1) as nat)
    }
}

/// Whether `s` is a valid port: decimal digits denoting a value in
/// `[1, 65535]`.
pub open spec fn is_port_text(s: Seq<u8>) -> bool {
    &&& s.len() > 0
    &&& all_dec_digits(s)
    &&& 1 <= dec_value(s) <= 65535
}

/// Parse a port: the result is the port's value exactly when `p` is a valid
/// port, and nothing otherwise.
pub fn parse_port(p: &[u8]) -> (r: Option<u16>)
    ensures
        match r {
            Some(v) => is_port_text(p@) && v as nat == dec_value(p@),
            None => !is_port_text(p@),
        },
{
    if p.len() == 0 {
        return None;
    }
    let mut acc: u32 = 0;
    let mut i: usize = 0;
    while i < p.len()
        invariant
            0 <= i <= p@.len(),
            all_dec_digits(p@.take(i as int)),
            acc as nat == dec_value(p@.take(i as int)),
            acc <= 65535,
        decreases p@.len() - i,
    {
        let c = p[i];
        if c < 48 || c > 57 {
            return None;
        }
        acc = acc * 10 + (c - 48) as u32;
        proof {
            assert(p@.take(i + 1).drop_last() =~= p@.take(i as int));
            assert(all_dec_digits(p@.take(i + 1)));
        }
        if acc > 65535 {
            proof {
                lemma_dec_value_prefix(p@, i + 1);
            }
            return None;
        }
        i += 1;
    }
    proof {
        assert(p@.take(p@.len() as int) =~= p@);
    }
    if acc == 0 {
        return None;
    }
    Some(acc as u16)
}

/// Whether `s` is a valid IPv4 octet: one to three decimal digits without a
/// leading zero, denoting a value at most 255.
pub open spec fn is_octet_text(s: Seq<u8>) -> bool {
    &&& 1 <= s.len() <= 3
    &&& all_dec_digits(s)
    &&& dec_value(s) <= 255
    &&& (s.len() > 1 ==> s[0] != 48)
}

/// Parse an IPv4 octet: the result is the octet's value exactly when `g` is
/// a valid octet, and nothing otherwise.
fn parse_octet(g: &[u8]) -> (r: Option<u8>)
    ensures
        match r {
            Some(v) => is_octet_text(g@) && v as nat == dec_value(g@),
            None => !is_octet_text(g@),
        },
{
    if g.len() == 0 || g.len() > 3 {
        return None;
    }
    if g.len() > 1 && g[0] == 48 {
        return None;
    }
    let mut acc: u32 = 0;
    let mut i: usize = 0;
    while i < g.len()
        invariant
            0 <= i <= g@.len() <= 3,
            all_dec_digits(g@.take(i as int)),
            acc as nat == dec_value(g@.take(i as int)),
            acc <= 255,
        decreases g@.len() - i,
    {
        let c = g[i];
        if c < 48 || c > 57 {
            return None;
        }
        proof {
            assert(g@.take(i + 1).drop_last() =~= g@.take(i as int));
            assert(all_dec_digits(g@.take(i + 1)));
        }
        acc = acc * 10 + (c - 48) as u32;
        if acc > 255 {
            proof {
                lemma_dec_value_prefix(g@, i + 1);
            }
            return None;
        }
        i += 1;
    }
    proof {
        assert(g@.take(g@.len() as int) =~= g@);
    }
    Some(acc as u8)
}

/// Whether `s` is a valid IPv6 group: one to four hexadecimal digits.
pub open spec fn is_hex_group(s: Seq<u8>) -> bool {
    &&& 1 <= s.len() <= 4
    &&& all_hex_digits(s)
}

/// Parse an IPv6 group: the result is the group's value exactly when `g` is
/// a valid group, and nothing otherwise.
fn parse_hex_group(g: &[u8]) -> (r: Option<u16>)
    ensures
        match r {
            Some(v) => is_hex_group(g@) && v as nat == hex_value(g@),
            None => !is_hex_group(g@),
        },
{
    if g.len() == 0 || g.len() > 4 {
        return None;
    }
    let mut acc: u32 = 0;
    let mut i: usize = 0;
    while i < g.len()
        invariant
            0 <= i <= g@.len() <= 4,
            all_hex_digits(g@.take(i as int)),
            acc as nat == hex_value(g@.take(i as int)),
            acc < pow16(i as nat),
        decreases g@.len() - i,
    {
        let c = g[i];
        let d: u32 = if 48 <= c && c <= 57 {
            (c - 48) as u32
        } else if 65 <= c && c <= 70 {
            (c - 55) as u32
        } else if 97 <= c && c <= 102 {
            (c - 87) as u32
        } else {
            return None;
        };
        proof {
            assert(pow16(0) == 1);
            assert(pow16(1) == 16);
            assert(pow16(2) == 256);
            assert(pow16(3) == 4096);
            assert(i == 0 || i == 1 || i == 2 || i == 3);
            assert(acc < 4096);
            assert(g@.take(i + 1).drop_last() =~= g@.take(i as int));
            assert(all_hex_digits(g@.take(i + 1)));
            assert(pow16((i + 1) as nat) == 16 * pow16(i as nat));
        }
        acc = acc * 16 + d;
        i += 1;
    }
    proof {
        assert(g@.take(g@.len() as int) =~= g@);
        assert(pow16(0) == 1);
        assert(pow16(1) == 16);
        assert(pow16(2) == 256);
        assert(pow16(3) == 4096);
        assert(pow16(4) == 65536);
        assert(i == 1 || i == 2 || i == 3 || i == 4);
        assert(acc < 65536);
    }
    Some(acc as u16)
}

/// Whether `s` is an IPv4 literal: four octets separated by dots.
pub open spec fn is_ipv4_text(s: Seq<u8>) -> bool {
    let gs = split_on(s, DOT);
    gs.len() == 4 && (forall|i: int| 0 <= i < gs.len() ==> is_octet_text(#[trigger] gs[i]))
}

/// The four octet values of an IPv4 literal.
pub open spec fn ipv4_octets(s: Seq<u8>) -> Seq<u8>
    recommends
        is_ipv4_text(s),
{
    split_on(s, DOT).map(|i: int, g: Seq<u8>| dec_value(g) as u8)
}

/// Whether every group of `gs` is a hexadecimal IPv6 group.
pub open spec fn hex_groups_ok(gs: Seq<Seq<u8>>) -> bool {
    forall|i: int| 0 <= i < gs.len() ==> is_hex_group(#[trigger] gs[i])
}

/// The values of a sequence of hexadecimal groups.
pub open spec fn group_values(gs: Seq<Seq<u8>>) -> Seq<u16> {
    gs.map(|i: int, g: Seq<u8>| hex_value(g) as u16)
}

/// The two 16-bit groups that an embedded dotted quad stands for.
pub open spec fn ipv4_pair(s: Seq<u8>) -> Seq<u16>
    recommends
        is_ipv4_text(s),
{
    let o = ipv4_octets(s);
    seq![(o[0] as int * 256 + o[1] as int) as u16, (o[2] as int * 256 + o[3] as int) as u16]
}

/// Whether `gs` is a run of explicit IPv6 groups: hexadecimal groups, the
/// last of which may instead be an embedded IPv4 dotted quad.
pub open spec fn explicit_groups_ok(gs: Seq<Seq<u8>>) -> bool {
    hex_groups_ok(gs) || (gs.len() > 0 && hex_groups_ok(gs.drop_last()) && is_ipv4_text(gs.last()))
}

/// The 16-bit values of a run of explicit IPv6 groups; an embedded dotted
/// quad at the end counts as two.
pub open spec fn explicit_group_values(gs: Seq<Seq<u8>>) -> Seq<u16>
    recommends
        explicit_groups_ok(gs),
{
    if hex_groups_ok(gs) {
        group_values(gs)
    } else {
        group_values(gs.drop_last()) + ipv4_pair(gs.last())
    }
}

/// The explicit groups before a `::` at position `i` of `s`.
pub open spec fn ipv6_left_groups(s: Seq<u8>, i: int) -> Seq<Seq<u8>> {
    let left = s.take(i);
    if left.len() == 0 {
        Seq::empty()
    } else {
        split_on(left, COLON)
    }
}

/// The explicit groups after a `::` at position `i` of `s`.
pub open spec fn ipv6_right_groups(s: Seq<u8>, i: int) -> Seq<Seq<u8>> {
    let right = s.skip(i + 2);
    if right.len() == 0 {
        Seq::empty()
    } else {
        split_on(right, COLON)
    }
}

/// Whether `s` is an IPv6 literal: groups separated by colons, each one to
/// four hexadecimal digits, the last allowed to be an embedded IPv4 dotted
/// quad standing for the final 32 bits; either exactly eight groups' worth,
/// or less with one `::` standing for the missing zero groups. Stray empty
/// groups (a leading, trailing or repeated separator) make a group test
/// fail, so they are excluded here without a separate clause.
pub open spec fn is_ipv6_text(s: Seq<u8>) -> bool {
    match find_double_byte(s, COLON) {
        None => {
            let gs = split_on(s, COLON);
            explicit_groups_ok(gs) && explicit_group_values(gs).len() == 8
        },
        Some(i) => {
            let lg = ipv6_left_groups(s, i);
            let rg = ipv6_right_groups(s, i);
            hex_groups_ok(lg) && explicit_groups_ok(rg) && lg.len() + explicit_group_values(
                rg,
            ).len() <= 7
        },
    }
}

/// The eight group values of an IPv6 literal, the `::` expanded to zeros.
pub open spec fn ipv6_segments(s: Seq<u8>) -> Seq<u16>
    recommends
        is_ipv6_text(s),
{
    match find_double_byte(s, COLON) {
        None => explicit_group_values(split_on(s, COLON)),
        Some(i) => {
            let lg = ipv6_left_groups(s, i);
            let rg = ipv6_right_groups(s, i);
            let rv = explicit_group_values(rg);
            group_values(lg) + Seq::new((8 - lg.len() - rv.len()) as nat, |j: int| 0u16) + rv
        },
    }
}

/// Parse every group of `gs` as a hexadecimal IPv6 group.
fn parse_groups(gs: &Vec<Vec<u8>>) -> (r: Option<Vec<u16>>)
    ensures
        match r {
            Some(v) => hex_groups_ok(gs.deep_view()) && v@ == group_values(gs.deep_view()),
            None => !hex_groups_ok(gs.deep_view()),
        },
{
    let mut v: Vec<u16> = Vec::new();
    let mut i: usize = 0;
    while i < gs.len()
        invariant
            0 <= i <= gs@.len(),
            v@.len() == i,
            forall|j: int| 0 <= j < i ==> is_hex_group(#[trigger] gs.deep_view()[j]),
            forall|j: int| 0 <= j < i ==> (#[trigger] v@[j]) as nat == hex_value(
                gs.deep_view()[j],
            ),
        decreases gs@.len() - i,
    {
        proof {
            assert(gs.deep_view()[i as int] == gs@[i as int]@);
        }
        match parse_hex_group(gs[i].as_slice()) {
            Some(val) => {
                v.push(val);
            },
            None => {
                return None;
            },
        }
        i += 1;
    }
    proof {
        assert(v@ =~= group_values(gs.deep_view()));
    }
    Some(v)
}

/// Parse an IPv4 literal: the result is its four octet values exactly when
/// `a` is an IPv4 literal, and nothing otherwise.
fn parse_ipv4(a: &[u8]) -> (r: Option<Vec<u8>>)
    ensures
        match r {
            Some(v) => is_ipv4_text(a@) && v@ == ipv4_octets(a@) && v@.len() == 4,
            None => !is_ipv4_text(a@),
        },
{
    let gs = split_bytes(a, DOT);
    if gs.len() != 4 {
        return None;
    }
    let mut v: Vec<u8> = Vec::new();
    let mut i: usize = 0;
    while i < gs.len()
        invariant
            gs.deep_view() == split_on(a@, DOT),
            0 <= i <= gs@.len() == 4,
            v@.len() == i,
            forall|j: int| 0 <= j < i ==> is_octet_text(#[trigger] gs.deep_view()[j]),
            forall|j: int| 0 <= j < i ==> (#[trigger] v@[j]) as nat == dec_value(
                gs.deep_view()[j],
            ),
        decreases gs@.len() - i,
    {
        proof {
            assert(gs.deep_view()[i as int] == gs@[i as int]@);
        }
        match parse_octet(gs[i].as_slice()) {
            Some(val) => {
                v.push(val);
            },
            None => {
                return None;
            },
        }
        i += 1;
    }
    proof {
        assert(v@ =~= ipv4_octets(a@));
    }
    Some(v)
}

/// Parse a run of explicit IPv6 groups, the last of which may be an
/// embedded dotted quad counting as two 16-bit values.
fn parse_explicit_groups(gs: Vec<Vec<u8>>) -> (r: Option<Vec<u16>>)
    ensures
        match r {
            Some(v) => explicit_groups_ok(gs.deep_view()) && v@ == explicit_group_values(
                gs.deep_view(),
            ),
            None => !explicit_groups_ok(gs.deep_view()),
        },
{
    let ghost orig = gs.deep_view();
    match parse_groups(&gs) {
        Some(v) => Some(v),
        None => {
            // Not all groups are hexadecimal; only a dotted quad in the
            // last position can still make the run valid.
            proof {
                assert(orig.len() > 0);
            }
            let last_idx = gs.len() - 1;
            proof {
                assert(orig.last() == gs@[last_idx as int]@);
            }
            let octets = match parse_ipv4(gs[last_idx].as_slice()) {
                Some(o) => o,
                None => {
                    return None;
                },
            };
            let mut head = gs;
            head.truncate(last_idx);
            proof {
                assert(head.deep_view() =~~= orig.drop_last());
            }
            match parse_groups(&head) {
                Some(mut v) => {
                    let hi = (octets[0] as u16) * 256 + (octets[1] as u16);
                    let lo = (octets[2] as u16) * 256 + (octets[3] as u16);
                    v.push(hi);
                    v.push(lo);
                    proof {
                        assert(v@ =~= explicit_group_values(orig));
                    }
                    Some(v)
                },
                None => None,
            }
        },
    }
}

/// Parse an IPv6 literal: the result is its eight group values exactly when
/// `a` is an IPv6 literal, and nothing otherwise.
fn parse_ipv6(a: &[u8]) -> (r: Option<Vec<u16>>)
    ensures
        match r {
            Some(v) => is_ipv6_text(a@) && v@ == ipv6_segments(a@) && v@.len() == 8,
            None => !is_ipv6_text(a@),
        },
{
    let n = a.len();
    match find_double(a, COLON) {
        None => {
            let gs = split_bytes(a, COLON);
            match parse_explicit_groups(gs) {
                Some(v) => {
                    if v.len() == 8 {
                        Some(v)
                    } else {
                        None
                    }
                },
                None => None,
            }
        },
        Some(i) => {
            proof {
                lemma_find_double_byte(a@, COLON);
            }
            let left = slice_subrange(a, 0, i);
            let right = slice_subrange(a, i + 2, n);
            proof {
                assert(left@ =~= a@.take(i as int));
                assert(right@ =~= a@.skip(i + 2));
            }
            let lg: Vec<Vec<u8>> = if left.len() == 0 {
                Vec::new()
            } else {
                split_bytes(left, COLON)
            };
            let rg: Vec<Vec<u8>> = if right.len() == 0 {
                Vec::new()
            } else {
                split_bytes(right, COLON)
            };
            proof {
                assert(lg.deep_view() =~~= ipv6_left_groups(a@, i as int));
                assert(rg.deep_view() =~~= ipv6_right_groups(a@, i as int));
            }
            let lvals = match parse_groups(&lg) {
                Some(v) => v,
                None => {
                    return None;
                },
            };
            let rvals = match parse_explicit_groups(rg) {
                Some(v) => v,
                None => {
                    return None;
                },
            };
            proof {
                assert(lvals@.len() == lg.deep_view().len());
            }
            if lvals.len() > 7 || rvals.len() > 7 - lvals.len() {
                return None;
            }
            let mut v = lvals;
            let fill = 8 - v.len() - rvals.len();
            let mut k: usize = 0;
            while k < fill
                invariant
                    v@.len() == lvals@.len() + k,
                    0 <= k <= fill,
                    fill == 8 - lvals@.len() - rvals@.len(),
                    lvals@.len() + rvals@.len() <= 7,
                    v@ =~= lvals@ + Seq::new(k as nat, |j: int| 0u16),
                decreases fill - k,
            {
                v.push(0);
                k += 1;
            }
            let mut tail = rvals;
            v.append(&mut tail);
            proof {
                assert(v@ =~= ipv6_segments(a@));
            }
            Some(v)
        },
    }
}

/// A parsed, validated IP address: the four octets of an IPv4 address or
/// the eight 16-bit groups of an IPv6 address.
#[derive(Debug)]
pub enum IpAddress {
    V4 { octets: Vec<u8> },
    V6 { segments: Vec<u16> },
}

/// Mathematical model of an [`IpAddress`].
pub enum IpAddressView {
    V4 { octets: Seq<u8> },
    V6 { segments: Seq<u16> },
}

impl View for IpAddress {
    type V = IpAddressView;

    open spec fn view(&self) -> IpAddressView {
        match self {
            IpAddress::V4 { octets } => IpAddressView::V4 { octets: octets@ },
            IpAddress::V6 { segments } => IpAddressView::V6 { segments: segments@ },
        }
    }
}

impl IpAddressView {
    /// An address is well formed with exactly four octets or eight groups.
    pub open spec fn wf(self) -> bool {
        match self {
            IpAddressView::V4 { octets } => octets.len() == 4,
            IpAddressView::V6 { segments } => segments.len() == 8,
        }
    }
}

/// A validated destination: an IP address and a port in `[1, 65535]`.
/// It is only ever constructed by [`validate`], never from raw text.
#[derive(Debug)]
pub struct Destination {
    pub addr: IpAddress,
    pub port: u16,
}

/// Mathematical model of a [`Destination`].
pub struct DestinationView {
    pub addr: IpAddressView,
    pub port: u16,
}

impl View for Destination {
    type V = DestinationView;

    open spec fn view(&self) -> DestinationView {
        DestinationView { addr: self.addr@, port: self.port }
    }
}

impl DestinationView {
    /// A destination is well formed when its address is and its port is
    /// not zero.
    pub open spec fn wf(self) -> bool {
        self.addr.wf() && self.port >= 1
    }
}

/// Why a destination descriptor was rejected.
#[derive(Clone, Copy, Debug, PartialEq, Eq, Structural)]
pub enum ValidationError {
    /// The address part is neither an IPv4 nor an IPv6 literal.
    InvalidAddress,
    /// The port part is not a decimal integer in `[1, 65535]`.
    InvalidPort,
    /// The descriptor does not split on a `:` into a non-empty address part
    /// and a non-empty port part.
    MalformedDescriptor,
}

/// What validation of a descriptor's bytes yields: the parsed destination,
/// or the first error in the order malformed shape, address, port.
pub open spec fn spec_validate(b: Seq<u8>) -> Result<DestinationView, ValidationError> {
    match find_last_byte(b, COLON) {
        None => Err(ValidationError::MalformedDescriptor),
        Some(i) => {
            let addr = b.take(i);
            let port = b.skip(i + 1);
            if addr.len() == 0 || port.len() == 0 {
                Err(ValidationError::MalformedDescriptor)
            } else if !is_ipv4_text(addr) && !is_ipv6_text(addr) {
                Err(ValidationError::InvalidAddress)
            } else if !is_port_text(port) {
                Err(ValidationError::InvalidPort)
            } else {
                let a = if is_ipv4_text(addr) {
                    IpAddressView::V4 { octets: ipv4_octets(addr) }
                } else {
                    IpAddressView::V6 { segments: ipv6_segments(addr) }
                };
                Ok(DestinationView { addr: a, port: dec_value(port) as u16 })
            }
        },
    }
}

/// Validate one destination descriptor, `address:port`.
///
/// The descriptor splits on its last `:`; both parts must be non-empty
/// (`MalformedDescriptor` otherwise), the address part must be an IPv4 or
/// IPv6 literal (`InvalidAddress` otherwise), and the port part must be a
/// decimal integer in `[1, 65535]` (`InvalidPort` otherwise, `0` included).
/// The result is exactly what [`spec_validate`] says of the descriptor's
/// UTF-8 bytes, and a returned destination is well formed.
pub fn validate(s: &str) -> (r: Result<Destination, ValidationError>)
    ensures
        match r {
            Ok(d) => spec_validate(s.spec_bytes()) == Ok::<DestinationView, ValidationError>(d@)
                && d@.wf(),
            Err(e) => spec_validate(s.spec_bytes()) == Err::<DestinationView, ValidationError>(e),
        },
{
    let b = s.as_bytes();
    let n = b.len();
    match find_last(b, COLON) {
        None => Err(ValidationError::MalformedDescriptor),
        Some(i) => {
            proof {
                lemma_find_last_byte(b@, COLON);
            }
            let addr = slice_subrange(b, 0, i);
            let port = slice_subrange(b, i + 1, n);
            proof {
                assert(addr@ =~= s.spec_bytes().take(i as int));
                assert(port@ =~= s.spec_bytes().skip(i + 1));
            }
            if addr.len() == 0 || port.len() == 0 {
                return Err(ValidationError::MalformedDescriptor);
            }
            let parsed: IpAddress = match parse_ipv4(addr) {
                Some(octets) => IpAddress::V4 { octets },
                None => match parse_ipv6(addr) {
                    Some(segments) => IpAddress::V6 { segments },
                    None => {
                        return Err(ValidationError::InvalidAddress);
                    },
                },
            };
            match parse_port(port) {
                Some(p) => Ok(Destination { addr: parsed, port: p }),
                None => Err(ValidationError::InvalidPort),
            }
        },
    }
}

} // verus!
