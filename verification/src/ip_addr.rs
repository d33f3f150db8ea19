//! IP addresses and their textual forms.
use crate::text::{
    bounded_numeral, canonical_numerals_are_decimals, decimal, decimals_read_back, digit_value,
    joined, joining_undoes_splitting, numeral, parse_number, pieces, pieces_are_of_the_text, split,
    split_on, splitting_undoes_joining, sub_chars,
};
use vstd::prelude::*;

verus! {

/// An IP address, as the number that its octets form in network order.
#[derive(Debug, Clone, Copy, PartialEq, Eq, Structural)]
pub enum IpAddr {
    V4(u32),
    V6(u128),
}

/// A decimal octet: one to three digits, no leading zero, at most 255.
pub open spec fn octet_spec(s: Seq<char>) -> Option<nat> {
    if s.len() <= 3 && (s.len() <= 1 || s[0] != '0') {
        bounded_numeral(s, 10, 255)
    } else {
        None
    }
}

/// Dotted-decimal notation: four octets separated by dots.
pub open spec fn v4_spec(s: Seq<char>) -> Option<u32> {
    let p = split_on(s, '.');
    if p.len() == 4 {
        match (octet_spec(p[0]), octet_spec(p[1]), octet_spec(p[2]), octet_spec(p[3])) {
            (Some(a), Some(b), Some(c), Some(d)) => Some(
                (a * 0x100_0000 + b * 0x1_0000 + c * 0x100 + d) as u32,
            ),
            _ => None,
        }
    } else {
        None
    }
}

/// A group of an IPv6 address: one to four hexadecimal digits.
pub open spec fn group_spec(s: Seq<char>) -> Option<nat> {
    if s.len() <= 4 {
        bounded_numeral(s, 16, 0xffff)
    } else {
        None
    }
}

/// The 16-bit groups that colon-separated parts denote. Where `v4_ok` holds the
/// last part may be a dotted-decimal address, which stands for two groups.
pub open spec fn groups_spec(parts: Seq<Seq<char>>, v4_ok: bool) -> Option<Seq<u16>>
    decreases parts.len(),
{
    if parts.len() == 0 {
        Some(Seq::empty())
    } else {
        match (group_spec(parts[0]), groups_spec(parts.skip(1), v4_ok)) {
            (Some(g), Some(rest)) => Some(seq![g as u16] + rest),
            (Some(_), None) => None,
            (None, _) => if parts.len() == 1 && v4_ok {
                match v4_spec(parts[0]) {
                    Some(a) => Some(seq![(a / 0x1_0000) as u16, (a % 0x1_0000) as u16]),
                    None => None,
                }
            } else {
                None
            },
        }
    }
}

/// The groups on one side of a `::`, of which there may be none.
pub open spec fn side_spec(s: Seq<char>, v4_ok: bool) -> Option<Seq<u16>> {
    if s.len() == 0 {
        Some(Seq::empty())
    } else {
        groups_spec(split_on(s, ':'), v4_ok)
    }
}

/// The position of the first `::` in `s`, or the length of `s` if there is none.
pub open spec fn double_colon(s: Seq<char>) -> int
    decreases s.len(),
{
    if s.len() == 0 || (s.len() >= 2 && s[0] == ':' && s[1] == ':') {
        0
    } else {
        1 + double_colon(s.skip(1))
    }
}

/// The number that groups form, the first being the most significant.
pub open spec fn groups_value(g: Seq<u16>) -> nat
    decreases g.len(),
{
    if g.len() == 0 {
        0
    } else {
        groups_value(g.drop_last()) * 0x1_0000 + g.last() as nat
    }
}

/// `n` groups of zeros.
pub open spec fn zero_groups(n: int) -> Seq<u16> {
    Seq::new(n as nat, |i: int| 0u16)
}

/// An IPv6 address: eight groups separated by colons, of which one run of one or
/// more zero groups may be written `::`. The last two groups may be given in
/// dotted-decimal notation.
pub open spec fn v6_spec(s: Seq<char>) -> Option<u128> {
    let i = double_colon(s);
    if i < s.len() {
        match (side_spec(s.take(i), false), side_spec(s.skip(i + 2), true)) {
            (Some(h), Some(t)) => if h.len() + t.len() <= 7 {
                Some(groups_value(h + zero_groups(8 - h.len() - t.len()) + t) as u128)
            } else {
                None
            },
            _ => None,
        }
    } else {
        match groups_spec(split_on(s, ':'), true) {
            Some(g) => if g.len() == 8 {
                Some(groups_value(g) as u128)
            } else {
                None
            },
            None => None,
        }
    }
}

/// The address that a text denotes, if it denotes one.
pub open spec fn ip_spec(s: Seq<char>) -> Option<IpAddr> {
    match v4_spec(s) {
        Some(a) => Some(IpAddr::V4(a)),
        None => match v6_spec(s) {
            Some(a) => Some(IpAddr::V6(a)),
            None => None,
        },
    }
}

fn parse_octet(v: &Vec<char>) -> (r: Option<u64>)
    ensures
        match r {
            Some(n) => octet_spec(v@) == Some(n as nat) && n <= 255,
            None => octet_spec(v@) is None,
        },
{
    if v.len() <= 3 && (v.len() <= 1 || v[0] != '0') {
        assert(v@.skip(0) =~= v@);
        parse_number(v, 0, 10, 255)
    } else {
        None
    }
}

/// Reads dotted-decimal notation.
pub fn parse_v4(v: &Vec<char>) -> (r: Option<u32>)
    ensures
        r == v4_spec(v@),
{
    let p = split(v, '.');
    proof {
        assert(pieces(p@).len() == p@.len());
    }
    if p.len() != 4 {
        return None;
    }
    proof {
        assert(pieces(p@)[0] == p@[0]@);
        assert(pieces(p@)[1] == p@[1]@);
        assert(pieces(p@)[2] == p@[2]@);
        assert(pieces(p@)[3] == p@[3]@);
    }
    match (parse_octet(&p[0]), parse_octet(&p[1]), parse_octet(&p[2]), parse_octet(&p[3])) {
        (Some(a), Some(b), Some(c), Some(d)) => Some(
            (a * 0x100_0000 + b * 0x1_0000 + c * 0x100 + d) as u32,
        ),
        _ => None,
    }
}

fn parse_group(v: &Vec<char>) -> (r: Option<u16>)
    ensures
        match r {
            Some(n) => group_spec(v@) == Some(n as nat),
            None => group_spec(v@) is None,
        },
{
    if v.len() <= 4 {
        assert(v@.skip(0) =~= v@);
        match parse_number(v, 0, 16, 0xffff) {
            Some(n) => Some(n as u16),
            None => None,
        }
    } else {
        None
    }
}

fn parse_groups(v: &Vec<char>, v4_ok: bool) -> (r: Option<Vec<u16>>)
    ensures
        match r {
            Some(g) => groups_spec(split_on(v@, ':'), v4_ok) == Some(g@),
            None => groups_spec(split_on(v@, ':'), v4_ok) is None,
        },
{
    let p = split(v, ':');
    let ghost parts = split_on(v@, ':');
    let mut out: Vec<u16> = Vec::new();
    let mut i: usize = 0;
    proof {
        assert(parts.len() == p@.len());
        assert(parts.skip(0) =~= parts);
        if groups_spec(parts, v4_ok) is Some {
            assert(out@ + groups_spec(parts, v4_ok)->0 =~= groups_spec(parts, v4_ok)->0);
        }
    }
    while i < p.len()
        invariant
            i <= p.len(),
            parts == pieces(p@),
            parts == split_on(v@, ':'),
            match groups_spec(parts.skip(i as int), v4_ok) {
                Some(rest) => groups_spec(parts, v4_ok) == Some(out@ + rest),
                None => groups_spec(parts, v4_ok) is None,
            },
        decreases p.len() - i,
    {
        let ghost rest = parts.skip(i as int);
        let ghost before = out@;
        proof {
            assert(rest[0] == p@[i as int]@);
            assert(rest.skip(1) =~= parts.skip(i + 1));
        }
        match parse_group(&p[i]) {
            Some(g) => {
                out.push(g);
                proof {
                    if groups_spec(rest.skip(1), v4_ok) is Some {
                        let tail = groups_spec(rest.skip(1), v4_ok)->0;
                        assert(before + (seq![g] + tail) =~= out@ + tail);
                    }
                }
            },
            None => {
                if i + 1 == p.len() && v4_ok {
                    match parse_v4(&p[i]) {
                        Some(a) => {
                            out.push((a / 0x1_0000) as u16);
                            out.push((a % 0x1_0000) as u16);
                            proof {
                                assert(out@ =~= before + seq![
                                    (a / 0x1_0000) as u16,
                                    (a % 0x1_0000) as u16,
                                ]);
                            }
                            return Some(out);
                        },
                        None => {
                            return None;
                        },
                    }
                }
                return None;
            },
        }
        i = i + 1;
    }
    proof {
        assert(out@ + Seq::<u16>::empty() =~= out@);
    }
    Some(out)
}

fn parse_side(v: &Vec<char>, v4_ok: bool) -> (r: Option<Vec<u16>>)
    ensures
        match r {
            Some(g) => side_spec(v@, v4_ok) == Some(g@),
            None => side_spec(v@, v4_ok) is None,
        },
{
    if v.len() == 0 {
        let g: Vec<u16> = Vec::new();
        assert(g@ =~= Seq::<u16>::empty());
        Some(g)
    } else {
        parse_groups(v, v4_ok)
    }
}

proof fn lemma_double_colon(s: Seq<char>)
    ensures
        0 <= double_colon(s) <= s.len(),
        double_colon(s) < s.len() ==> double_colon(s) + 2 <= s.len(),
    decreases s.len(),
{
    if !(s.len() == 0 || (s.len() >= 2 && s[0] == ':' && s[1] == ':')) {
        lemma_double_colon(s.skip(1));
    }
}

fn find_double_colon(v: &Vec<char>) -> (r: usize)
    ensures
        r == double_colon(v@),
        r <= v.len(),
        r < v.len() ==> r + 2 <= v.len(),
{
    proof {
        lemma_double_colon(v@);
        assert(v@.skip(0) =~= v@);
    }
    let mut i: usize = 0;
    while i < v.len()
        invariant
            i <= v.len(),
            double_colon(v@) == i + double_colon(v@.skip(i as int)),
            double_colon(v@) < v@.len() ==> double_colon(v@) + 2 <= v@.len(),
        decreases v.len() - i,
    {
        if i + 1 < v.len() && v[i] == ':' && v[i + 1] == ':' {
            return i;
        }
        proof {
            assert(v@.skip(i as int).skip(1) =~= v@.skip(i + 1));
        }
        i = i + 1;
    }
    i
}

/// 65536 to the power of `n`, for the sizes that groups reach.
spec fn group_bound(n: nat) -> nat
    decreases n,
{
    if n == 0 {
        1
    } else {
        group_bound((n - 1) as nat) * 0x1_0000
    }
}

proof fn lemma_groups_value_bound(g: Seq<u16>)
    ensures
        groups_value(g) < group_bound(g.len()),
    decreases g.len(),
{
    if g.len() > 0 {
        lemma_groups_value_bound(g.drop_last());
    }
}

fn value_of_groups(g: &Vec<u16>) -> (r: u128)
    requires
        g.len() <= 8,
    ensures
        r == groups_value(g@),
        groups_value(g@) <= u128::MAX,
{
    let mut acc: u128 = 0;
    let mut i: usize = 0;
    while i < g.len()
        invariant
            i <= g.len() <= 8,
            acc == groups_value(g@.take(i as int)),
        decreases g.len() - i,
    {
        proof {
            assert(g@.take(i + 1).drop_last() =~= g@.take(i as int));
            lemma_groups_value_bound(g@.take(i as int));
            reveal_with_fuel(group_bound, 9);
        }
        acc = acc * 0x1_0000 + g[i] as u128;
        i = i + 1;
    }
    proof {
        assert(g@.take(i as int) =~= g@);
    }
    acc
}

/// Reads an IPv6 address.
pub fn parse_v6(v: &Vec<char>) -> (r: Option<u128>)
    ensures
        r == v6_spec(v@),
{
    let i = find_double_colon(v);
    if i < v.len() {
        let head_text = sub_chars(v, 0, i);
        let tail_text = sub_chars(v, i + 2, v.len());
        proof {
            assert(head_text@ =~= v@.take(i as int));
            assert(tail_text@ =~= v@.skip(i + 2));
        }
        let head = match parse_side(&head_text, false) {
            Some(g) => g,
            None => {
                return None;
            },
        };
        let mut tail = match parse_side(&tail_text, true) {
            Some(g) => g,
            None => {
                return None;
            },
        };
        if head.len() > 7 || tail.len() > 7 || head.len() + tail.len() > 7 {
            return None;
        }
        let n: usize = 8 - head.len() - tail.len();
        let ghost t = tail@;
        let mut all: Vec<u16> = head;
        let ghost h = all@;
        let mut k: usize = 0;
        while k < n
            invariant
                k <= n,
                all@ == h + zero_groups(k as int),
            decreases n - k,
        {
            all.push(0);
            proof {
                assert(all@ =~= h + zero_groups(k + 1));
            }
            k = k + 1;
        }
        all.append(&mut tail);
        proof {
            assert(all@ =~= h + zero_groups(n as int) + t);
        }
        Some(value_of_groups(&all))
    } else {
        match parse_groups(v, true) {
            Some(g) => if g.len() == 8 {
                Some(value_of_groups(&g))
            } else {
                None
            },
            None => None,
        }
    }
}

/// Reads an IP address of either kind.
pub fn parse_ip(v: &Vec<char>) -> (r: Option<IpAddr>)
    ensures
        r == ip_spec(v@),
{
    match parse_v4(v) {
        Some(a) => Some(IpAddr::V4(a)),
        None => match parse_v6(v) {
            Some(a) => Some(IpAddr::V6(a)),
            None => None,
        },
    }
}

/// An IPv4 address in dotted-decimal notation.
pub open spec fn dotted(a: nat, b: nat, c: nat, d: nat) -> Seq<char> {
    decimal(a) + "."@ + decimal(b) + "."@ + decimal(c) + "."@ + decimal(d)
}

proof fn lemma_octet(s: Seq<char>, n: nat)
    ensures
        octet_spec(s) == Some(n) <==> n <= 255 && s == decimal(n),
{
    if octet_spec(s) == Some(n) {
        canonical_numerals_are_decimals(s);
    }
    if n <= 255 && s == decimal(n) {
        decimals_read_back(n);
        reveal_with_fuel(decimal, 4);
    }
}

proof fn lemma_no_dot(n: nat)
    ensures
        !decimal(n).contains('.'),
        !decimal(n).contains(':'),
{
    decimals_read_back(n);
}

proof fn lemma_dotted_is_joined(a: nat, b: nat, c: nat, d: nat)
    ensures
        dotted(a, b, c, d) == joined(seq![decimal(a), decimal(b), decimal(c), decimal(d)], '.'),
        split_on(dotted(a, b, c, d), '.') == seq![decimal(a), decimal(b), decimal(c), decimal(d)],
{
    reveal_strlit(".");
    let parts = seq![decimal(a), decimal(b), decimal(c), decimal(d)];
    reveal_with_fuel(joined, 4);
    assert(parts.skip(1) =~= seq![decimal(b), decimal(c), decimal(d)]);
    assert(parts.skip(1).skip(1) =~= seq![decimal(c), decimal(d)]);
    assert(parts.skip(1).skip(1).skip(1) =~= seq![decimal(d)]);
    assert("."@ =~= seq!['.']);
    assert(dotted(a, b, c, d) =~= joined(parts, '.'));
    lemma_no_dot(a);
    lemma_no_dot(b);
    lemma_no_dot(c);
    lemma_no_dot(d);
    joining_undoes_splitting(parts, '.');
}

/// The IPv4 address with octets `a` to `d` is written in dotted decimals, and that text
/// stands for it.
pub proof fn dotted_decimals_are_read(a: nat, b: nat, c: nat, d: nat)
    requires
        a <= 255,
        b <= 255,
        c <= 255,
        d <= 255,
    ensures
        v4_spec(dotted(a, b, c, d)) matches Some(x) && x == a * 0x100_0000 + b * 0x1_0000 + c * 0x100
            + d,
        ip_spec(dotted(a, b, c, d)) == Some(IpAddr::V4(v4_spec(dotted(a, b, c, d))->0)),
{
    lemma_dotted_is_joined(a, b, c, d);
    lemma_octet(decimal(a), a);
    lemma_octet(decimal(b), b);
    lemma_octet(decimal(c), c);
    lemma_octet(decimal(d), d);
}

/// No other text stands for an IPv4 address: one that does is the dotted decimals of the
/// address.
pub proof fn only_dotted_decimals_are_v4(s: Seq<char>)
    requires
        v4_spec(s) is Some,
    ensures
        ({
            let x = v4_spec(s)->0 as nat;
            s == dotted(x / 0x100_0000, x / 0x1_0000 % 0x100, x / 0x100 % 0x100, x % 0x100)
        }),
{
    let p = split_on(s, '.');
    splitting_undoes_joining(s, '.');
    let a = octet_spec(p[0])->0;
    let b = octet_spec(p[1])->0;
    let c = octet_spec(p[2])->0;
    let d = octet_spec(p[3])->0;
    lemma_octet(p[0], a);
    lemma_octet(p[1], b);
    lemma_octet(p[2], c);
    lemma_octet(p[3], d);
    lemma_dotted_is_joined(a, b, c, d);
    assert(p =~= seq![decimal(a), decimal(b), decimal(c), decimal(d)]);
    lemma_octets(a, b, c, d);
}

proof fn lemma_octets(a: nat, b: nat, c: nat, d: nat)
    requires
        a <= 255,
        b <= 255,
        c <= 255,
        d <= 255,
    ensures
        ({
            let x = a * 0x100_0000 + b * 0x1_0000 + c * 0x100 + d;
            &&& x <= u32::MAX
            &&& x / 0x100_0000 == a
            &&& x / 0x1_0000 % 0x100 == b
            &&& x / 0x100 % 0x100 == c
            &&& x % 0x100 == d
        }),
{
    let x = a * 0x100_0000 + b * 0x1_0000 + c * 0x100 + d;
    assert(x / 0x1_0000 == a * 0x100 + b);
    assert(x / 0x100 == a * 0x1_0000 + b * 0x100 + c);
}

/// A group is one to four hexadecimal digits, and worth what they denote.
pub proof fn groups_are_hexadecimal(s: Seq<char>)
    ensures
        group_spec(s) is Some <==> 1 <= s.len() <= 4 && numeral(s, 16) is Some,
        group_spec(s) is Some ==> group_spec(s) == numeral(s, 16),
{
    lemma_hex_bound(s);
}

proof fn lemma_hex_bound(s: Seq<char>)
    ensures
        s.len() <= 4 && numeral(s, 16) is Some ==> numeral(s, 16)->0 <= 0xffff,
{
    reveal_with_fuel(numeral, 5);
}

/// Whether every text is a group.
pub open spec fn all_groups(parts: Seq<Seq<char>>) -> bool {
    forall|i: int| 0 <= i < parts.len() ==> group_spec(#[trigger] parts[i]) is Some
}

/// What each text is worth as a group.
pub open spec fn group_values(parts: Seq<Seq<char>>) -> Seq<u16> {
    parts.map_values(|p: Seq<char>| group_spec(p)->0 as u16)
}

/// Whether two colons stand together at a position.
pub open spec fn doubles_at(s: Seq<char>, k: int) -> bool {
    0 <= k && k + 1 < s.len() && s[k] == ':' && s[k + 1] == ':'
}

proof fn lemma_numeral_is_digits(s: Seq<char>, radix: nat, k: int)
    requires
        numeral(s, radix) is Some,
        0 <= k < s.len(),
    ensures
        digit_value(s[k]) is Some,
    decreases s.len(),
{
    if k < s.len() - 1 {
        lemma_numeral_is_digits(s.drop_last(), radix, k);
        assert(s.drop_last()[k] == s[k]);
    }
}

proof fn lemma_group_is_plain(s: Seq<char>)
    requires
        group_spec(s) is Some,
    ensures
        s.len() > 0,
        !s.contains(':'),
        !s.contains('.'),
{
    if s.contains(':') {
        let k = choose|k: int| 0 <= k < s.len() && s[k] == ':';
        lemma_numeral_is_digits(s, 16, k);
    }
    if s.contains('.') {
        let k = choose|k: int| 0 <= k < s.len() && s[k] == '.';
        lemma_numeral_is_digits(s, 16, k);
    }
}

proof fn lemma_double_colon_unique(s: Seq<char>, i: int)
    requires
        0 <= i <= s.len(),
        forall|k: int| 0 <= k < i ==> !#[trigger] doubles_at(s, k),
        i < s.len() ==> doubles_at(s, i),
    ensures
        double_colon(s) == i,
    decreases s.len(),
{
    if i > 0 {
        let rest = s.skip(1);
        assert(!doubles_at(s, 0));
        assert forall|k: int| 0 <= k < i - 1 implies !#[trigger] doubles_at(rest, k) by {
            assert(!doubles_at(s, k + 1));
            assert(rest[k] == s[k + 1]);
            if k + 1 < rest.len() {
                assert(rest[k + 1] == s[k + 2]);
            }
        }
        if i < s.len() {
            assert(rest[i - 1] == s[i] && rest[i] == s[i + 1]);
        }
        lemma_double_colon_unique(rest, i - 1);
    }
}

proof fn lemma_double_colon_first(s: Seq<char>)
    ensures
        double_colon(s) < s.len() ==> doubles_at(s, double_colon(s)),
        forall|k: int| 0 <= k < double_colon(s) ==> !#[trigger] doubles_at(s, k),
        0 <= double_colon(s) <= s.len(),
    decreases s.len(),
{
    if s.len() > 0 && !doubles_at(s, 0) {
        let rest = s.skip(1);
        lemma_double_colon_first(rest);
        assert forall|k: int| 0 <= k < double_colon(s) implies !#[trigger] doubles_at(s, k) by {
            if k > 0 {
                assert(!doubles_at(rest, k - 1));
                assert(rest[k - 1] == s[k]);
                if k + 1 < s.len() {
                    assert(rest[k] == s[k + 1]);
                }
            }
        }
        let i = double_colon(rest);
        if i < rest.len() {
            assert(rest[i] == s[i + 1] && rest[i + 1] == s[i + 2]);
        }
    }
}

/// Parts that are not empty and hold no colon, joined by colons, hold no two together and
/// neither start nor end with one.
proof fn lemma_joined_has_no_double(parts: Seq<Seq<char>>)
    requires
        parts.len() > 0,
        forall|i: int|
            0 <= i < parts.len() ==> (#[trigger] parts[i]).len() > 0 && !parts[i].contains(':'),
    ensures
        joined(parts, ':').len() > 0,
        joined(parts, ':')[0] != ':',
        joined(parts, ':').last() != ':',
        forall|k: int| !#[trigger] doubles_at(joined(parts, ':'), k),
    decreases parts.len(),
{
    let p = parts[0];
    assert forall|k: int| 0 <= k < p.len() implies p[k] != ':' by {
        assert(p.contains(p[k]));
    }
    if parts.len() > 1 {
        let rest = parts.skip(1);
        assert forall|i: int| 0 <= i < rest.len() implies (#[trigger] rest[i]).len() > 0
            && !rest[i].contains(':') by {
            assert(rest[i] == parts[i + 1]);
        }
        lemma_joined_has_no_double(rest);
        let j = joined(rest, ':');
        let s = joined(parts, ':');
        let n = p.len() as int;
        assert(s[0] == p[0]);
        assert(s.last() == j.last());
        assert forall|k: int| !#[trigger] doubles_at(s, k) by {
            if doubles_at(s, k) {
                if k < n {
                    assert(s[k] == p[k]);
                } else if k == n {
                    assert(s[k + 1] == j[0]);
                } else {
                    assert(s[k] == j[k - n - 1] && s[k + 1] == j[k - n]);
                    assert(!doubles_at(j, k - n - 1));
                }
            }
        }
    }
}

proof fn lemma_plain_parts(parts: Seq<Seq<char>>)
    requires
        all_groups(parts),
    ensures
        forall|i: int|
            0 <= i < parts.len() ==> (#[trigger] parts[i]).len() > 0 && !parts[i].contains(':'),
{
    assert forall|i: int| 0 <= i < parts.len() implies (#[trigger] parts[i]).len() > 0
        && !parts[i].contains(':') by {
        lemma_group_is_plain(parts[i]);
    }
}

proof fn lemma_groups_of_parts(parts: Seq<Seq<char>>, v4_ok: bool)
    requires
        all_groups(parts),
    ensures
        groups_spec(parts, v4_ok) == Some(group_values(parts)),
    decreases parts.len(),
{
    if parts.len() == 0 {
        assert(group_values(parts) =~= Seq::<u16>::empty());
    } else {
        let rest = parts.skip(1);
        assert forall|i: int| 0 <= i < rest.len() implies group_spec(
            #[trigger] rest[i],
        ) is Some by {
            assert(rest[i] == parts[i + 1]);
        }
        lemma_groups_of_parts(rest, v4_ok);
        assert(group_spec(parts[0]) is Some);
        assert(group_values(parts) =~= seq![group_spec(parts[0])->0 as u16] + group_values(rest));
    }
}

proof fn lemma_side_of_parts(parts: Seq<Seq<char>>, v4_ok: bool)
    requires
        all_groups(parts),
    ensures
        side_spec(joined(parts, ':'), v4_ok) == Some(group_values(parts)),
{
    lemma_plain_parts(parts);
    lemma_groups_of_parts(parts, v4_ok);
    if parts.len() > 0 {
        lemma_joined_has_no_double(parts);
        joining_undoes_splitting(parts, ':');
    } else {
        assert(group_values(parts) =~= Seq::<u16>::empty());
    }
}

/// Eight groups joined by colons are an IPv6 address, the first group being its highest
/// bits.
pub proof fn eight_groups_are_read(parts: Seq<Seq<char>>)
    requires
        parts.len() == 8,
        all_groups(parts),
    ensures
        v6_spec(joined(parts, ':')) matches Some(x) && x == group_spec(parts[0])->0
            * 0x1_0000_0000_0000_0000_0000_0000_0000 + group_spec(parts[1])->0
            * 0x1_0000_0000_0000_0000_0000_0000 + group_spec(parts[2])->0
            * 0x1_0000_0000_0000_0000_0000 + group_spec(parts[3])->0 * 0x1_0000_0000_0000_0000
            + group_spec(parts[4])->0 * 0x1_0000_0000_0000 + group_spec(parts[5])->0
            * 0x1_0000_0000 + group_spec(parts[6])->0 * 0x1_0000 + group_spec(parts[7])->0,
{
    let s = joined(parts, ':');
    let g = group_values(parts);
    lemma_plain_parts(parts);
    lemma_joined_has_no_double(parts);
    lemma_double_colon_unique(s, s.len() as int);
    joining_undoes_splitting(parts, ':');
    lemma_groups_of_parts(parts, true);
    lemma_groups_value_of_eight(g);
    assert forall|i: int| 0 <= i < 8 implies #[trigger] g[i] == group_spec(parts[i])->0 by {
        assert(group_spec(parts[i]) is Some);
    }
}

proof fn lemma_groups_value_of_eight(g: Seq<u16>)
    requires
        g.len() == 8,
    ensures
        groups_value(g) == g[0] * 0x1_0000_0000_0000_0000_0000_0000_0000 + g[1]
            * 0x1_0000_0000_0000_0000_0000_0000 + g[2] * 0x1_0000_0000_0000_0000_0000 + g[3]
            * 0x1_0000_0000_0000_0000 + g[4] * 0x1_0000_0000_0000 + g[5] * 0x1_0000_0000 + g[6]
            * 0x1_0000 + g[7],
        groups_value(g) <= u128::MAX,
{
    let g7 = g.drop_last();
    let g6 = g7.drop_last();
    let g5 = g6.drop_last();
    let g4 = g5.drop_last();
    let g3 = g4.drop_last();
    let g2 = g3.drop_last();
    let g1 = g2.drop_last();
    reveal_with_fuel(groups_value, 9);
    lemma_groups_value_bound(g);
    reveal_with_fuel(group_bound, 9);
}

/// `::` stands for as many zero groups as are missing, of which there is at least one: with
/// them written out the address is the same.
pub proof fn double_colon_stands_for_zeros(head: Seq<Seq<char>>, tail: Seq<Seq<char>>)
    requires
        all_groups(head),
        all_groups(tail),
        head.len() + tail.len() <= 7,
    ensures
        ({
            let zeros = Seq::new((8 - head.len() - tail.len()) as nat, |i: int| "0"@);
            let written_out = joined(head + zeros + tail, ':');
            &&& v6_spec(joined(head, ':') + "::"@ + joined(tail, ':')) is Some
            &&& v6_spec(joined(head, ':') + "::"@ + joined(tail, ':')) == v6_spec(written_out)
        }),
{
    reveal_strlit("0");
    reveal_strlit("::");
    let n: int = 8 - head.len() - tail.len();
    let zeros = Seq::new(n as nat, |i: int| "0"@);
    let all = head + zeros + tail;
    let h = joined(head, ':');
    let t = joined(tail, ':');
    let s = h + "::"@ + t;
    let i = h.len() as int;
    lemma_plain_parts(head);
    lemma_plain_parts(tail);
    if head.len() > 0 {
        lemma_joined_has_no_double(head);
    }
    assert forall|k: int| 0 <= k < i implies !#[trigger] doubles_at(s, k) by {
        assert(s[k] == h[k]);
        if k + 1 < i {
            assert(s[k + 1] == h[k + 1]);
            assert(!doubles_at(h, k));
        } else {
            assert(h.last() == h[k]);
        }
    }
    assert(doubles_at(s, i));
    lemma_double_colon_unique(s, i);
    assert(s.take(i) =~= h);
    assert(s.skip(i + 2) =~= t);
    lemma_side_of_parts(head, false);
    lemma_side_of_parts(tail, true);
    reveal_with_fuel(numeral, 2);
    assert("0"@.drop_last() =~= Seq::<char>::empty());
    assert(group_spec("0"@) == Some(0nat));
    assert forall|k: int| 0 <= k < all.len() implies group_spec(#[trigger] all[k]) is Some by {
        if k < head.len() {
            assert(all[k] == head[k]);
        } else if k < head.len() + n {
            assert(all[k] == "0"@);
        } else {
            assert(all[k] == tail[k - head.len() - n]);
        }
    }
    eight_groups_are_read(all);
    let g = group_values(head) + zero_groups(n) + group_values(tail);
    assert(group_values(all) =~= g);
    lemma_plain_parts(all);
    lemma_joined_has_no_double(all);
    lemma_double_colon_unique(joined(all, ':'), joined(all, ':').len() as int);
    joining_undoes_splitting(all, ':');
    lemma_groups_of_parts(all, true);
}

/// An IPv4 address at the end of an IPv6 address stands for its two halves as groups: six
/// groups and dotted decimals are an address.
pub proof fn dotted_decimals_may_end_v6(
    parts: Seq<Seq<char>>,
    a: nat,
    b: nat,
    c: nat,
    d: nat,
)
    requires
        parts.len() == 6,
        all_groups(parts),
        a <= 255,
        b <= 255,
        c <= 255,
        d <= 255,
    ensures
        v6_spec(joined(parts.push(dotted(a, b, c, d)), ':')) matches Some(x) && x == group_spec(
            parts[0],
        )->0 * 0x1_0000_0000_0000_0000_0000_0000_0000 + group_spec(parts[1])->0
            * 0x1_0000_0000_0000_0000_0000_0000 + group_spec(parts[2])->0
            * 0x1_0000_0000_0000_0000_0000 + group_spec(parts[3])->0 * 0x1_0000_0000_0000_0000
            + group_spec(parts[4])->0 * 0x1_0000_0000_0000 + group_spec(parts[5])->0
            * 0x1_0000_0000 + a * 0x100_0000 + b * 0x1_0000 + c * 0x100 + d,
{
    let v4 = dotted(a, b, c, d);
    let all = parts.push(v4);
    let s = joined(all, ':');
    lemma_plain_parts(parts);
    lemma_dotted_is_plain(a, b, c, d);
    assert forall|i: int| 0 <= i < all.len() implies (#[trigger] all[i]).len() > 0
        && !all[i].contains(':') by {
        if i < 6 {
            assert(all[i] == parts[i]);
        }
    }
    lemma_joined_has_no_double(all);
    lemma_double_colon_unique(s, s.len() as int);
    joining_undoes_splitting(all, ':');
    dotted_decimals_are_read(a, b, c, d);
    lemma_groups_with_v4(parts, v4);
    let x = v4_spec(v4)->0;
    let g = group_values(parts) + seq![(x / 0x1_0000) as u16, (x % 0x1_0000) as u16];
    lemma_groups_value_of_eight(g);
    assert forall|i: int| 0 <= i < 6 implies #[trigger] g[i] == group_spec(parts[i])->0 by {
        assert(group_spec(parts[i]) is Some);
    }
    assert(g[6] == x / 0x1_0000 && g[7] == x % 0x1_0000);
}

proof fn lemma_dotted_is_plain(a: nat, b: nat, c: nat, d: nat)
    ensures
        dotted(a, b, c, d).len() > 0,
        !dotted(a, b, c, d).contains(':'),
        dotted(a, b, c, d).contains('.'),
{
    reveal_strlit(".");
    lemma_no_dot(a);
    lemma_no_dot(b);
    lemma_no_dot(c);
    lemma_no_dot(d);
    let s = dotted(a, b, c, d);
    let x = decimal(a);
    let y = decimal(b);
    let z = decimal(c);
    let w = decimal(d);
    assert(s[x.len() as int] == '.');
    if s.contains(':') {
        let k = choose|k: int| 0 <= k < s.len() && s[k] == ':';
        let i1 = x.len() as int;
        let i2 = i1 + 1 + y.len();
        let i3 = i2 + 1 + z.len();
        if k < i1 {
            assert(x[k] == ':');
            assert(x.contains(x[k]));
        } else if i1 < k < i2 {
            assert(y[k - i1 - 1] == ':');
            assert(y.contains(y[k - i1 - 1]));
        } else if i2 < k < i3 {
            assert(z[k - i2 - 1] == ':');
            assert(z.contains(z[k - i2 - 1]));
        } else if i3 < k {
            assert(w[k - i3 - 1] == ':');
            assert(w.contains(w[k - i3 - 1]));
        }
    }
}

proof fn lemma_groups_with_v4(parts: Seq<Seq<char>>, v4: Seq<char>)
    requires
        all_groups(parts),
        v4_spec(v4) is Some,
        v4.contains('.'),
    ensures
        groups_spec(parts.push(v4), true) == Some(
            group_values(parts) + seq![
                (v4_spec(v4)->0 / 0x1_0000) as u16,
                (v4_spec(v4)->0 % 0x1_0000) as u16,
            ],
        ),
    decreases parts.len(),
{
    let all = parts.push(v4);
    let end = seq![
        (v4_spec(v4)->0 / 0x1_0000) as u16,
        (v4_spec(v4)->0 % 0x1_0000) as u16,
    ];
    if group_spec(v4) is Some {
        lemma_group_is_plain(v4);
    }
    if parts.len() == 0 {
        assert(group_values(parts) + end =~= end);
    } else {
        let rest = parts.skip(1);
        assert forall|i: int| 0 <= i < rest.len() implies group_spec(
            #[trigger] rest[i],
        ) is Some by {
            assert(rest[i] == parts[i + 1]);
        }
        lemma_groups_with_v4(rest, v4);
        assert(all.skip(1) =~= rest.push(v4));
        assert(group_spec(parts[0]) is Some);
        assert(all[0] == parts[0]);
        assert(group_values(parts) + end =~= seq![group_spec(parts[0])->0 as u16] + (group_values(
            rest,
        ) + end));
    }
}

proof fn lemma_groups_are_groups(parts: Seq<Seq<char>>, v4_ok: bool)
    requires
        groups_spec(parts, v4_ok) is Some,
        forall|i: int| 0 <= i < parts.len() ==> !(#[trigger] parts[i]).contains('.'),
    ensures
        all_groups(parts),
        groups_spec(parts, v4_ok)->0.len() == parts.len(),
    decreases parts.len(),
{
    if parts.len() > 0 {
        let rest = parts.skip(1);
        if group_spec(parts[0]) is None {
            only_dotted_decimals_are_v4(parts[0]);
            let x = v4_spec(parts[0])->0 as nat;
            lemma_dotted_is_plain(
                x / 0x100_0000,
                x / 0x1_0000 % 0x100,
                x / 0x100 % 0x100,
                x % 0x100,
            );
            assert(parts[0].contains('.'));
        }
        assert forall|i: int| 0 <= i < rest.len() implies !(#[trigger] rest[i]).contains('.') by {
            assert(rest[i] == parts[i + 1]);
        }
        lemma_groups_are_groups(rest, v4_ok);
        assert forall|i: int| 0 <= i < parts.len() implies group_spec(
            #[trigger] parts[i],
        ) is Some by {
            if i > 0 {
                assert(parts[i] == rest[i - 1]);
            }
        }
    }
}

/// The parts of one side of a text without dots that is a side of an IPv6 address.
proof fn lemma_side_is_groups(s: Seq<char>, v4_ok: bool) -> (parts: Seq<Seq<char>>)
    requires
        side_spec(s, v4_ok) is Some,
        !s.contains('.'),
    ensures
        all_groups(parts),
        joined(parts, ':') == s,
        parts.len() == side_spec(s, v4_ok)->0.len(),
{
    if s.len() == 0 {
        let none = Seq::<Seq<char>>::empty();
        assert(joined(none, ':') =~= s);
        none
    } else {
        let parts = split_on(s, ':');
        splitting_undoes_joining(s, ':');
        assert forall|i: int| 0 <= i < parts.len() implies !(#[trigger] parts[i]).contains('.') by {
            if parts[i].contains('.') {
                let k = choose|k: int| 0 <= k < parts[i].len() && parts[i][k] == '.';
                pieces_are_of_the_text(s, ':', i, k);
            }
        }
        lemma_groups_are_groups(parts, v4_ok);
        parts
    }
}

/// Whether a text is eight groups joined by colons, or at most seven with one `::` among
/// them.
pub open spec fn is_group_text(
    s: Seq<char>,
    head: Seq<Seq<char>>,
    tail: Seq<Seq<char>>,
) -> bool {
    &&& all_groups(head)
    &&& all_groups(tail)
    &&& {
        ||| head.len() == 8 && tail.len() == 0 && s == joined(head, ':')
        ||| head.len() + tail.len() <= 7 && s == joined(head, ':') + "::"@ + joined(tail, ':')
    }
}

/// No other text without dots is an IPv6 address: one that is consists of eight groups, or of
/// fewer with one `::`.
pub proof fn only_groups_are_v6(s: Seq<char>)
    requires
        v6_spec(s) is Some,
        !s.contains('.'),
    ensures
        exists|head: Seq<Seq<char>>, tail: Seq<Seq<char>>| #[trigger] is_group_text(s, head, tail),
{
    reveal_strlit("::");
    lemma_double_colon_first(s);
    let i = double_colon(s);
    if i < s.len() {
        let h = s.take(i);
        let t = s.skip(i + 2);
        if h.contains('.') {
            let k = choose|k: int| 0 <= k < h.len() && h[k] == '.';
            assert(s[k] == '.');
        }
        if t.contains('.') {
            let k = choose|k: int| 0 <= k < t.len() && t[k] == '.';
            assert(s[i + 2 + k] == '.');
        }
        let head = lemma_side_is_groups(h, false);
        let tail = lemma_side_is_groups(t, true);
        assert(h + "::"@ + t =~= s);
        assert(is_group_text(s, head, tail));
    } else {
        let head = split_on(s, ':');
        splitting_undoes_joining(s, ':');
        assert forall|k: int| 0 <= k < head.len() implies !(#[trigger] head[k]).contains('.') by {
            if head[k].contains('.') {
                let j = choose|j: int| 0 <= j < head[k].len() && head[k][j] == '.';
                pieces_are_of_the_text(s, ':', k, j);
            }
        }
        lemma_groups_are_groups(head, true);
        assert(is_group_text(s, head, Seq::empty()));
    }
}

/// A text is an IPv4 address if it is one, else an IPv6 address if it is one, and else none.
pub proof fn addresses_are_of_either_kind(s: Seq<char>)
    ensures
        v4_spec(s) matches Some(a) ==> ip_spec(s) == Some(IpAddr::V4(a)),
        v4_spec(s) is None ==> (v6_spec(s) matches Some(a) ==> ip_spec(s) == Some(IpAddr::V6(a))),
        ip_spec(s) is None <==> v4_spec(s) is None && v6_spec(s) is None,
{
}

} // verus!
