//! Text helpers: trimming, splitting, numerals and case.
use vstd::prelude::*;
use vstd::utf8::is_ascii_chars;

verus! {

/// The Unicode `White_Space` property.
pub open spec fn is_white_space(c: char) -> bool {
    ||| '\u{9}' <= c <= '\u{d}'
    ||| c == '\u{20}'
    ||| c == '\u{85}'
    ||| c == '\u{a0}'
    ||| c == '\u{1680}'
    ||| '\u{2000}' <= c <= '\u{200a}'
    ||| c == '\u{2028}'
    ||| c == '\u{2029}'
    ||| c == '\u{202f}'
    ||| c == '\u{205f}'
    ||| c == '\u{3000}'
}

/// `s` without its leading white space.
pub open spec fn trim_start_spec(s: Seq<char>) -> Seq<char>
    decreases s.len(),
{
    if s.len() > 0 && is_white_space(s[0]) {
        trim_start_spec(s.skip(1))
    } else {
        s
    }
}

/// `s` without its trailing white space.
pub open spec fn trim_end_spec(s: Seq<char>) -> Seq<char>
    decreases s.len(),
{
    if s.len() > 0 && is_white_space(s.last()) {
        trim_end_spec(s.drop_last())
    } else {
        s
    }
}

/// `s` without leading and trailing white space.
pub open spec fn trim_spec(s: Seq<char>) -> Seq<char> {
    trim_end_spec(trim_start_spec(s))
}

/// The position of the first `c` in `s`, or the length of `s` if there is none.
pub open spec fn first_index(s: Seq<char>, c: char) -> int
    decreases s.len(),
{
    if s.len() == 0 || s[0] == c {
        0
    } else {
        1 + first_index(s.skip(1), c)
    }
}

/// The pieces of `s` between the occurrences of `c`.
pub open spec fn split_on(s: Seq<char>, c: char) -> Seq<Seq<char>>
    decreases s.len(),
{
    let i = first_index(s, c);
    if 0 <= i < s.len() {
        seq![s.take(i)] + split_on(s.skip(i + 1), c)
    } else {
        seq![s]
    }
}

/// What stands at the first `c`, and before it.
pub proof fn lemma_first_index(s: Seq<char>, c: char)
    ensures
        0 <= first_index(s, c) <= s.len(),
        forall|k: int| 0 <= k < first_index(s, c) ==> s[k] != c,
        first_index(s, c) < s.len() ==> s[first_index(s, c)] == c,
    decreases s.len(),
{
    if s.len() > 0 && s[0] != c {
        let t = s.skip(1);
        lemma_first_index(t, c);
        assert forall|k: int| 0 <= k < first_index(s, c) implies s[k] != c by {
            if k > 0 {
                assert(t[k - 1] == s[k]);
            }
        }
        if first_index(s, c) < s.len() {
            assert(t[first_index(t, c)] == s[first_index(t, c) + 1]);
        }
    }
}

/// Where nothing before position `i` is `c`, and `c` is there, that is the first one.
pub proof fn lemma_first_index_unique(s: Seq<char>, c: char, i: int)
    requires
        0 <= i <= s.len(),
        forall|k: int| 0 <= k < i ==> s[k] != c,
        i < s.len() ==> s[i] == c,
    ensures
        first_index(s, c) == i,
{
    lemma_first_index(s, c);
    let j = first_index(s, c);
    if i < j {
        assert(s[i] != c);
    } else if j < i {
        assert(s[j] == c);
    }
}

proof fn lemma_trim_start(s: Seq<char>)
    ensures
        trim_start_spec(s).len() > 0 ==> !is_white_space(trim_start_spec(s)[0]),
    decreases s.len(),
{
    if s.len() > 0 && is_white_space(s[0]) {
        lemma_trim_start(s.skip(1));
    }
}

proof fn lemma_trim_end(s: Seq<char>)
    ensures
        trim_end_spec(s).len() > 0 ==> !is_white_space(trim_end_spec(s).last()) && s.len() > 0
            && trim_end_spec(s)[0] == s[0],
    decreases s.len(),
{
    if s.len() > 0 && is_white_space(s.last()) {
        lemma_trim_end(s.drop_last());
    }
}

/// Trimming what is trimmed changes nothing.
pub proof fn trim_is_idempotent(s: Seq<char>)
    ensures
        trim_spec(trim_spec(s)) == trim_spec(s),
{
    lemma_trim_start(s);
    lemma_trim_end(trim_start_spec(s));
}

/// Tells whether `c` is white space.
pub fn is_whitespace(c: char) -> (r: bool)
    ensures
        r == is_white_space(c),
{
    ('\u{9}' <= c && c <= '\u{d}') || c == '\u{20}' || c == '\u{85}' || c == '\u{a0}' || c
        == '\u{1680}' || ('\u{2000}' <= c && c <= '\u{200a}') || c == '\u{2028}' || c == '\u{2029}'
        || c == '\u{202f}' || c == '\u{205f}' || c == '\u{3000}'
}

/// The characters of `s`.
pub fn chars_of(s: &str) -> (r: Vec<char>)
    ensures
        r@ == s@,
{
    let mut v: Vec<char> = Vec::new();
    for c in it: s.chars()
        invariant
            it.seq() == s@,
            v@ == s@.take(it.index() as int),
    {
        v.push(c);
    }
    v
}

/// The bounds of what is left of `v` without white space at both ends.
fn trim_bounds(v: &Vec<char>) -> (r: (usize, usize))
    ensures
        r.0 <= r.1 <= v.len(),
        v@.subrange(r.0 as int, r.1 as int) == trim_spec(v@),
{
    let mut a: usize = 0;
    proof {
        assert(v@.skip(0) =~= v@);
    }
    while a < v.len() && is_whitespace(v[a])
        invariant
            a <= v.len(),
            trim_start_spec(v@) == trim_start_spec(v@.skip(a as int)),
        decreases v.len() - a,
    {
        proof {
            assert(v@.skip(a as int).skip(1) =~= v@.skip(a + 1));
        }
        a = a + 1;
    }
    let ghost t = v@.skip(a as int);
    let mut b: usize = v.len();
    proof {
        assert(t.take(t.len() as int) =~= t);
    }
    while a < b && is_whitespace(v[b - 1])
        invariant
            a <= b <= v.len(),
            t == v@.skip(a as int),
            trim_end_spec(t) == trim_end_spec(t.take(b - a)),
        decreases b,
    {
        proof {
            assert(t.take(b - a).drop_last() =~= t.take(b - a - 1));
            assert(t.take(b - a).last() == v@[b - 1]);
        }
        b = b - 1;
    }
    proof {
        assert(v@.subrange(a as int, b as int) =~= t.take(b - a));
        if a < b {
            assert(t.take(b - a).last() == v@[b - 1]);
        }
    }
    (a, b)
}

/// Removes white space at both ends.
pub fn trim(s: &str) -> (r: &str)
    ensures
        r@ == trim_spec(s@),
{
    let (a, b) = trim_bounds(&chars_of(s));
    s.substring_char(a, b)
}

/// The characters of `v` without white space at both ends.
pub fn trim_chars(v: &Vec<char>) -> (r: Vec<char>)
    ensures
        r@ == trim_spec(v@),
{
    let (a, b) = trim_bounds(v);
    sub_chars(v, a, b)
}

/// The characters `v[from..to]`.
pub fn sub_chars(v: &Vec<char>, from: usize, to: usize) -> (r: Vec<char>)
    requires
        from <= to <= v.len(),
    ensures
        r@ == v@.subrange(from as int, to as int),
{
    let mut out: Vec<char> = Vec::new();
    let mut i: usize = from;
    while i < to
        invariant
            from <= i <= to <= v.len(),
            out@ == v@.subrange(from as int, i as int),
        decreases to - i,
    {
        out.push(v[i]);
        i = i + 1;
    }
    out
}

/// `String::push`: appends one character to the end of the string.
pub assume_specification[ String::push ](s: &mut String, c: char)
    ensures
        final(s)@ == old(s)@.push(c),
;

/// The string made of the characters of `v`.
pub fn string_of(v: &Vec<char>) -> (r: String)
    ensures
        r@ == v@,
{
    let mut s = String::new();
    let mut i: usize = 0;
    while i < v.len()
        invariant
            i <= v.len(),
            s@ == v@.take(i as int),
        decreases v.len() - i,
    {
        s.push(v[i]);
        i = i + 1;
    }
    proof {
        assert(v@.take(i as int) =~= v@);
    }
    s
}

/// Tells whether two texts have the same characters.
pub fn same_text(a: &str, b: &str) -> (r: bool)
    ensures
        r == (a@ == b@),
{
    let x = chars_of(a);
    let y = chars_of(b);
    if x.len() != y.len() {
        return false;
    }
    let mut i: usize = 0;
    while i < x.len()
        invariant
            i <= x.len(),
            x.len() == y.len(),
            x@ == a@,
            y@ == b@,
            forall|k: int| 0 <= k < i ==> x@[k] == y@[k],
        decreases x.len() - i,
    {
        if x[i] != y[i] {
            return false;
        }
        i = i + 1;
    }
    proof {
        assert(a@ =~= b@);
    }
    true
}

/// The position of the first `c` in `v`, or the length of `v` if there is none.
pub fn find(v: &Vec<char>, c: char) -> (r: usize)
    ensures
        r == first_index(v@, c),
        r <= v.len(),
{
    let mut i: usize = 0;
    while i < v.len() && v[i] != c
        invariant
            i <= v.len(),
            forall|k: int| 0 <= k < i ==> v@[k] != c,
        decreases v.len() - i,
    {
        i = i + 1;
    }
    proof {
        lemma_first_index_unique(v@, c, i as int);
    }
    i
}

/// The lower-case form of a text, by the Unicode mapping that `str::to_lowercase`
/// applies.
pub uninterp spec fn lowercase(s: Seq<char>) -> Seq<char>;

/// The lower-case form of one character, if it is an ASCII letter.
pub open spec fn ascii_lower(c: char) -> char {
    if 'A' <= c <= 'Z' {
        ((c as nat) + 32) as char
    } else {
        c
    }
}

/// `s` with its ASCII letters in lower case.
pub open spec fn ascii_lowercase(s: Seq<char>) -> Seq<char> {
    s.map_values(|c: char| ascii_lower(c))
}

/// `str::to_lowercase`: the result depends on the characters of `s` alone, and on
/// ASCII text it maps the letters `A` to `Z` and keeps the rest.
#[verifier::external_body]
pub(crate) fn to_lowercase(s: &str) -> (r: String)
    ensures
        r@ == lowercase(s@),
        is_ascii_chars(s@) ==> r@ == ascii_lowercase(s@),
{
    s.to_lowercase()
}

/// The contents of each piece.
pub open spec fn pieces(v: Seq<Vec<char>>) -> Seq<Seq<char>> {
    v.map_values(|p: Vec<char>| p@)
}

/// The characters of each text.
pub open spec fn texts(v: Seq<String>) -> Seq<Seq<char>> {
    v.map_values(|s: String| s@)
}

/// Splits `v` at every `c`.
pub fn split(v: &Vec<char>, c: char) -> (r: Vec<Vec<char>>)
    ensures
        pieces(r@) == split_on(v@, c),
{
    let mut out: Vec<Vec<char>> = Vec::new();
    let mut cur: Vec<char> = Vec::new();
    let mut i: usize = 0;
    let ghost mut start: int = 0;
    proof {
        assert(v@.skip(0) =~= v@);
        assert(pieces(out@) + split_on(v@, c) =~= split_on(v@, c));
    }
    while i < v.len()
        invariant
            0 <= start <= i <= v.len(),
            cur@ == v@.subrange(start, i as int),
            forall|k: int| start <= k < i ==> v@[k] != c,
            split_on(v@, c) == pieces(out@) + split_on(v@.skip(start), c),
        decreases v.len() - i,
    {
        if v[i] == c {
            let ghost t = v@.skip(start);
            let ghost done = out@;
            proof {
                lemma_first_index_unique(t, c, i - start);
                assert(t.take(i - start) =~= cur@);
                assert(t.skip(i - start + 1) =~= v@.skip(i + 1));
            }
            let ghost piece = cur@;
            out.push(cur);
            cur = Vec::new();
            proof {
                assert(pieces(out@) =~= pieces(done).push(piece));
                assert(pieces(done) + (seq![piece] + split_on(v@.skip(i + 1), c))
                    =~= pieces(out@) + split_on(v@.skip(i + 1), c));
                start = i + 1;
            }
        } else {
            cur.push(v[i]);
        }
        i = i + 1;
    }
    let ghost t = v@.skip(start);
    let ghost done = out@;
    proof {
        lemma_first_index_unique(t, c, t.len() as int);
        assert(t =~= cur@);
    }
    out.push(cur);
    proof {
        assert(pieces(out@) =~= pieces(done) + seq![t]);
    }
    out
}

/// The value of a decimal or hexadecimal digit.
pub open spec fn digit_value(c: char) -> Option<nat> {
    if '0' <= c <= '9' {
        Some((c as nat - '0' as nat) as nat)
    } else if 'a' <= c <= 'f' {
        Some((c as nat - 'a' as nat + 10) as nat)
    } else if 'A' <= c <= 'F' {
        Some((c as nat - 'A' as nat + 10) as nat)
    } else {
        None
    }
}

/// The number that the digits of `s` denote in base `radix`; `None` where a
/// character is no digit of that base.
pub open spec fn numeral(s: Seq<char>, radix: nat) -> Option<nat>
    decreases s.len(),
{
    if s.len() == 0 {
        Some(0)
    } else {
        match (numeral(s.drop_last(), radix), digit_value(s.last())) {
            (Some(v), Some(d)) => if d < radix {
                Some(v * radix + d)
            } else {
                None
            },
            _ => None,
        }
    }
}

/// The number that a non-empty string of digits denotes, if it is at most `max`.
pub open spec fn bounded_numeral(s: Seq<char>, radix: nat, max: nat) -> Option<nat> {
    match numeral(s, radix) {
        Some(v) => if s.len() > 0 && v <= max {
            Some(v)
        } else {
            None
        },
        None => None,
    }
}

proof fn lemma_numeral_prefix(s: Seq<char>, radix: nat, k: int)
    requires
        0 <= k <= s.len(),
        radix > 0,
    ensures
        numeral(s.take(k), radix) is None ==> numeral(s, radix) is None,
        numeral(s, radix) is Some && numeral(s.take(k), radix) is Some ==> numeral(
            s.take(k),
            radix,
        )->0 <= numeral(s, radix)->0,
    decreases s.len(),
{
    if k == s.len() {
        assert(s.take(k) =~= s);
    } else {
        lemma_numeral_prefix(s.drop_last(), radix, k);
        assert(s.drop_last().take(k) =~= s.take(k));
        if numeral(s, radix) is Some {
            let v = numeral(s.drop_last(), radix)->0;
            assert(v <= v * radix) by (nonlinear_arith)
                requires
                    radix > 0,
            ;
        }
    }
}

fn digit_of(c: char) -> (r: Option<u64>)
    ensures
        r is Some <==> digit_value(c) is Some,
        r is Some ==> r->0 == digit_value(c)->0 && r->0 < 16,
{
    if '0' <= c && c <= '9' {
        Some(c as u64 - '0' as u64)
    } else if 'a' <= c && c <= 'f' {
        Some(c as u64 - 'a' as u64 + 10)
    } else if 'A' <= c && c <= 'F' {
        Some(c as u64 - 'A' as u64 + 10)
    } else {
        None
    }
}

/// Reads the digits `v[from..]` as a number of base `radix` that is at most `max`.
pub fn parse_number(v: &Vec<char>, from: usize, radix: u64, max: u64) -> (r: Option<u64>)
    requires
        from <= v.len(),
        2 <= radix <= 16,
        max <= 0xffff_ffff,
    ensures
        match r {
            Some(n) => bounded_numeral(v@.skip(from as int), radix as nat, max as nat) == Some(
                n as nat,
            ),
            None => bounded_numeral(v@.skip(from as int), radix as nat, max as nat) is None,
        },
{
    let ghost s = v@.skip(from as int);
    if from == v.len() {
        return None;
    }
    let mut acc: u64 = 0;
    let mut i: usize = from;
    proof {
        assert(s.take(0) =~= Seq::<char>::empty());
    }
    while i < v.len()
        invariant
            from <= i <= v.len(),
            from < v.len(),
            s == v@.skip(from as int),
            2 <= radix <= 16,
            acc <= max <= 0xffff_ffff,
            numeral(s.take(i - from), radix as nat) == Some(acc as nat),
        decreases v.len() - i,
    {
        proof {
            assert(s.take(i - from + 1).drop_last() =~= s.take(i - from));
            assert(s.take(i - from + 1).last() == v@[i as int]);
            lemma_numeral_prefix(s, radix as nat, i - from + 1);
        }
        let d: u64 = match digit_of(v[i]) {
            Some(d) => d,
            None => {
                return None;
            },
        };
        if d >= radix {
            return None;
        }
        assert(0 <= acc * radix <= 0xffff_ffff * 16) by (nonlinear_arith)
            requires
                0 <= acc <= 0xffff_ffff,
                2 <= radix <= 16,
        ;
        acc = acc * radix + d;
        if acc > max {
            return None;
        }
        i = i + 1;
    }
    proof {
        assert(s.take(i - from) =~= s);
    }
    Some(acc)
}

/// An unsigned number: an optional `+`, then decimal digits.
pub open spec fn unsigned_spec(s: Seq<char>) -> Option<nat> {
    let digits = if s.len() > 0 && s[0] == '+' {
        s.skip(1)
    } else {
        s
    };
    bounded_numeral(digits, 10, 0xffff_ffff)
}

/// Reads an unsigned 32-bit number.
pub fn parse_unsigned(v: &Vec<char>) -> (r: Option<u32>)
    ensures
        match r {
            Some(n) => unsigned_spec(v@) == Some(n as nat),
            None => unsigned_spec(v@) is None,
        },
{
    let from: usize = if v.len() > 0 && v[0] == '+' {
        1
    } else {
        0
    };
    proof {
        assert(v@.skip(0) =~= v@);
    }
    match parse_number(v, from, 10, 0xffff_ffff) {
        Some(n) => Some(n as u32),
        None => None,
    }
}

/// The character of a decimal digit.
pub open spec fn digit_char(d: nat) -> char {
    (d + 48) as char
}

/// The decimal digits of `n`, without leading zeros.
pub open spec fn decimal(n: nat) -> Seq<char>
    decreases n,
{
    if n < 10 {
        seq![digit_char(n)]
    } else {
        decimal(n / 10).push(digit_char(n % 10))
    }
}

fn digit_text(d: u64) -> (r: &'static str)
    requires
        d < 10,
    ensures
        r@ == seq![digit_char(d as nat)],
{
    proof {
        reveal_strlit("0");
        reveal_strlit("1");
        reveal_strlit("2");
        reveal_strlit("3");
        reveal_strlit("4");
        reveal_strlit("5");
        reveal_strlit("6");
        reveal_strlit("7");
        reveal_strlit("8");
        reveal_strlit("9");
    }
    let r = match d {
        0 => "0",
        1 => "1",
        2 => "2",
        3 => "3",
        4 => "4",
        5 => "5",
        6 => "6",
        7 => "7",
        8 => "8",
        _ => "9",
    };
    assert(r@ =~= seq![digit_char(d as nat)]);
    r
}

/// Writes `n` in decimal.
pub fn decimal_text(n: u64) -> (r: String)
    ensures
        r@ == decimal(n as nat),
    decreases n,
{
    if n < 10 {
        digit_text(n).to_owned()
    } else {
        let mut s = decimal_text(n / 10);
        let ghost head = s@;
        s.append(digit_text(n % 10));
        assert(s@ =~= head.push(digit_char((n % 10) as nat)));
        s
    }
}

/// Whether `v[a..b]` is all of `v` but white space at both ends.
pub open spec fn is_core(v: Seq<char>, a: int, b: int) -> bool {
    &&& 0 <= a <= b <= v.len()
    &&& forall|k: int| 0 <= k < a ==> is_white_space(#[trigger] v[k])
    &&& forall|k: int| b <= k < v.len() ==> is_white_space(#[trigger] v[k])
    &&& a < b ==> !is_white_space(v[a]) && !is_white_space(v[b - 1])
}

/// Trimming keeps the middle of a text as it is: what goes is white space at the ends, and
/// what stays has none there.
pub proof fn trim_keeps_the_middle(s: Seq<char>)
    ensures
        exists|a: int, b: int| #[trigger] is_core(s, a, b) && trim_spec(s) == s.subrange(a, b),
{
    let a = lemma_trim_start_cuts(s);
    let t = s.skip(a);
    let n = lemma_trim_end_cuts(t);
    let b = a + n;
    assert(trim_spec(s) == t.take(n));
    assert(t.take(n) =~= s.subrange(a, b));
    assert forall|k: int| b <= k < s.len() implies is_white_space(#[trigger] s[k]) by {
        assert(t[k - a] == s[k]);
    }
    lemma_trim_start(s);
    if a < b {
        assert(s[a] == t[0]);
        assert(s[b - 1] == t[n - 1]);
    }
    assert(is_core(s, a, b));
}

proof fn lemma_trim_start_cuts(s: Seq<char>) -> (a: int)
    ensures
        0 <= a <= s.len(),
        trim_start_spec(s) == s.skip(a),
        forall|k: int| 0 <= k < a ==> is_white_space(#[trigger] s[k]),
    decreases s.len(),
{
    if s.len() > 0 && is_white_space(s[0]) {
        let rest = s.skip(1);
        let n = lemma_trim_start_cuts(rest);
        assert(rest.skip(n) =~= s.skip(n + 1));
        assert forall|k: int| 0 <= k < n + 1 implies is_white_space(#[trigger] s[k]) by {
            if k > 0 {
                assert(rest[k - 1] == s[k]);
            }
        }
        n + 1
    } else {
        assert(s.skip(0) =~= s);
        0
    }
}

proof fn lemma_trim_end_cuts(s: Seq<char>) -> (n: int)
    ensures
        0 <= n <= s.len(),
        trim_end_spec(s) == s.take(n),
        forall|k: int| n <= k < s.len() ==> is_white_space(#[trigger] s[k]),
        n > 0 ==> !is_white_space(s[n - 1]),
    decreases s.len(),
{
    if s.len() > 0 && is_white_space(s.last()) {
        let rest = s.drop_last();
        let n = lemma_trim_end_cuts(rest);
        assert(rest.take(n) =~= s.take(n));
        assert forall|k: int| n <= k < s.len() implies is_white_space(#[trigger] s[k]) by {
            if k < rest.len() {
                assert(rest[k] == s[k]);
            }
        }
        n
    } else {
        assert(s.take(s.len() as int) =~= s);
        s.len() as int
    }
}

/// Texts one behind the other, with `c` between them.
pub open spec fn joined(parts: Seq<Seq<char>>, c: char) -> Seq<char>
    decreases parts.len(),
{
    if parts.len() == 0 {
        Seq::empty()
    } else if parts.len() == 1 {
        parts[0]
    } else {
        parts[0] + seq![c] + joined(parts.skip(1), c)
    }
}

/// Splitting a text undoes joining: the pieces, none of which holds the separator, give the
/// text when they are joined by it.
pub proof fn splitting_undoes_joining(s: Seq<char>, c: char)
    ensures
        split_on(s, c).len() >= 1,
        joined(split_on(s, c), c) == s,
        forall|i: int| 0 <= i < split_on(s, c).len() ==> !(#[trigger] split_on(s, c)[i]).contains(c),
    decreases s.len(),
{
    lemma_first_index(s, c);
    let i = first_index(s, c);
    let all = split_on(s, c);
    if i < s.len() {
        let rest = s.skip(i + 1);
        splitting_undoes_joining(rest, c);
        assert(all.skip(1) =~= split_on(rest, c));
        assert(all[0] == s.take(i));
        assert(s.take(i) + seq![c] + rest =~= s);
        assert forall|k: int| 0 <= k < all.len() implies !(#[trigger] all[k]).contains(c) by {
            if k > 0 {
                assert(all[k] == split_on(rest, c)[k - 1]);
            }
        }
    } else {
        assert(all[0] == s);
    }
}

/// Joining undoes splitting: texts that do not hold the separator are what their joined text
/// is split into.
pub proof fn joining_undoes_splitting(parts: Seq<Seq<char>>, c: char)
    requires
        parts.len() >= 1,
        forall|i: int| 0 <= i < parts.len() ==> !(#[trigger] parts[i]).contains(c),
    ensures
        split_on(joined(parts, c), c) == parts,
    decreases parts.len(),
{
    let s = joined(parts, c);
    let p = parts[0];
    assert forall|k: int| 0 <= k < p.len() implies p[k] != c by {
        assert(p.contains(p[k]));
    }
    if parts.len() == 1 {
        lemma_first_index_unique(s, c, s.len() as int);
        assert(split_on(s, c) =~= parts);
    } else {
        let rest = parts.skip(1);
        assert forall|i: int| 0 <= i < rest.len() implies !(#[trigger] rest[i]).contains(c) by {
            assert(rest[i] == parts[i + 1]);
        }
        joining_undoes_splitting(rest, c);
        assert(s[p.len() as int] == c);
        lemma_first_index_unique(s, c, p.len() as int);
        assert(s.take(p.len() as int) =~= p);
        assert(s.skip(p.len() as int + 1) =~= joined(rest, c));
        assert(seq![p] + rest =~= parts);
    }
}

/// The digits, in their usual order and in either case, are worth 0 to 15.
pub proof fn digits_count_up(c: char)
    ensures
        '0' <= c <= '9' ==> digit_value(c) == Some((c as int - '0' as int) as nat),
        'a' <= c <= 'f' ==> digit_value(c) == Some((c as int - 'a' as int + 10) as nat),
        'A' <= c <= 'F' ==> digit_value(c) == Some((c as int - 'A' as int + 10) as nat),
        digit_value(c) is Some ==> '0' <= c <= '9' || 'a' <= c <= 'f' || 'A' <= c <= 'F',
{
}

/// A digit behind a number makes it worth the base as much, and the digit more; nothing but
/// digits of the base makes a number.
pub proof fn numerals_are_positional(s: Seq<char>, c: char, radix: nat)
    requires
        2 <= radix <= 16,
    ensures
        numeral(Seq::empty(), radix) == Some(0nat),
        numeral(s.push(c), radix) is Some <==> numeral(s, radix) is Some && digit_value(c) is Some
            && digit_value(c)->0 < radix,
        numeral(s.push(c), radix) is Some ==> numeral(s.push(c), radix)->0 == numeral(s, radix)->0
            * radix + digit_value(c)->0,
{
    assert(s.push(c).drop_last() =~= s);
}

/// A number reads back from its decimal digits, of which the first is no zero but for the
/// number zero.
pub proof fn decimals_read_back(n: nat)
    ensures
        numeral(decimal(n), 10) == Some(n),
        decimal(n).len() > 0,
        forall|i: int| 0 <= i < decimal(n).len() ==> '0' <= #[trigger] decimal(n)[i] <= '9',
        n > 0 ==> decimal(n)[0] != '0',
        n == 0 ==> decimal(n) == seq!['0'],
    decreases n,
{
    if n < 10 {
        assert(decimal(n).drop_last() =~= Seq::<char>::empty());
        reveal_with_fuel(numeral, 2);
    } else {
        decimals_read_back(n / 10);
        assert(decimal(n).drop_last() =~= decimal(n / 10));
        assert(decimal(n).last() == digit_char(n % 10));
    }
}

/// Decimal digits of which the first is no zero, or that are a single one, are the decimal
/// digits of the number that they denote.
pub proof fn canonical_numerals_are_decimals(s: Seq<char>)
    requires
        s.len() > 0,
        s.len() == 1 || s[0] != '0',
        numeral(s, 10) is Some,
    ensures
        s == decimal(numeral(s, 10)->0),
    decreases s.len(),
{
    let n = numeral(s, 10)->0;
    let init = s.drop_last();
    let d = digit_value(s.last())->0;
    assert(s =~= init.push(s.last()));
    assert(digit_char(d) == s.last());
    if s.len() == 1 {
        assert(init =~= Seq::<char>::empty());
        assert(n == d);
        assert(s =~= seq![digit_char(n)]);
    } else {
        let v = numeral(init, 10)->0;
        assert(init.len() == 1 || init[0] != '0');
        canonical_numerals_are_decimals(init);
        decimals_read_back(v);
        assert(v > 0);
        assert(n == v * 10 + d);
        assert(n / 10 == v && n % 10 == d);
    }
}

/// An unsigned number is what its digits denote, with a `+` before them or not, if it fits
/// 32 bits.
pub proof fn unsigned_numbers_read_back(n: nat)
    ensures
        unsigned_spec(decimal(n)) == if n <= 0xffff_ffff {
            Some(n)
        } else {
            None
        },
        unsigned_spec(seq!['+'] + decimal(n)) == unsigned_spec(decimal(n)),
        unsigned_spec(Seq::empty()) is None,
{
    decimals_read_back(n);
    assert((seq!['+'] + decimal(n)).skip(1) =~= decimal(n));
}

/// Lower case changes the letters `A` to `Z` to their counterparts, in place, and nothing
/// else.
pub proof fn lower_case_keeps_all_but_capitals(s: Seq<char>, i: int)
    requires
        0 <= i < s.len(),
    ensures
        ascii_lowercase(s).len() == s.len(),
        !('A' <= s[i] <= 'Z') ==> ascii_lowercase(s)[i] == s[i],
        'A' <= s[i] <= 'Z' ==> 'a' <= ascii_lowercase(s)[i] <= 'z' && ascii_lowercase(s)[i] as int
            - 'a' as int == s[i] as int - 'A' as int,
{
}

/// A piece of a text holds nothing that is not in the text.
pub proof fn pieces_are_of_the_text(s: Seq<char>, c: char, i: int, k: int)
    requires
        0 <= i < split_on(s, c).len(),
        0 <= k < split_on(s, c)[i].len(),
    ensures
        s.contains(split_on(s, c)[i][k]),
    decreases s.len(),
{
    lemma_first_index(s, c);
    let n = first_index(s, c);
    let x = split_on(s, c)[i][k];
    if n < s.len() {
        if i == 0 {
            assert(s[k] == x);
        } else {
            let rest = s.skip(n + 1);
            assert(split_on(s, c)[i] == split_on(rest, c)[i - 1]);
            pieces_are_of_the_text(rest, c, i - 1, k);
            let j = choose|j: int| 0 <= j < rest.len() && rest[j] == x;
            assert(s[n + 1 + j] == x);
        }
    } else {
        assert(s[k] == x);
    }
}

/// An unsigned number is a number in decimal digits, leading zeros or not, that fits 32 bits;
/// one `+` before it changes nothing.
pub proof fn unsigned_numbers_are_numerals(s: Seq<char>)
    ensures
        unsigned_spec(seq!['+'] + s) == if s.len() > 0 && numeral(s, 10) is Some && numeral(
            s,
            10,
        )->0 <= 0xffff_ffff {
            numeral(s, 10)
        } else {
            None
        },
        s.len() > 0 && s[0] != '+' ==> unsigned_spec(s) == unsigned_spec(seq!['+'] + s),
{
    assert((seq!['+'] + s).skip(1) =~= s);
}

} // verus!
