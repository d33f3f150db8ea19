//! The IP filter: address lists, and who may connect.
use crate::config::IpFilterConfig;
use crate::ip_addr::{IpAddr, ip_spec, parse_ip};
use crate::text::{
    ascii_lowercase, chars_of, find, first_index, is_core, is_white_space, joined,
    lemma_first_index_unique, lowercase, parse_unsigned, pieces, same_text, split, split_on,
    splitting_undoes_joining, string_of, sub_chars, to_lowercase, trim, trim_chars,
    trim_is_idempotent, trim_keeps_the_middle, trim_spec, unsigned_spec,
};
use std::sync::Arc;
use vstd::arithmetic::div_mod::lemma_basic_div;
use vstd::arithmetic::power2::{lemma2_to64, lemma2_to64_rest, lemma_pow2_adds, pow2};
use vstd::prelude::*;
use vstd::utf8::is_ascii_chars;

verus! {

/// One line of an address list: a single address, or a block of addresses of
/// which the bits under `mask` equal `base`.
#[derive(Debug, Clone, Copy, PartialEq, Eq, Structural)]
pub enum IpEntry {
    Single(IpAddr),
    Cidr { base: u128, mask: u128, is_v6: bool },
}

/// The mask whose first `len` bits of 32 are set.
pub open spec fn v4_mask(len: nat) -> u32 {
    if len == 0 {
        0
    } else {
        0xffff_ffffu32 << ((32 - len) as u32)
    }
}

/// The mask whose first `len` bits of 128 are set.
pub open spec fn v6_mask(len: nat) -> u128 {
    if len == 0 {
        0
    } else {
        0xffff_ffff_ffff_ffff_ffff_ffff_ffff_ffffu128 << ((128 - len) as u128)
    }
}

/// The entry for the block of addresses that share their first `len` bits with `ip`.
pub open spec fn block_entry(ip: IpAddr, len: nat) -> IpEntry {
    match ip {
        IpAddr::V4(a) => IpEntry::Cidr {
            base: (a & v4_mask(len)) as u128,
            mask: v4_mask(len) as u128,
            is_v6: false,
        },
        IpAddr::V6(a) => IpEntry::Cidr {
            base: a & v6_mask(len),
            mask: v6_mask(len),
            is_v6: true,
        },
    }
}

impl IpEntry {
    /// Whether the entry covers `ip`.
    pub open spec fn covers(self, ip: IpAddr) -> bool {
        match self {
            IpEntry::Single(a) => a == ip,
            IpEntry::Cidr { base, mask, is_v6 } => match ip {
                IpAddr::V4(x) => !is_v6 && (x as u128) & mask == base,
                IpAddr::V6(x) => is_v6 && x & mask == base,
            },
        }
    }

    /// Tells whether the entry covers `ip`.
    pub fn matches(&self, ip: &IpAddr) -> (r: bool)
        ensures
            r == self.covers(*ip),
    {
        match self {
            IpEntry::Single(a) => *a == *ip,
            IpEntry::Cidr { base, mask, is_v6 } => match ip {
                IpAddr::V4(x) => !*is_v6 && (*x as u128) & *mask == *base,
                IpAddr::V6(x) => *is_v6 && *x & *mask == *base,
            },
        }
    }
}

/// What is wrong with a list line.
#[derive(Debug, Clone, Copy, PartialEq, Eq, Structural)]
pub enum EntryFault {
    /// The text behind the slash is no number.
    PrefixLength,
    /// The text before the slash is no address.
    CidrAddress,
    /// An IPv4 prefix length over 32.
    V4PrefixTooLong,
    /// An IPv6 prefix length over 128.
    V6PrefixTooLong,
    /// There is no slash, and the text is no address.
    Address,
}

/// A list line that could not be read.
#[derive(Debug, Clone)]
pub struct EntryError {
    pub fault: EntryFault,
    /// The line, without surrounding white space.
    pub text: String,
}

/// What a line without surrounding white space means.
pub open spec fn trimmed_entry_spec(t: Seq<char>) -> Result<IpEntry, EntryFault> {
    let i = first_index(t, '/');
    if i < t.len() {
        match (unsigned_spec(t.skip(i + 1)), ip_spec(t.take(i))) {
            (None, _) => Err(EntryFault::PrefixLength),
            (Some(_), None) => Err(EntryFault::CidrAddress),
            (Some(len), Some(ip)) => if ip is V4 && len > 32 {
                Err(EntryFault::V4PrefixTooLong)
            } else if ip is V6 && len > 128 {
                Err(EntryFault::V6PrefixTooLong)
            } else {
                Ok(block_entry(ip, len))
            },
        }
    } else {
        match ip_spec(t) {
            Some(ip) => Ok(IpEntry::Single(ip)),
            None => Err(EntryFault::Address),
        }
    }
}

/// What a line means.
pub open spec fn entry_spec(s: Seq<char>) -> Result<IpEntry, EntryFault> {
    trimmed_entry_spec(trim_spec(s))
}

/// Makes the entry for a block of addresses.
pub fn make_block(ip: IpAddr, len: u32) -> (r: IpEntry)
    requires
        match ip {
            IpAddr::V4(_) => len <= 32,
            IpAddr::V6(_) => len <= 128,
        },
    ensures
        r == block_entry(ip, len as nat),
{
    match ip {
        IpAddr::V4(a) => {
            let mask: u32 = if len == 0 {
                0
            } else {
                0xffff_ffffu32 << (32 - len)
            };
            IpEntry::Cidr { base: (a & mask) as u128, mask: mask as u128, is_v6: false }
        },
        IpAddr::V6(a) => {
            let mask: u128 = if len == 0 {
                0
            } else {
                0xffff_ffff_ffff_ffff_ffff_ffff_ffff_ffffu128 << ((128 - len) as u128)
            };
            IpEntry::Cidr { base: a & mask, mask, is_v6: true }
        },
    }
}

fn trimmed_entry(t: &Vec<char>) -> (r: Result<IpEntry, EntryFault>)
    ensures
        r == trimmed_entry_spec(t@),
{
    let i = find(t, '/');
    if i < t.len() {
        let prefix = sub_chars(t, i + 1, t.len());
        let head = sub_chars(t, 0, i);
        proof {
            assert(prefix@ =~= t@.skip(i + 1));
            assert(head@ =~= t@.take(i as int));
        }
        let len: u32 = match parse_unsigned(&prefix) {
            Some(n) => n,
            None => {
                return Err(EntryFault::PrefixLength);
            },
        };
        let ip = match parse_ip(&head) {
            Some(ip) => ip,
            None => {
                return Err(EntryFault::CidrAddress);
            },
        };
        match ip {
            IpAddr::V4(_) => {
                if len > 32 {
                    return Err(EntryFault::V4PrefixTooLong);
                }
            },
            IpAddr::V6(_) => {
                if len > 128 {
                    return Err(EntryFault::V6PrefixTooLong);
                }
            },
        }
        Ok(make_block(ip, len))
    } else {
        match parse_ip(t) {
            Some(ip) => Ok(IpEntry::Single(ip)),
            None => Err(EntryFault::Address),
        }
    }
}

/// Reads one line of an address list.
pub fn parse_entry(s: &str) -> (r: Result<IpEntry, EntryError>)
    ensures
        match r {
            Ok(e) => entry_spec(s@) == Ok::<IpEntry, EntryFault>(e),
            Err(e) => entry_spec(s@) == Err::<IpEntry, EntryFault>(e.fault) && e.text@
                == trim_spec(s@),
        },
{
    let t = trim_chars(&chars_of(s));
    match trimmed_entry(&t) {
        Ok(e) => Ok(e),
        Err(fault) => Err(EntryError { fault, text: string_of(&t) }),
    }
}

/// Whether a line is meant to be read: it is neither blank nor a comment.
pub open spec fn is_entry_line(line: Seq<char>) -> bool {
    let t = trim_spec(line);
    t.len() > 0 && t[0] != '#'
}

/// The entries that the lines of a list give, in their order. Lines that cannot be
/// read give none.
pub open spec fn entries_of(lines: Seq<Seq<char>>) -> Seq<IpEntry>
    decreases lines.len(),
{
    if lines.len() == 0 {
        Seq::empty()
    } else {
        let before = entries_of(lines.drop_last());
        match entry_spec(lines.last()) {
            Ok(e) => if is_entry_line(lines.last()) {
                before.push(e)
            } else {
                before
            },
            Err(_) => before,
        }
    }
}

/// The lines of a list that are meant to be read and cannot be: the line's number,
/// counted from 1, its text and what is wrong with it.
pub open spec fn skipped_of(lines: Seq<Seq<char>>) -> Seq<(nat, Seq<char>, EntryFault)>
    decreases lines.len(),
{
    if lines.len() == 0 {
        Seq::empty()
    } else {
        let before = skipped_of(lines.drop_last());
        match entry_spec(lines.last()) {
            Ok(_) => before,
            Err(fault) => if is_entry_line(lines.last()) {
                before.push((lines.len(), trim_spec(lines.last()), fault))
            } else {
                before
            },
        }
    }
}

/// The lines of a text.
pub open spec fn lines_of(content: Seq<char>) -> Seq<Seq<char>> {
    split_on(content, '\n')
}

/// A list line that was left out.
#[derive(Debug, Clone)]
pub struct SkippedLine {
    /// The line's number, counted from 1.
    pub number: usize,
    pub error: EntryError,
}

impl SkippedLine {
    /// The number, text and fault of the line.
    pub open spec fn summary(self) -> (nat, Seq<char>, EntryFault) {
        (self.number as nat, self.error.text@, self.error.fault)
    }
}

/// What an address list holds.
#[derive(Debug, Clone)]
pub struct IpList {
    pub entries: Vec<IpEntry>,
    pub skipped: Vec<SkippedLine>,
}

/// Reads an address list: one entry per line, blank lines and lines that start with
/// `#` left out, lines that cannot be read set apart.
pub fn read_list(content: &str) -> (r: IpList)
    ensures
        r.entries@ == entries_of(lines_of(content@)),
        r.skipped@.map_values(|l: SkippedLine| l.summary()) == skipped_of(lines_of(content@)),
{
    let lines = split(&chars_of(content), '\n');
    let ghost all = lines_of(content@);
    let mut entries: Vec<IpEntry> = Vec::new();
    let mut skipped: Vec<SkippedLine> = Vec::new();
    let ghost sum = |l: SkippedLine| l.summary();
    let mut i: usize = 0;
    proof {
        assert(all.take(0) =~= Seq::<Seq<char>>::empty());
        assert(skipped@.map_values(sum) =~= Seq::<(nat, Seq<char>, EntryFault)>::empty());
    }
    while i < lines.len()
        invariant
            i <= lines.len(),
            all == lines_of(content@),
            all == pieces(lines@),
            sum == (|l: SkippedLine| l.summary()),
            entries@ == entries_of(all.take(i as int)),
            skipped@.map_values(sum) == skipped_of(all.take(i as int)),
        decreases lines.len() - i,
    {
        let t = trim_chars(&lines[i]);
        proof {
            assert(all[i as int] == lines@[i as int]@);
            assert(all.take(i + 1).drop_last() =~= all.take(i as int));
            assert(all.take(i + 1).last() == all[i as int]);
        }
        if t.len() > 0 && t[0] != '#' {
            match trimmed_entry(&t) {
                Ok(e) => {
                    entries.push(e);
                },
                Err(fault) => {
                    let ghost before = skipped@;
                    let line = SkippedLine {
                        number: i + 1,
                        error: EntryError { fault, text: string_of(&t) },
                    };
                    skipped.push(line);
                    proof {
                        assert(skipped@.map_values(sum) =~= before.map_values(sum).push(
                            line.summary(),
                        ));
                    }
                },
            }
        }
        i = i + 1;
    }
    proof {
        assert(all.take(i as int) =~= all);
    }
    IpList { entries, skipped }
}

impl EntryFault {
    /// What is said before the text of the line.
    pub open spec fn lead(self) -> Seq<char> {
        match self {
            EntryFault::PrefixLength => "invalid prefix length in '"@,
            EntryFault::CidrAddress => "invalid IP in CIDR '"@,
            EntryFault::V4PrefixTooLong => "IPv4 prefix length > 32 in '"@,
            EntryFault::V6PrefixTooLong => "IPv6 prefix length > 128 in '"@,
            EntryFault::Address => "invalid IP address '"@,
        }
    }
}

impl EntryError {
    /// Says what is wrong with the line.
    pub fn message(&self) -> (r: String)
        ensures
            r@ == self.fault.lead() + self.text@ + "'"@,
    {
        let mut s = match self.fault {
            EntryFault::PrefixLength => "invalid prefix length in '".to_owned(),
            EntryFault::CidrAddress => "invalid IP in CIDR '".to_owned(),
            EntryFault::V4PrefixTooLong => "IPv4 prefix length > 32 in '".to_owned(),
            EntryFault::V6PrefixTooLong => "IPv6 prefix length > 128 in '".to_owned(),
            EntryFault::Address => "invalid IP address '".to_owned(),
        };
        s.append(self.text.as_str());
        s.append("'");
        s
    }
}

/// Why a filter could not be loaded.
#[derive(Debug, Clone)]
pub enum IpFilterError {
    /// The mode, in lower case and without surrounding white space, is neither
    /// `white` nor `black`.
    Mode(String),
    /// The address list could not be read.
    List { path: String, reason: String },
}

impl IpFilterError {
    /// Says why the filter could not be loaded.
    pub fn message(&self) -> (r: String)
        ensures
            r@ == match self {
                IpFilterError::Mode(mode) => "IPFilter.mode must be 'white' or 'black', got '"@
                    + mode@ + "'"@,
                IpFilterError::List { path, reason } => "failed to read iplist '"@ + path@ + "': "@
                    + reason@,
            },
    {
        match self {
            IpFilterError::Mode(mode) => {
                let mut s = "IPFilter.mode must be 'white' or 'black', got '".to_owned();
                s.append(mode.as_str());
                s.append("'");
                s
            },
            IpFilterError::List { path, reason } => {
                let mut s = "failed to read iplist '".to_owned();
                s.append(path.as_str());
                s.append("': ");
                s.append(reason.as_str());
                s
            },
        }
    }
}

/// Whether a mode word names a whitelist; `None` if it names no mode.
pub open spec fn mode_spec(word: Seq<char>) -> Option<bool> {
    if word == "white"@ {
        Some(true)
    } else if word == "black"@ {
        Some(false)
    } else {
        None
    }
}

/// The mode word of a configured mode.
pub open spec fn mode_word(mode: Seq<char>) -> Seq<char> {
    lowercase(trim_spec(mode))
}

/// Tells whether a mode word names a whitelist; `None` if it names no mode.
pub fn parse_mode(word: &str) -> (r: Option<bool>)
    ensures
        r == mode_spec(word@),
{
    if same_text(word, "white") {
        Some(true)
    } else if same_text(word, "black") {
        Some(false)
    } else {
        None
    }
}

/// Decides which addresses may connect.
#[derive(Debug, Clone)]
pub struct IpFilter {
    pub enabled: bool,
    /// A whitelist lets in the listed addresses, a blacklist all others.
    pub whitelist: bool,
    pub entries: Vec<IpEntry>,
}

/// Whether some entry covers `ip`.
pub open spec fn listed(entries: Seq<IpEntry>, ip: IpAddr) -> bool {
    exists|i: int| 0 <= i < entries.len() && (#[trigger] entries[i]).covers(ip)
}

/// What comes of loading an enabled filter whose mode word is `word`.
pub open spec fn is_loaded(
    cfg: IpFilterConfig,
    word: Seq<char>,
    list: Result<String, String>,
    r: Result<Arc<IpFilter>, IpFilterError>,
) -> bool {
    match (mode_spec(word), list) {
        (None, _) => r matches Err(IpFilterError::Mode(got)) && got@ == word,
        (Some(_), Err(why)) => r matches Err(IpFilterError::List { path, reason }) && path@
            == cfg.iplist_path@ && reason@ == why@,
        (Some(white), Ok(content)) => r matches Ok(f) && f.enabled && f.whitelist == white
            && f.entries@ == entries_of(lines_of(content@)),
    }
}

impl IpFilter {
    /// Whether `ip` may connect.
    pub open spec fn allows(self, ip: IpAddr) -> bool {
        !self.enabled || self.whitelist == listed(self.entries@, ip)
    }

    /// Tells whether loading the filter takes its address list.
    pub fn wants_list(cfg: &IpFilterConfig) -> (r: bool)
        ensures
            r == (cfg.enable && mode_spec(mode_word(cfg.mode@)) is Some),
            is_ascii_chars(trim_spec(cfg.mode@)) ==> r == (cfg.enable && mode_spec(
                ascii_lowercase(trim_spec(cfg.mode@)),
            ) is Some),
    {
        cfg.enable && parse_mode(to_lowercase(trim(cfg.mode.as_str())).as_str()).is_some()
    }

    /// Makes an enabled filter from an address list.
    pub fn from_list(whitelist: bool, content: &str) -> (r: IpFilter)
        ensures
            r.enabled,
            r.whitelist == whitelist,
            r.entries@ == entries_of(lines_of(content@)),
    {
        IpFilter { enabled: true, whitelist, entries: read_list(content).entries }
    }

    /// Loads the filter. `list` is what came of reading the address list; it is not
    /// looked at where the filter is disabled or the mode is wrong.
    pub fn load(cfg: &IpFilterConfig, list: Result<String, String>) -> (r: Result<
        Arc<IpFilter>,
        IpFilterError,
    >)
        ensures
            !cfg.enable ==> (r matches Ok(f) && !f.enabled && f.whitelist && f.entries@
                == Seq::<IpEntry>::empty()),
            cfg.enable ==> is_loaded(*cfg, mode_word(cfg.mode@), list, r),
            cfg.enable && is_ascii_chars(trim_spec(cfg.mode@))
                ==> is_loaded(
                *cfg,
                ascii_lowercase(trim_spec(cfg.mode@)),
                list,
                r,
            ),
    {
        if !cfg.enable {
            return Ok(Arc::new(IpFilter::default()));
        }
        let word = to_lowercase(trim(cfg.mode.as_str()));
        match parse_mode(word.as_str()) {
            None => Err(IpFilterError::Mode(word)),
            Some(white) => match list {
                Err(reason) => Err(
                    IpFilterError::List { path: cfg.iplist_path.clone(), reason },
                ),
                Ok(content) => Ok(Arc::new(IpFilter::from_list(white, content.as_str()))),
            },
        }
    }

    /// Tells whether `ip` may connect.
    pub fn is_allowed(&self, ip: &IpAddr) -> (r: bool)
        ensures
            r == self.allows(*ip),
    {
        if !self.enabled {
            return true;
        }
        let mut matched: bool = false;
        let mut i: usize = 0;
        while i < self.entries.len() && !matched
            invariant
                i <= self.entries.len(),
                matched ==> listed(self.entries@, *ip),
                !matched ==> forall|k: int|
                    0 <= k < i ==> !(#[trigger] self.entries@[k]).covers(*ip),
            decreases self.entries.len() - i,
        {
            if self.entries[i].matches(ip) {
                assert(self.entries@[i as int].covers(*ip));
                matched = true;
            }
            i = i + 1;
        }
        if self.whitelist {
            matched
        } else {
            !matched
        }
    }
}

impl Default for IpFilter {
    /// The filter that lets everyone in.
    fn default() -> (r: IpFilter)
        ensures
            !r.enabled,
            r.whitelist,
            r.entries@ == Seq::<IpEntry>::empty(),
    {
        IpFilter { enabled: false, whitelist: true, entries: Vec::new() }
    }
}

/// An IPv4 block with prefix length `len` covers exactly the IPv4 addresses whose
/// first `len` bits are those of the block's address.
pub proof fn v4_block_covers_shared_prefix(a: u32, len: nat, x: u32)
    requires
        len <= 32,
    ensures
        block_entry(IpAddr::V4(a), len).covers(IpAddr::V4(x)) <==> x as nat
            / pow2((32 - len) as nat) == a as nat
            / pow2((32 - len) as nat),
{
    let mask: u32 = v4_mask(len);
    assert((x as u128) & (mask as u128) == (x & mask) as u128) by (bit_vector);
    if len == 0 {
        assert(x & 0 == 0 && a & 0 == 0) by (bit_vector);
        lemma2_to64();
        lemma_basic_div(x as int, pow2(32) as int);
        lemma_basic_div(a as int, pow2(32) as int);
    } else {
        let n: u32 = (32 - len) as u32;
        assert((x & mask == a & mask) <==> (x >> n == a >> n)) by (bit_vector)
            requires
                n < 32,
                mask == 0xffff_ffffu32 << n,
        ;
        vstd::bits::lemma_u32_shr_is_div(x, n);
        vstd::bits::lemma_u32_shr_is_div(a, n);
    }
}

proof fn lemma_mask_is_shift(x: u128, n: u128)
    requires
        n < 128,
    ensures
        x & (0xffff_ffff_ffff_ffff_ffff_ffff_ffff_ffffu128 << n) == (x >> n) << n,
        ((x >> n) << n) >> n == x >> n,
{
    assert(x & (0xffff_ffff_ffff_ffff_ffff_ffff_ffff_ffffu128 << n) == (x >> n) << n)
        by (bit_vector)
        requires
            n < 128,
    ;
    assert(((x >> n) << n) >> n == x >> n) by (bit_vector)
        requires
            n < 128,
    ;
}

/// An IPv6 block with prefix length `len` covers exactly the IPv6 addresses whose
/// first `len` bits are those of the block's address.
pub proof fn v6_block_covers_shared_prefix(a: u128, len: nat, x: u128)
    requires
        len <= 128,
    ensures
        block_entry(IpAddr::V6(a), len).covers(IpAddr::V6(x)) <==> x as nat
            / pow2((128 - len) as nat) == a as nat
            / pow2((128 - len) as nat),
{
    if len == 0 {
        assert(x & 0 == 0 && a & 0 == 0) by (bit_vector);
        lemma2_to64();
        lemma2_to64_rest();
        lemma_pow2_adds(64, 64);
        assert(pow2(128) == 0x1_0000_0000_0000_0000 * 0x1_0000_0000_0000_0000);
        lemma_basic_div(x as int, pow2(128) as int);
        lemma_basic_div(a as int, pow2(128) as int);
    } else {
        let n: u128 = (128 - len) as u128;
        let mask: u128 = 0xffff_ffff_ffff_ffff_ffff_ffff_ffff_ffffu128 << n;
        lemma_mask_is_shift(x, n);
        lemma_mask_is_shift(a, n);
        vstd::bits::lemma_u128_shr_is_div(x, n);
        vstd::bits::lemma_u128_shr_is_div(a, n);
    }
}

/// A block covers no address of the other kind.
pub proof fn block_covers_its_own_kind(ip: IpAddr, len: nat, other: IpAddr)
    requires
        (ip is V4) != (other is V4),
    ensures
        !block_entry(ip, len).covers(other),
{
}

/// A disabled filter lets everyone in.
pub proof fn disabled_filter_allows_all(f: IpFilter, ip: IpAddr)
    requires
        !f.enabled,
    ensures
        f.allows(ip),
{
}

/// Of a whitelist and a blacklist with the same entries, in whatever order and however often,
/// exactly one lets an address in.
pub proof fn whitelist_and_blacklist_are_opposite(white: IpFilter, black: IpFilter, ip: IpAddr)
    requires
        white.enabled,
        black.enabled,
        white.whitelist,
        !black.whitelist,
        white.entries@.to_set() == black.entries@.to_set(),
    ensures
        white.allows(ip) <==> !black.allows(ip),
{
    lemma_listed_by_set(white.entries@, black.entries@, ip);
    lemma_listed_by_set(black.entries@, white.entries@, ip);
}

proof fn lemma_listed_by_set(a: Seq<IpEntry>, b: Seq<IpEntry>, ip: IpAddr)
    requires
        a.to_set() == b.to_set(),
    ensures
        listed(a, ip) ==> listed(b, ip),
{
    if listed(a, ip) {
        let i = choose|i: int| 0 <= i < a.len() && (#[trigger] a[i]).covers(ip);
        assert(a.to_set().contains(a[i]));
        assert(b.contains(a[i]));
        let j = choose|j: int| 0 <= j < b.len() && b[j] == a[i];
        assert(b[j].covers(ip));
    }
}

/// A blank line or a comment at the end of a list adds no entry and no complaint.
pub proof fn comments_change_nothing(lines: Seq<Seq<char>>, line: Seq<char>)
    requires
        !is_entry_line(line),
    ensures
        entries_of(lines.push(line)) == entries_of(lines),
        skipped_of(lines.push(line)) == skipped_of(lines),
{
    assert(lines.push(line).drop_last() =~= lines);
}

/// A line that is meant to be read is either an entry or a complaint, never both.
pub proof fn every_line_counts_once(lines: Seq<Seq<char>>, line: Seq<char>)
    requires
        is_entry_line(line),
    ensures
        entries_of(lines.push(line)).len() + skipped_of(lines.push(line)).len() == entries_of(
            lines,
        ).len() + skipped_of(lines).len() + 1,
{
    assert(lines.push(line).drop_last() =~= lines);
}

/// Whether a line is meant to be read and is an entry that covers `ip`.
pub open spec fn line_lists(line: Seq<char>, ip: IpAddr) -> bool {
    is_entry_line(line) && (entry_spec(line) matches Ok(e) && e.covers(ip))
}

proof fn lemma_listed_push(entries: Seq<IpEntry>, e: IpEntry, ip: IpAddr)
    ensures
        listed(entries.push(e), ip) <==> listed(entries, ip) || e.covers(ip),
{
    let all = entries.push(e);
    assert(all[entries.len() as int] == e);
    if listed(entries, ip) {
        let k = choose|k: int| 0 <= k < entries.len() && (#[trigger] entries[k]).covers(ip);
        assert(all[k] == entries[k]);
    }
    if listed(all, ip) && !e.covers(ip) {
        let k = choose|k: int| 0 <= k < all.len() && (#[trigger] all[k]).covers(ip);
        assert(all[k] == entries[k]);
    }
}

proof fn lemma_last_line(lines: Seq<Seq<char>>, ip: IpAddr)
    requires
        lines.len() > 0,
    ensures
        listed(entries_of(lines), ip) <==> listed(entries_of(lines.drop_last()), ip) || line_lists(
            lines.last(),
            ip,
        ),
{
    if let Ok(e) = entry_spec(lines.last()) {
        lemma_listed_push(entries_of(lines.drop_last()), e, ip);
    }
}

/// What holds of a list exactly if it holds of the list without its last line, or of that
/// line, holds exactly if it holds of some line.
proof fn lemma_some_line(
    lines: Seq<Seq<char>>,
    of_list: spec_fn(Seq<Seq<char>>) -> bool,
    of_line: spec_fn(Seq<char>) -> bool,
)
    requires
        forall|l: Seq<Seq<char>>|
            #[trigger] of_list(l) <==> l.len() > 0 && (of_list(l.drop_last()) || of_line(l.last())),
    ensures
        of_list(lines) <==> exists|i: int| 0 <= i < lines.len() && #[trigger] of_line(lines[i]),
    decreases lines.len(),
{
    if lines.len() > 0 {
        let init = lines.drop_last();
        lemma_some_line(init, of_list, of_line);
        assert(of_list(lines) <==> of_list(init) || of_line(lines[lines.len() - 1]));
        assert forall|i: int| 0 <= i < lines.len() && #[trigger] of_line(lines[i]) implies of_list(
            lines,
        ) by {
            if i < init.len() {
                assert(of_line(init[i]));
            }
        }
        if of_list(init) {
            let i = choose|i: int| 0 <= i < init.len() && #[trigger] of_line(init[i]);
            assert(of_line(lines[i]));
        }
    }
}

/// An address is listed exactly if some line that is meant to be read is an entry that
/// covers it.
#[verifier::spinoff_prover]
#[verifier::rlimit(40)]
pub proof fn lines_decide_who_is_listed(lines: Seq<Seq<char>>, ip: IpAddr)
    ensures
        listed(entries_of(lines), ip) <==> exists|i: int|
            0 <= i < lines.len() && #[trigger] line_lists(lines[i], ip),
{
    let of_list = |l: Seq<Seq<char>>| listed(entries_of(l), ip);
    let of_line = |l: Seq<char>| line_lists(l, ip);
    assert forall|l: Seq<Seq<char>>| #[trigger] of_list(l) <==> l.len() > 0 && (of_list(
        l.drop_last(),
    ) || of_line(l.last())) by {
        if l.len() > 0 {
            lemma_last_line(l, ip);
        }
    }
    lemma_some_line(lines, of_list, of_line);
    if listed(entries_of(lines), ip) {
        let i = choose|i: int| 0 <= i < lines.len() && #[trigger] of_line(lines[i]);
        assert(line_lists(lines[i], ip));
    }
    if exists|i: int| 0 <= i < lines.len() && #[trigger] line_lists(lines[i], ip) {
        let i = choose|i: int| 0 <= i < lines.len() && #[trigger] line_lists(lines[i], ip);
        assert(of_line(lines[i]));
    }
}

/// A filter that was loaded as a whitelist lets in exactly the addresses that some line of
/// its list covers, and one that was loaded as a blacklist exactly the others.
#[verifier::spinoff_prover]
#[verifier::rlimit(40)]
pub proof fn loaded_filter_goes_by_its_lines(
    cfg: IpFilterConfig,
    word: Seq<char>,
    content: String,
    f: Arc<IpFilter>,
    ip: IpAddr,
)
    requires
        is_loaded(cfg, word, Ok(content), Ok(f)),
    ensures
        mode_spec(word) is Some,
        f.allows(ip) <==> (mode_spec(word) == Some(true)) == exists|i: int|
            0 <= i < lines_of(content@).len() && #[trigger] line_lists(lines_of(content@)[i], ip),
{
    lines_decide_who_is_listed(lines_of(content@), ip);
}

/// Whether a line gives an entry.
pub open spec fn is_readable(line: Seq<char>) -> bool {
    is_entry_line(line) && entry_spec(line) is Ok
}

/// The lines that give an entry, in their order.
pub open spec fn readable_lines(lines: Seq<Seq<char>>) -> Seq<Seq<char>> {
    lines.filter(|line: Seq<char>| is_readable(line))
}

/// The entries that lines give which all give one.
pub open spec fn entries_in(lines: Seq<Seq<char>>) -> Seq<IpEntry> {
    lines.map_values(|line: Seq<char>| entry_spec(line)->Ok_0)
}

proof fn lemma_entries_of_readable(lines: Seq<Seq<char>>)
    ensures
        entries_of(lines) == entries_in(readable_lines(lines)),
    decreases lines.len(),
{
    let pred = |line: Seq<char>| is_readable(line);
    reveal(Seq::filter);
    if lines.len() > 0 {
        let init = lines.drop_last();
        let last = lines.last();
        lemma_entries_of_readable(init);
        if is_readable(last) {
            assert(pred(last));
            assert(readable_lines(lines) == readable_lines(init).push(last));
            assert(entries_in(readable_lines(init).push(last)) =~= entries_in(
                readable_lines(init),
            ).push(entry_spec(last)->Ok_0));
        } else {
            assert(!pred(last));
            assert(readable_lines(lines) == readable_lines(init));
        }
    } else {
        assert(readable_lines(lines) =~= Seq::<Seq<char>>::empty());
        assert(entries_in(readable_lines(lines)) =~= Seq::<IpEntry>::empty());
    }
}

/// Lines that give no entry do not matter, wherever they stand: two lists with the same
/// readable lines in the same order have the same entries.
pub proof fn only_readable_lines_matter(a: Seq<Seq<char>>, b: Seq<Seq<char>>)
    requires
        readable_lines(a) == readable_lines(b),
    ensures
        entries_of(a) == entries_of(b),
{
    lemma_entries_of_readable(a);
    lemma_entries_of_readable(b);
}

/// Two lists with the same readable lines in the same order are loaded to the same filter.
pub proof fn same_lines_load_alike(
    cfg: IpFilterConfig,
    word: Seq<char>,
    a: String,
    b: String,
    f: Arc<IpFilter>,
    g: Arc<IpFilter>,
)
    requires
        is_loaded(cfg, word, Ok(a), Ok(f)),
        is_loaded(cfg, word, Ok(b), Ok(g)),
        readable_lines(lines_of(a@)) == readable_lines(lines_of(b@)),
    ensures
        f.enabled == g.enabled,
        f.whitelist == g.whitelist,
        f.entries@ == g.entries@,
{
    only_readable_lines_matter(lines_of(a@), lines_of(b@));
}

/// An entry for a single address covers that address and no other.
pub proof fn single_entry_covers_itself_alone(a: IpAddr, ip: IpAddr)
    ensures
        IpEntry::Single(a).covers(ip) <==> a == ip,
{
}

/// An enabled whitelist lets in exactly the addresses that some entry covers, an enabled
/// blacklist exactly those that none does.
pub proof fn entries_decide(f: IpFilter, ip: IpAddr)
    requires
        f.enabled,
    ensures
        f.whitelist ==> (f.allows(ip) <==> exists|i: int|
            0 <= i < f.entries@.len() && (#[trigger] f.entries@[i]).covers(ip)),
        !f.whitelist ==> (f.allows(ip) <==> forall|i: int|
            0 <= i < f.entries@.len() ==> !(#[trigger] f.entries@[i]).covers(ip)),
{
}

/// The two modes are called `white` and `black`, and no other word is a mode.
pub proof fn mode_words_are_white_and_black(word: Seq<char>)
    ensures
        mode_spec(word) == Some(true) <==> word == "white"@,
        mode_spec(word) == Some(false) <==> word == "black"@,
{
    reveal_strlit("white");
    reveal_strlit("black");
    assert("white"@[0] == 'w');
    assert("black"@[0] == 'b');
}

/// A line without a slash is an entry exactly if it is an address, and the entry is that
/// address.
pub proof fn plain_lines_are_addresses(t: Seq<char>)
    requires
        !t.contains('/'),
    ensures
        trimmed_entry_spec(t) == match ip_spec(t) {
            Some(ip) => Ok::<IpEntry, EntryFault>(IpEntry::Single(ip)),
            None => Err::<IpEntry, EntryFault>(EntryFault::Address),
        },
{
    assert forall|k: int| 0 <= k < t.len() implies t[k] != '/' by {
        assert(t.contains(t[k]));
    }
    lemma_first_index_unique(t, '/', t.len() as int);
}

/// A line with a slash is an address and a prefix length; what is wrong with it is said of
/// the length first, then of the address, then of the two together.
pub proof fn slashed_lines_are_blocks(address: Seq<char>, length: Seq<char>)
    requires
        !address.contains('/'),
    ensures
        ({
            let line = trimmed_entry_spec(address + "/"@ + length);
            match (unsigned_spec(length), ip_spec(address)) {
                (None, _) => line == Err::<IpEntry, EntryFault>(EntryFault::PrefixLength),
                (Some(_), None) => line == Err::<IpEntry, EntryFault>(EntryFault::CidrAddress),
                (Some(len), Some(IpAddr::V4(a))) => line == if len <= 32 {
                    Ok::<IpEntry, EntryFault>(block_entry(IpAddr::V4(a), len))
                } else {
                    Err(EntryFault::V4PrefixTooLong)
                },
                (Some(len), Some(IpAddr::V6(a))) => line == if len <= 128 {
                    Ok::<IpEntry, EntryFault>(block_entry(IpAddr::V6(a), len))
                } else {
                    Err(EntryFault::V6PrefixTooLong)
                },
            }
        }),
{
    reveal_strlit("/");
    let t = address + "/"@ + length;
    assert forall|k: int| 0 <= k < address.len() implies t[k] != '/' by {
        assert(address.contains(address[k]));
    }
    lemma_first_index_unique(t, '/', address.len() as int);
    assert(t.take(address.len() as int) =~= address);
    assert(t.skip(address.len() as int + 1) =~= length);
}

/// White space around a line does not matter, and a line is passed over exactly if it is
/// blank or starts with `#` behind white space.
pub proof fn lines_are_trimmed(line: Seq<char>)
    ensures
        entry_spec(line) == trimmed_entry_spec(trim_spec(line)),
        entry_spec(trim_spec(line)) == entry_spec(line),
        is_entry_line(line) <==> exists|k: int|
            0 <= k < line.len() && !is_white_space(#[trigger] line[k]) && line[k] != '#' && forall|
                j: int,
            |
                0 <= j < k ==> is_white_space(#[trigger] line[j]),
{
    trim_is_idempotent(line);
    trim_keeps_the_middle(line);
    let (a, b) = choose|a: int, b: int| #[trigger]
        is_core(line, a, b) && trim_spec(line) == line.subrange(a, b);
    if a < b {
        assert(trim_spec(line)[0] == line[a]);
        if exists|k: int|
            0 <= k < line.len() && !is_white_space(#[trigger] line[k]) && line[k] != '#' && forall|
                j: int,
            |
                0 <= j < k ==> is_white_space(#[trigger] line[j]) {
            let k = choose|k: int|
                0 <= k < line.len() && !is_white_space(#[trigger] line[k]) && line[k] != '#'
                    && forall|j: int| 0 <= j < k ==> is_white_space(#[trigger] line[j]);
            assert(k == a) by {
                if k < a {
                    assert(is_white_space(line[k]));
                } else if a < k {
                    assert(is_white_space(line[a]));
                }
            }
        }
    } else {
        assert forall|k: int| 0 <= k < line.len() implies is_white_space(#[trigger] line[k]) by {}
    }
}

/// The lines of a list are what stands between its line breaks.
pub proof fn lines_are_between_breaks(content: Seq<char>)
    ensures
        joined(lines_of(content), '\n') == content,
        forall|i: int|
            0 <= i < lines_of(content).len() ==> !(#[trigger] lines_of(content)[i]).contains('\n'),
{
    splitting_undoes_joining(content, '\n');
}

/// A complaint is made of exactly the lines that are meant to be read and cannot be, with the
/// line's number counted from 1, its text without surrounding white space and its fault.
pub proof fn complaints_name_their_lines(lines: Seq<Seq<char>>, k: int)
    ensures
        0 <= k < skipped_of(lines).len() ==> ({
            let (number, text, fault) = skipped_of(lines)[k];
            &&& 1 <= number <= lines.len()
            &&& is_entry_line(lines[number - 1])
            &&& text == trim_spec(lines[number - 1])
            &&& entry_spec(lines[number - 1]) == Err::<IpEntry, EntryFault>(fault)
        }),
    decreases lines.len(),
{
    if lines.len() > 0 {
        complaints_name_their_lines(lines.drop_last(), k);
        if 0 <= k < skipped_of(lines.drop_last()).len() {
            let number = skipped_of(lines.drop_last())[k].0;
            assert(skipped_of(lines)[k] == skipped_of(lines.drop_last())[k]);
            assert(lines.drop_last()[number - 1] == lines[number - 1]);
        }
    }
}

/// What a line adds to a list: its entry if it is one, else a complaint with its number, and
/// nothing if it is not meant to be read.
pub proof fn each_line_adds_its_own(lines: Seq<Seq<char>>, line: Seq<char>)
    ensures
        !is_entry_line(line) ==> entries_of(lines.push(line)) == entries_of(lines) && skipped_of(
            lines.push(line),
        ) == skipped_of(lines),
        is_entry_line(line) ==> match entry_spec(line) {
            Ok(e) => entries_of(lines.push(line)) == entries_of(lines).push(e) && skipped_of(
                lines.push(line),
            ) == skipped_of(lines),
            Err(fault) => entries_of(lines.push(line)) == entries_of(lines) && skipped_of(
                lines.push(line),
            ) == skipped_of(lines).push((lines.len() + 1, trim_spec(line), fault)),
        },
{
    assert(lines.push(line).drop_last() =~= lines);
}

/// What loading an enabled filter comes to: a wrong mode is refused first, then a list that
/// could not be read, and else the filter is enabled, in its mode, with the entries of its
/// list.
pub proof fn loading_goes_by_mode_and_list(
    cfg: IpFilterConfig,
    word: Seq<char>,
    why: String,
    content: String,
    r: Result<Arc<IpFilter>, IpFilterError>,
)
    ensures
        word != "white"@ && word != "black"@ && is_loaded(cfg, word, Ok(content), r) ==> (
        r matches Err(IpFilterError::Mode(got)) && got@ == word),
        word != "white"@ && word != "black"@ && is_loaded(cfg, word, Err(why), r) ==> (
        r matches Err(IpFilterError::Mode(got)) && got@ == word),
        (word == "white"@ || word == "black"@) && is_loaded(cfg, word, Err(why), r) ==> (
        r matches Err(IpFilterError::List { path, reason }) && path@ == cfg.iplist_path@ && reason@
            == why@),
        (word == "white"@ || word == "black"@) && is_loaded(cfg, word, Ok(content), r) ==> (
        r matches Ok(f) && f.enabled && f.whitelist == (word == "white"@) && f.entries@
            == entries_of(lines_of(content@))),
{
    mode_words_are_white_and_black(word);
}

/// The mode word of a mode is its lower-case form without surrounding white space.
pub proof fn mode_words_are_trimmed_and_lowered(mode: Seq<char>)
    ensures
        mode_word(mode) == lowercase(trim_spec(mode)),
        mode_word(trim_spec(mode)) == mode_word(mode),
{
    trim_is_idempotent(mode);
}

/// What is said of a fault, and what is told of a line that was left out.
pub proof fn faults_are_named(line: SkippedLine)
    ensures
        EntryFault::PrefixLength.lead() == "invalid prefix length in '"@,
        EntryFault::CidrAddress.lead() == "invalid IP in CIDR '"@,
        EntryFault::V4PrefixTooLong.lead() == "IPv4 prefix length > 32 in '"@,
        EntryFault::V6PrefixTooLong.lead() == "IPv6 prefix length > 128 in '"@,
        EntryFault::Address.lead() == "invalid IP address '"@,
        line.summary() == (line.number as nat, line.error.text@, line.error.fault),
{
}

} // verus!
