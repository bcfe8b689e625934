//! Addresses and networks of both IP families, in canonical form.
//!
//! An address is its bits as an unsigned integer, most significant octet first.
//! A network is an address and a prefix length; in canonical form every bit
//! behind the prefix is zero, so that two spellings of one network are equal.

use std::str::FromStr;
use vstd::prelude::*;

verus! {

/// One address: 32 bits of IPv4 or 128 bits of IPv6.
#[derive(Clone, Copy, Debug, PartialEq, Eq, Hash, Structural)]
pub enum IpAddress {
    V4(u32),
    V6(u128),
}

/// An address and the number of leading bits that name the network.
#[derive(Clone, Copy, Debug, PartialEq, Eq, Hash, Structural)]
pub struct IpNetwork {
    pub addr: IpAddress,
    pub prefix_len: u8,
}

/// An entry of a list: one address or one network.
#[derive(Clone, Copy, Debug, PartialEq, Eq, Hash, Structural)]
pub enum IP {
    Single(IpAddress),
    Network(IpNetwork),
}

/// The bits of an IPv4 address that lie behind a prefix of the given length.
pub open spec fn host_mask_v4(prefix_len: u8) -> u32 {
    if prefix_len >= 32 {
        0u32
    } else {
        0xffff_ffffu32 >> (prefix_len as u32)
    }
}

/// The bits of an IPv6 address that lie behind a prefix of the given length.
pub open spec fn host_mask_v6(prefix_len: u8) -> u128 {
    if prefix_len >= 128 {
        0u128
    } else {
        0xffff_ffff_ffff_ffff_ffff_ffff_ffff_ffffu128 >> (prefix_len as u128)
    }
}

fn compute_host_mask_v4(prefix_len: u8) -> (mask: u32)
    ensures
        mask == host_mask_v4(prefix_len),
{
    if prefix_len >= 32 {
        0
    } else {
        0xffff_ffffu32 >> (prefix_len as u32)
    }
}

fn compute_host_mask_v6(prefix_len: u8) -> (mask: u128)
    ensures
        mask == host_mask_v6(prefix_len),
{
    if prefix_len >= 128 {
        0
    } else {
        0xffff_ffff_ffff_ffff_ffff_ffff_ffff_ffffu128 >> (prefix_len as u128)
    }
}

impl IpAddress {
    /// Both addresses belong to one family.
    pub open spec fn same_family(self, other: IpAddress) -> bool {
        (self is V4) == (other is V4)
    }

    /// The longest prefix that the address's family allows.
    pub open spec fn max_prefix_len(self) -> u8 {
        match self {
            IpAddress::V4(_) => 32u8,
            IpAddress::V6(_) => 128u8,
        }
    }

    /// The address as a number; addresses of one family are ordered by it.
    pub open spec fn bits(self) -> nat {
        match self {
            IpAddress::V4(bits) => bits as nat,
            IpAddress::V6(bits) => bits as nat,
        }
    }

    /// The address with every bit behind the prefix cleared.
    pub open spec fn lowest(self, prefix_len: u8) -> IpAddress {
        match self {
            IpAddress::V4(bits) => IpAddress::V4(bits & !host_mask_v4(prefix_len)),
            IpAddress::V6(bits) => IpAddress::V6(bits & !host_mask_v6(prefix_len)),
        }
    }

    /// The address with every bit behind the prefix set.
    pub open spec fn highest(self, prefix_len: u8) -> IpAddress {
        match self {
            IpAddress::V4(bits) => IpAddress::V4(bits | host_mask_v4(prefix_len)),
            IpAddress::V6(bits) => IpAddress::V6(bits | host_mask_v6(prefix_len)),
        }
    }
}

impl IpNetwork {
    /// The prefix is no longer than the family allows and no bit behind it is set.
    pub open spec fn wf(self) -> bool {
        &&& self.prefix_len <= self.addr.max_prefix_len()
        &&& self.addr.lowest(self.prefix_len) == self.addr
    }

    /// The first address of the network.
    pub open spec fn first(self) -> IpAddress {
        self.addr.lowest(self.prefix_len)
    }

    /// The last address of the network.
    pub open spec fn last(self) -> IpAddress {
        self.addr.highest(self.prefix_len)
    }

    /// The canonical network of an address and a prefix length, where the family allows the length.
    pub open spec fn canonical(addr: IpAddress, prefix_len: u8) -> Option<IpNetwork> {
        if prefix_len <= addr.max_prefix_len() {
            Some(IpNetwork { addr: addr.lowest(prefix_len), prefix_len })
        } else {
            None
        }
    }

    /// The address lies in the network: same family, and between its first and last address.
    pub open spec fn holds_addr(self, addr: IpAddress) -> bool {
        &&& self.addr.same_family(addr)
        &&& self.first().bits() <= addr.bits() <= self.last().bits()
    }

    /// The other network lies in this one: same family, and its whole range within this range.
    pub open spec fn holds_net(self, other: IpNetwork) -> bool {
        &&& self.addr.same_family(other.addr)
        &&& self.first().bits() <= other.first().bits()
        &&& other.last().bits() <= self.last().bits()
    }

    /// Builds the canonical network: bits behind the prefix are cleared.
    /// `None` where the prefix is longer than the family allows.
    pub fn new(addr: IpAddress, prefix_len: u8) -> (r: Option<IpNetwork>)
        ensures
            r == Self::canonical(addr, prefix_len),
            r matches Some(net) ==> net.wf(),
    {
        match addr {
            IpAddress::V4(bits) => {
                if prefix_len > 32 {
                    return None;
                }
                let mask = compute_host_mask_v4(prefix_len);
                let low = bits & !mask;
                assert((bits & !mask) & !mask == bits & !mask) by (bit_vector);
                Some(IpNetwork { addr: IpAddress::V4(low), prefix_len })
            },
            IpAddress::V6(bits) => {
                if prefix_len > 128 {
                    return None;
                }
                let mask = compute_host_mask_v6(prefix_len);
                let low = bits & !mask;
                assert((bits & !mask) & !mask == bits & !mask) by (bit_vector);
                Some(IpNetwork { addr: IpAddress::V6(low), prefix_len })
            },
        }
    }

    /// Whether the address lies in the network. Never true across families.
    pub fn contains_addr(&self, addr: &IpAddress) -> (r: bool)
        ensures
            r == self.holds_addr(*addr),
    {
        match (self.addr, *addr) {
            (IpAddress::V4(net), IpAddress::V4(bits)) => {
                let mask = compute_host_mask_v4(self.prefix_len);
                (net & !mask) <= bits && bits <= (net | mask)
            },
            (IpAddress::V6(net), IpAddress::V6(bits)) => {
                let mask = compute_host_mask_v6(self.prefix_len);
                (net & !mask) <= bits && bits <= (net | mask)
            },
            _ => false,
        }
    }

    /// Whether the other network lies wholly in this one. Never true across families.
    pub fn contains_net(&self, other: &IpNetwork) -> (r: bool)
        ensures
            r == self.holds_net(*other),
    {
        match (self.addr, other.addr) {
            (IpAddress::V4(net), IpAddress::V4(inner)) => {
                let mask = compute_host_mask_v4(self.prefix_len);
                let inner_mask = compute_host_mask_v4(other.prefix_len);
                (net & !mask) <= (inner & !inner_mask) && (inner | inner_mask) <= (net | mask)
            },
            (IpAddress::V6(net), IpAddress::V6(inner)) => {
                let mask = compute_host_mask_v6(self.prefix_len);
                let inner_mask = compute_host_mask_v6(other.prefix_len);
                (net & !mask) <= (inner & !inner_mask) && (inner | inner_mask) <= (net | mask)
            },
            _ => false,
        }
    }
}

/// What a text in CIDR notation denotes, as the `ipnet` crate reads it: the
/// address as written, host bits included, and the prefix length. `None` for
/// a text that is no network.
pub uninterp spec fn network_of_text(text: Seq<char>) -> Option<(IpAddress, u8)>;

/// Calls `ipnet`'s `FromStr` for `IpNet` and takes the parsed value apart.
/// Believed of it: the result depends on the text alone, and the prefix
/// length that it reads is never longer than the family of the address
/// allows. The address is handed on as the integer that `u32::from` or
/// `u128::from` gives for it.
#[verifier::external_body]
fn read_network_text(text: &Vec<char>) -> (r: Option<(IpAddress, u8)>)
    ensures
        r == network_of_text(text@),
        r matches Some((addr, prefix_len)) ==> prefix_len <= addr.max_prefix_len(),
{
    let text: String = text.iter().collect();
    match text.parse::<ipnet::IpNet>() {
        Ok(ipnet::IpNet::V4(net)) => Some((IpAddress::V4(u32::from(net.addr())), net.prefix_len())),
        Ok(ipnet::IpNet::V6(net)) => Some((IpAddress::V6(u128::from(net.addr())), net.prefix_len())),
        Err(_) => None,
    }
}

/// What follows the last occurrence of `mark` in the text; all of the text
/// where `mark` does not occur.
pub open spec fn after_last(text: Seq<char>, mark: char) -> Seq<char>
    decreases text.len(),
{
    if text.len() == 0 || text.last() == mark {
        Seq::empty()
    } else {
        after_last(text.drop_last(), mark).push(text.last())
    }
}

/// The character is one of `0` to `9`.
pub open spec fn is_decimal_digit(c: char) -> bool {
    '0' <= c <= '9'
}

/// A number of the dotted text starts at `index` with a `0` that another digit follows.
pub open spec fn is_padded_at(dotted: Seq<char>, index: int) -> bool {
    &&& 0 <= index
    &&& index + 1 < dotted.len()
    &&& dotted[index] == '0'
    &&& is_decimal_digit(dotted[index + 1])
    &&& (index == 0 || dotted[index - 1] == '.')
}

/// The dotted decimal part of the text, which is what follows its last
/// colon, holds a number written with a leading zero. Such numbers are not
/// taken as decimal, since other tools read them as octal.
pub open spec fn has_padded_octet(text: Seq<char>) -> bool {
    let dotted = after_last(text, ':');
    &&& dotted.contains('.')
    &&& exists|index: int| is_padded_at(dotted, index)
}

/// What a text without a prefix denotes. An address is written as the part
/// of a network before the slash, without a leading zero on any number of
/// its dotted decimal part: the text is an address exactly when it has no
/// such zero and, followed by `/0`, is a network.
///
/// The grammar of addresses is therefore the one of the `ipnet` crate but
/// for those zeros. In particular `::` may stand for no group at all, as in
/// `1:2:3:4::5:6:7:8`, which some other readers of addresses refuse.
pub open spec fn address_of_text(text: Seq<char>) -> Option<IpAddress> {
    if has_padded_octet(text) {
        None
    } else {
        match network_of_text(text + seq!['/', '0']) {
            Some((addr, _)) => Some(addr),
            None => None,
        }
    }
}

/// What follows the last `mark` starts where no `mark` follows and one
/// stands directly before, or at the start of the text.
pub proof fn lemma_after_last_is_suffix(text: Seq<char>, mark: char, start: int)
    requires
        0 <= start <= text.len(),
        start == 0 || text[start - 1] == mark,
        forall|j: int| start <= j < text.len() ==> text[j] != mark,
    ensures
        after_last(text, mark) == text.skip(start),
    decreases text.len(),
{
    if text.len() == start {
        assert(text.skip(start) =~= Seq::<char>::empty());
    } else {
        assert(text.last() != mark);
        let rest = text.drop_last();
        assert forall|j: int| start <= j < rest.len() implies rest[j] != mark by {
            assert(rest[j] == text[j]);
        }
        lemma_after_last_is_suffix(rest, mark, start);
        assert(rest.skip(start).push(text.last()) =~= text.skip(start));
    }
}

/// Whether the dotted decimal part of the text holds a number written with a leading zero.
pub fn finds_padded_octet(text: &Vec<char>) -> (r: bool)
    ensures
        r == has_padded_octet(text@),
{
    let len = text.len();
    let mut start: usize = len;
    while start > 0 && text[start - 1] != ':'
        invariant
            start <= len,
            len == text@.len(),
            forall|j: int| start <= j < len ==> text@[j] != ':',
        decreases start,
    {
        start -= 1;
    }
    let ghost dotted = text@.skip(start as int);
    proof {
        lemma_after_last_is_suffix(text@, ':', start as int);
    }
    let mut has_dot = false;
    let mut padded = false;
    let mut i: usize = start;
    while i < len
        invariant
            start <= i <= len,
            len == text@.len(),
            dotted == text@.skip(start as int),
            has_dot == exists|k: int| 0 <= k < i - start && dotted[k] == '.',
            padded == exists|k: int| 0 <= k < i - start && is_padded_at(dotted, k),
        decreases len - i,
    {
        let ghost here = i - start;
        let c = text[i];
        assert(dotted[here] == c);
        let is_dot = c == '.';
        let starts_padded = c == '0' && i + 1 < len && '0' <= text[i + 1] && text[i + 1] <= '9' && (
        i == start || text[i - 1] == '.');
        proof {
            if i + 1 < len {
                assert(dotted[here + 1] == text@[i + 1]);
            }
            if i > start {
                assert(dotted[here - 1] == text@[i - 1]);
            }
            assert(starts_padded == is_padded_at(dotted, here));
        }
        if is_dot {
            has_dot = true;
        }
        if starts_padded {
            padded = true;
        }
        i += 1;
    }
    proof {
        if has_dot {
            let k = choose|k: int| 0 <= k < dotted.len() && dotted[k] == '.';
            assert(dotted.contains('.'));
        }
        if dotted.contains('.') {
            let k = choose|k: int| 0 <= k < dotted.len() && dotted[k] == '.';
            assert(has_dot);
        }
        if exists|index: int| is_padded_at(dotted, index) {
            let k = choose|index: int| is_padded_at(dotted, index);
            assert(0 <= k < len - start && is_padded_at(dotted, k));
        }
    }
    has_dot && padded
}

/// The characters of a text, in their order.
pub fn chars_of(text: &str) -> (r: Vec<char>)
    ensures
        r@ == text@,
{
    let mut chars: Vec<char> = Vec::new();
    for c in it: text.chars()
        invariant
            it.seq() == text@,
            chars@ == text@.take(it.index() as int),
    {
        chars.push(c);
        proof {
            assert(text@.take(it.index() + 1) =~= text@.take(it.index() as int).push(c));
        }
    }
    proof {
        assert(text@.take(text@.len() as int) =~= text@);
    }
    chars
}

impl IP {
    /// A network entry is canonical; an address entry always is.
    pub open spec fn wf(self) -> bool {
        self matches IP::Network(net) ==> net.wf()
    }

    /// The address of an address entry, or the one a network entry is written with.
    pub open spec fn address(self) -> IpAddress {
        match self {
            IP::Single(addr) => addr,
            IP::Network(net) => net.addr,
        }
    }

    /// The entry lies in the network: an address by membership, a network by its whole range.
    pub open spec fn within(self, net: IpNetwork) -> bool {
        match self {
            IP::Single(addr) => net.holds_addr(addr),
            IP::Network(inner) => net.holds_net(inner),
        }
    }

    /// The entry that a text denotes: an address where it is one, else the
    /// canonical form of the network that it is, else nothing.
    pub open spec fn of_text(text: Seq<char>) -> Option<IP> {
        match address_of_text(text) {
            Some(addr) => Some(IP::Single(addr)),
            None => match network_of_text(text) {
                Some((addr, prefix_len)) => match IpNetwork::canonical(addr, prefix_len) {
                    Some(net) => Some(IP::Network(net)),
                    None => None,
                },
                None => None,
            },
        }
    }

    /// Reads one entry from its characters. The text is tried as a bare
    /// address first, then as a network; every text that is one of the two
    /// gives an entry.
    pub fn parse_chars(text: &Vec<char>) -> (r: Option<IP>)
        ensures
            r == Self::of_text(text@),
            r is Some <==> address_of_text(text@) is Some || network_of_text(text@) is Some,
            r matches Some(ip) ==> ip.wf(),
    {
        if !finds_padded_octet(text) {
            let mut suffixed = text.clone();
            suffixed.push('/');
            suffixed.push('0');
            proof {
                assert(suffixed@ =~= text@ + seq!['/', '0']);
            }
            if let Some((addr, _)) = read_network_text(&suffixed) {
                return Some(IP::Single(addr));
            }
        }
        match read_network_text(text) {
            Some((addr, prefix_len)) => match IpNetwork::new(addr, prefix_len) {
                Some(net) => Some(IP::Network(net)),
                None => None,
            },
            None => None,
        }
    }

    /// Reads one entry, as [`IP::parse_chars`] does.
    pub fn parse(text: &str) -> (r: Option<IP>)
        ensures
            r == Self::of_text(text@),
            r is Some <==> address_of_text(text@) is Some || network_of_text(text@) is Some,
            r matches Some(ip) ==> ip.wf(),
    {
        let chars = chars_of(text);
        IP::parse_chars(&chars)
    }

    /// The network of a network entry.
    pub fn as_network(&self) -> (r: Option<&IpNetwork>)
        ensures
            match *self {
                IP::Single(_) => r is None,
                IP::Network(net) => r == Some(&net),
            },
    {
        match self {
            IP::Single(_) => None,
            IP::Network(net) => Some(net),
        }
    }

    /// Whether the entry lies in the network.
    pub fn is_within(&self, net: &IpNetwork) -> (r: bool)
        ensures
            r == self.within(*net),
    {
        match self {
            IP::Single(addr) => net.contains_addr(addr),
            IP::Network(inner) => net.contains_net(inner),
        }
    }
}

/// The two networks hold exactly the same addresses.
pub open spec fn same_addresses(a: IpNetwork, b: IpNetwork) -> bool {
    forall|addr: IpAddress| #[trigger] a.holds_addr(addr) <==> b.holds_addr(addr)
}

/// A text in CIDR notation: it is a network, its prefix is one that the
/// family allows, and it is not a bare address. No text is ever read with a
/// longer prefix; a law about texts at large still has to ask for it.
pub open spec fn is_cidr_text(text: Seq<char>) -> bool {
    &&& address_of_text(text) is None
    &&& network_of_text(text) matches Some((addr, prefix_len))
    &&& prefix_len <= addr.max_prefix_len()
}

/// The network that a text in CIDR notation spells, host bits as written.
pub open spec fn written_network(text: Seq<char>) -> IpNetwork {
    let (addr, prefix_len) = network_of_text(text).unwrap();
    IpNetwork { addr, prefix_len }
}

proof fn lemma_range_v4(bits: u32, mask: u32)
    ensures
        bits & !mask <= bits <= bits | mask,
        (bits | mask) - (bits & !mask) == mask,
{
    assert(bits & !mask <= bits) by (bit_vector);
    assert(bits <= bits | mask) by (bit_vector);
    assert((bits | mask) - (bits & !mask) == mask) by (bit_vector);
}

proof fn lemma_range_v6(bits: u128, mask: u128)
    ensures
        bits & !mask <= bits <= bits | mask,
        (bits | mask) - (bits & !mask) == mask,
{
    assert(bits & !mask <= bits) by (bit_vector);
    assert(bits <= bits | mask) by (bit_vector);
    assert((bits | mask) - (bits & !mask) == mask) by (bit_vector);
}

proof fn lemma_prefix_match_v6(net: u128, bits: u128, prefix_len: u8)
    requires
        prefix_len <= 128,
    ensures
        ((net & !host_mask_v6(prefix_len)) <= bits && bits <= (net | host_mask_v6(prefix_len)))
            <==> (bits & !host_mask_v6(prefix_len)) == (net & !host_mask_v6(prefix_len)),
{
    let mask = host_mask_v6(prefix_len);
    assert((bits & !mask) == (net & !mask) ==> ((net & !mask) <= bits && bits <= (net | mask)))
        by (bit_vector);
    assert(prefix_len <= 128 && mask == host_mask_v6(prefix_len) ==> (((net & !mask) <= bits && bits
        <= (net | mask)) ==> (bits & !mask) == (net & !mask))) by (bit_vector);
}

proof fn lemma_host_mask_v4_injective(p: u8, q: u8)
    requires
        p <= 32,
        q <= 32,
        host_mask_v4(p) == host_mask_v4(q),
    ensures
        p == q,
{
    assert(p <= 32 && q <= 32 && host_mask_v4(p) == host_mask_v4(q) ==> p == q) by (bit_vector);
}

proof fn lemma_host_mask_v6_injective(p: u8, q: u8)
    requires
        p <= 128,
        q <= 128,
        host_mask_v6(p) == host_mask_v6(q),
    ensures
        p == q,
{
    assert(p <= 128 && q <= 128 && host_mask_v6(p) == host_mask_v6(q) ==> p == q) by (bit_vector);
}

/// A network holds its own first and last address, and the first is not above the last.
pub proof fn lemma_network_holds_its_bounds(net: IpNetwork)
    ensures
        net.holds_addr(net.first()),
        net.holds_addr(net.last()),
        net.holds_addr(net.addr),
        net.first().bits() <= net.last().bits(),
{
    match net.addr {
        IpAddress::V4(bits) => lemma_range_v4(bits, host_mask_v4(net.prefix_len)),
        IpAddress::V6(bits) => lemma_range_v6(bits, host_mask_v6(net.prefix_len)),
    }
}

/// A network holds no address and no network of the other family.
pub proof fn lemma_families_never_mix(net: IpNetwork, ip: IP)
    requires
        !net.addr.same_family(ip.address()),
    ensures
        !ip.within(net),
{
}

proof fn lemma_prefix_match_v4(net: u32, bits: u32, prefix_len: u8)
    requires
        prefix_len <= 32,
    ensures
        ((net & !host_mask_v4(prefix_len)) <= bits && bits <= (net | host_mask_v4(prefix_len)))
            <==> (bits & !host_mask_v4(prefix_len)) == (net & !host_mask_v4(prefix_len)),
{
    let mask = host_mask_v4(prefix_len);
    assert((bits & !mask) == (net & !mask) ==> ((net & !mask) <= bits && bits <= (net | mask)))
        by (bit_vector);
    assert(prefix_len <= 32 && mask == host_mask_v4(prefix_len) ==> (((net & !mask) <= bits && bits
        <= (net | mask)) ==> (bits & !mask) == (net & !mask))) by (bit_vector);
}

/// An address lies in a network exactly when it agrees with the network in
/// every bit of the prefix: cleared behind the prefix, it is the network's
/// first address.
pub proof fn lemma_held_means_same_prefix(net: IpNetwork, addr: IpAddress)
    requires
        net.prefix_len <= net.addr.max_prefix_len(),
    ensures
        net.holds_addr(addr) <==> addr.lowest(net.prefix_len) == net.first(),
{
    match (net.addr, addr) {
        (IpAddress::V4(x), IpAddress::V4(y)) => {
            lemma_prefix_match_v4(x, y, net.prefix_len);
        },
        (IpAddress::V6(x), IpAddress::V6(y)) => {
            lemma_prefix_match_v6(x, y, net.prefix_len);
        },
        _ => {},
    }
}

/// One network lies in another exactly when every address of the one is an
/// address of the other.
pub proof fn lemma_held_network_is_subset(outer: IpNetwork, inner: IpNetwork)
    ensures
        outer.holds_net(inner) <==> forall|addr: IpAddress| #[trigger]
            inner.holds_addr(addr) ==> outer.holds_addr(addr),
{
    lemma_network_holds_its_bounds(inner);
    if forall|addr: IpAddress| #[trigger] inner.holds_addr(addr) ==> outer.holds_addr(addr) {
        assert(outer.holds_addr(inner.first()));
        assert(outer.holds_addr(inner.last()));
    }
}

/// Making a canonical network canonical again changes nothing.
pub proof fn lemma_canonical_is_idempotent(addr: IpAddress, prefix_len: u8)
    requires
        prefix_len <= addr.max_prefix_len(),
    ensures
        IpNetwork::canonical(addr, prefix_len).unwrap().wf(),
        IpNetwork::canonical(addr.lowest(prefix_len), prefix_len) == IpNetwork::canonical(
            addr,
            prefix_len,
        ),
{
    match addr {
        IpAddress::V4(bits) => {
            let mask = host_mask_v4(prefix_len);
            assert((bits & !mask) & !mask == bits & !mask) by (bit_vector);
        },
        IpAddress::V6(bits) => {
            let mask = host_mask_v6(prefix_len);
            assert((bits & !mask) & !mask == bits & !mask) by (bit_vector);
        },
    }
}

/// Two spellings of one network have one canonical form: where two networks
/// with valid prefixes hold the same addresses, whatever host bits they were
/// written with, their canonical networks are equal.
pub proof fn lemma_same_addresses_same_canonical(a: IpNetwork, b: IpNetwork)
    requires
        a.prefix_len <= a.addr.max_prefix_len(),
        b.prefix_len <= b.addr.max_prefix_len(),
        same_addresses(a, b),
    ensures
        IpNetwork::canonical(a.addr, a.prefix_len) == IpNetwork::canonical(b.addr, b.prefix_len),
{
    lemma_network_holds_its_bounds(a);
    lemma_network_holds_its_bounds(b);
    assert(b.holds_addr(a.first()));
    assert(b.holds_addr(a.last()));
    assert(a.holds_addr(b.first()));
    assert(a.holds_addr(b.last()));
    match (a.addr, b.addr) {
        (IpAddress::V4(x), IpAddress::V4(y)) => {
            lemma_range_v4(x, host_mask_v4(a.prefix_len));
            lemma_range_v4(y, host_mask_v4(b.prefix_len));
            lemma_host_mask_v4_injective(a.prefix_len, b.prefix_len);
        },
        (IpAddress::V6(x), IpAddress::V6(y)) => {
            lemma_range_v6(x, host_mask_v6(a.prefix_len));
            lemma_range_v6(y, host_mask_v6(b.prefix_len));
            lemma_host_mask_v6_injective(a.prefix_len, b.prefix_len);
        },
        _ => {},
    }
}

/// Two texts in CIDR notation that spell networks holding the same
/// addresses are read as equal entries.
pub proof fn lemma_same_network_texts_read_equal(first: Seq<char>, second: Seq<char>)
    requires
        is_cidr_text(first),
        is_cidr_text(second),
        same_addresses(written_network(first), written_network(second)),
    ensures
        IP::of_text(first) is Some,
        IP::of_text(first) == IP::of_text(second),
{
    lemma_same_addresses_same_canonical(written_network(first), written_network(second));
}

impl FromStr for IP {
    type Err = ();

    fn from_str(address: &str) -> (r: Result<Self, Self::Err>)
        ensures
            r == match IP::of_text(address@) {
                Some(ip) => Ok::<IP, ()>(ip),
                None => Err::<IP, ()>(()),
            },
            r is Ok <==> address_of_text(address@) is Some || network_of_text(address@) is Some,
    {
        match IP::parse(address) {
            Some(ip) => Ok(ip),
            None => Err(()),
        }
    }
}

} // verus!
