//! The AMS NetID and the AMS address, their text form and its parsing.
use crate::strs::{split, split_chars, string_push};
use vstd::prelude::*;

verus! {

// ----- Decimal numbers as text. -----
/// Why a decimal number failed to parse (as `std::num::IntErrorKind` names it).
#[derive(Debug, Clone, Copy, PartialEq, Eq)]
pub enum IntErrorKind {
    /// The text is empty.
    Empty,
    /// A character is not a digit (or a sign stands alone).
    InvalidDigit,
    /// The number is too large for the type.
    PosOverflow,
}

pub open spec fn is_digit(c: char) -> bool {
    '0' <= c <= '9'
}

pub open spec fn digit_value(c: char) -> int {
    c as int - '0' as int
}

pub open spec fn digit_char(d: int) -> char {
    (d + '0' as int) as char
}

/// The value of a run of decimal digits read left to right, or the first
/// problem met: a non-digit, or the value passing `max`.
pub open spec fn digits_value(d: Seq<char>, max: int) -> Result<int, IntErrorKind>
    decreases d.len(),
{
    if d.len() == 0 {
        Ok(0)
    } else {
        match digits_value(d.drop_last(), max) {
            Err(e) => Err(e),
            Ok(v) => if !is_digit(d.last()) {
                Err(IntErrorKind::InvalidDigit)
            } else if 10 * v + digit_value(d.last()) > max {
                Err(IntErrorKind::PosOverflow)
            } else {
                Ok(10 * v + digit_value(d.last()))
            },
        }
    }
}

/// How `str::parse` reads an unsigned number no larger than `max`: an
/// optional leading `+`, then decimal digits.
pub open spec fn parse_unsigned(s: Seq<char>, max: int) -> Result<int, IntErrorKind> {
    if s.len() == 0 {
        Err(IntErrorKind::Empty)
    } else if (s[0] == '+' || s[0] == '-') && s.len() == 1 {
        Err(IntErrorKind::InvalidDigit)
    } else if s[0] == '+' {
        digits_value(s.drop_first(), max)
    } else {
        digits_value(s, max)
    }
}

proof fn lemma_digits_value_bounds(d: Seq<char>, max: int)
    requires
        max >= 0,
    ensures
        digits_value(d, max) matches Ok(v) ==> 0 <= v <= max,
    decreases d.len(),
{
    if d.len() > 0 {
        lemma_digits_value_bounds(d.drop_last(), max);
    }
}

/// Parses an unsigned decimal number no larger than `max`.
fn parse_unsigned_exec(s: &[char], max: u32) -> (r: Result<u32, IntErrorKind>)
    ensures
        match (r, parse_unsigned(s@, max as int)) {
            (Ok(v), Ok(w)) => v == w,
            (Err(e), Err(f)) => e == f,
            _ => false,
        },
{
    if s.len() == 0 {
        return Err(IntErrorKind::Empty);
    }
    if (s[0] == '+' || s[0] == '-') && s.len() == 1 {
        return Err(IntErrorKind::InvalidDigit);
    }
    let start: usize = if s[0] == '+' {
        1
    } else {
        0
    };
    let ghost d = s@.skip(start as int);
    assert(start == 1 ==> d =~= s@.drop_first());
    assert(start == 0 ==> d =~= s@);
    let mut acc: u32 = 0;
    let mut i: usize = start;
    assert(d.take(0) =~= Seq::<char>::empty());
    while i < s.len()
        invariant
            start <= i <= s@.len(),
            d == s@.skip(start as int),
            parse_unsigned(s@, max as int) == digits_value(d, max as int),
            digits_value(d.take(i - start), max as int) == Ok::<int, IntErrorKind>(acc as int),
            acc <= max,
        decreases s@.len() - i,
    {
        let c = s[i];
        assert(d.take(i - start + 1).drop_last() =~= d.take(i - start));
        assert(d.take(i - start + 1).last() == c);
        if !('0' <= c && c <= '9') {
            proof {
                lemma_digits_prefix_err(d, (i - start + 1) as int, max as int);
            }
            return Err(IntErrorKind::InvalidDigit);
        }
        let digit = (c as u32) - ('0' as u32);
        if acc as u64 * 10 + digit as u64 > max as u64 {
            proof {
                lemma_digits_prefix_err(d, (i - start + 1) as int, max as int);
            }
            return Err(IntErrorKind::PosOverflow);
        }
        acc = acc * 10 + digit;
        i = i + 1;
    }
    assert(d.take(i - start) =~= d);
    Ok(acc)
}

/// Once a prefix of the digits fails, the whole run fails the same way.
proof fn lemma_digits_prefix_err(d: Seq<char>, k: int, max: int)
    requires
        0 <= k <= d.len(),
        digits_value(d.take(k), max) is Err,
    ensures
        digits_value(d, max) == digits_value(d.take(k), max),
    decreases d.len() - k,
{
    if k < d.len() {
        assert(d.take(k + 1).drop_last() =~= d.take(k));
        lemma_digits_prefix_err(d, k + 1, max);
    } else {
        assert(d.take(k) =~= d);
    }
}

/// The decimal text of `n`, without leading zeros.
pub open spec fn dec(n: nat) -> Seq<char>
    decreases n,
{
    if n < 10 {
        seq![digit_char(n as int)]
    } else {
        dec(n / 10).push(digit_char((n % 10) as int))
    }
}

/// Reading back the decimal text of a number gives the number.
pub proof fn lemma_dec_parses(n: nat, max: int)
    requires
        n <= max,
    ensures
        digits_value(dec(n), max) == Ok::<int, IntErrorKind>(n as int),
        parse_unsigned(dec(n), max) == Ok::<int, IntErrorKind>(n as int),
        dec(n).len() >= 1,
        forall|i: int| 0 <= i < dec(n).len() ==> is_digit(#[trigger] dec(n)[i]),
    decreases n,
{
    assert(digit_char((n % 10) as int) as int == (n % 10) + 48);
    assert(digits_value(Seq::<char>::empty(), max) == Ok::<int, IntErrorKind>(0));
    if n < 10 {
        assert(dec(n).drop_last() =~= Seq::<char>::empty());
        assert(dec(n).last() == digit_char(n as int));
        assert(digits_value(dec(n), max) == Ok::<int, IntErrorKind>(n as int));
    } else {
        lemma_dec_parses(n / 10, max);
        assert(dec(n).drop_last() =~= dec(n / 10));
        assert(dec(n).last() == digit_char((n % 10) as int));
        assert(n == 10 * (n / 10) + n % 10);
        assert(digits_value(dec(n), max) == Ok::<int, IntErrorKind>(n as int));
        assert forall|i: int| 0 <= i < dec(n).len() implies is_digit(#[trigger] dec(n)[i]) by {
            if i < dec(n).len() - 1 {
                assert(dec(n)[i] == dec(n / 10)[i]);
            }
        }
    }
    assert(is_digit(dec(n)[0]));
}

/// Appends the decimal text of `n` to `s`.
pub(crate) fn push_dec(s: &mut String, n: u32)
    ensures
        final(s)@ == old(s)@ + dec(n as nat),
    decreases n,
{
    if n >= 10 {
        push_dec(s, n / 10);
    }
    let d = n % 10;
    string_push(s, (d as u8 + 48) as char);
    assert(final(s)@ =~= old(s)@ + dec(n as nat));
}

// ----- AmsNetId. -----
/// An AMS NetID: six bytes, written like `1.2.3.4.5.6`. Together with an
/// AMS port it identifies an endpoint of an ADS system. The first four
/// bytes often look like an IPv4 address, but nothing requires that.
#[derive(Clone, Copy, PartialEq, Eq, PartialOrd, Ord, Default, Debug, Hash)]
pub struct AmsNetId(pub [u8; 6]);

/// An AMS port, like an IP port, is a 16-bit integer.
pub type AmsPort = u16;

/// Why a NetID failed to parse.
#[derive(Debug, Clone, Copy, PartialEq, Eq)]
pub enum ParseAmsNetIdError {
    /// A piece between the periods is not a byte.
    ParseByte(IntErrorKind),
    /// There are not exactly six pieces.
    Not6Bytes,
}

/// Every piece parsed as a byte, in order, or the first failure.
pub open spec fn parse_bytes(pieces: Seq<Seq<char>>) -> Result<Seq<u8>, IntErrorKind>
    decreases pieces.len(),
{
    if pieces.len() == 0 {
        Ok(Seq::empty())
    } else {
        match parse_bytes(pieces.drop_last()) {
            Err(e) => Err(e),
            Ok(bs) => match parse_unsigned(pieces.last(), 255) {
                Err(e) => Err(e),
                Ok(b) => Ok(bs.push(b as u8)),
            },
        }
    }
}

/// What parsing text as a NetID gives: the six bytes between the periods.
pub open spec fn parse_netid(s: Seq<char>) -> Result<Seq<u8>, ParseAmsNetIdError> {
    match parse_bytes(split(s, '.')) {
        Err(e) => Err(ParseAmsNetIdError::ParseByte(e)),
        Ok(bs) => if bs.len() == 6 {
            Ok(bs)
        } else {
            Err(ParseAmsNetIdError::Not6Bytes)
        },
    }
}

/// The text of a NetID: its bytes in decimal, joined by periods.
pub open spec fn netid_text(b: Seq<u8>) -> Seq<char> {
    dec(b[0] as nat) + seq!['.'] + dec(b[1] as nat) + seq!['.'] + dec(b[2] as nat) + seq!['.']
        + dec(b[3] as nat) + seq!['.'] + dec(b[4] as nat) + seq!['.'] + dec(b[5] as nat)
}

impl AmsNetId {
    /// A NetID from six bytes.
    pub fn new(a: u8, b: u8, c: u8, d: u8, e: u8, f: u8) -> (r: Self)
        ensures
            r.0@ == seq![a, b, c, d, e, f],
    {
        let r = AmsNetId([a, b, c, d, e, f]);
        assert(r.0@ =~= seq![a, b, c, d, e, f]);
        r
    }

    /// The local NetID, `127.0.0.1.1.1`.
    pub fn local() -> (r: Self)
        ensures
            r.0@ == seq![127u8, 0u8, 0u8, 1u8, 1u8, 1u8],
    {
        Self::new(127, 0, 0, 1, 1, 1)
    }

    /// A NetID from a slice of exactly six bytes.
    pub fn from_slice(slice: &[u8]) -> (r: Option<Self>)
        ensures
            r is Some <==> slice@.len() == 6,
            r matches Some(id) ==> id.0@ == slice@,
    {
        if slice.len() != 6 {
            return None;
        }
        let r = AmsNetId([slice[0], slice[1], slice[2], slice[3], slice[4], slice[5]]);
        assert(r.0@ =~= slice@);
        Some(r)
    }

    /// A NetID from the four octets of an IPv4 address and two more bytes.
    pub fn from_ip(ip: [u8; 4], e: u8, f: u8) -> (r: Self)
        ensures
            r.0@ == ip@ + seq![e, f],
    {
        let r = Self::new(ip[0], ip[1], ip[2], ip[3], e, f);
        assert(r.0@ =~= ip@ + seq![e, f]);
        r
    }

    /// Whether all six bytes are zero.
    pub fn is_zero(&self) -> (r: bool)
        ensures
            r == (forall|i: int| 0 <= i < 6 ==> #[trigger] self.0@[i] == 0),
    {
        let r = self.0[0] == 0 && self.0[1] == 0 && self.0[2] == 0 && self.0[3] == 0 && self.0[4]
            == 0 && self.0[5] == 0;
        assert(r ==> forall|i: int| 0 <= i < 6 ==> #[trigger] self.0@[i] == 0);
        r
    }

    /// Whether two NetIDs have the same six bytes.
    pub fn equals(&self, other: &AmsNetId) -> (r: bool)
        ensures
            r <==> *self == *other,
    {
        let r = self.0[0] == other.0[0] && self.0[1] == other.0[1] && self.0[2] == other.0[2]
            && self.0[3] == other.0[3] && self.0[4] == other.0[4] && self.0[5] == other.0[5];
        if r {
            assert(self.0 =~= other.0);
        }
        r
    }

    /// Parses the text form `a.b.c.d.e.f`: six decimal bytes.
    pub fn parse(s: &str) -> (r: Result<Self, ParseAmsNetIdError>)
        ensures
            match (r, parse_netid(s@)) {
                (Ok(id), Ok(b)) => id.0@ == b,
                (Err(e), Err(f)) => e == f,
                _ => false,
            },
    {
        let pieces = split_chars(s, '.');
        let ghost ps = split(s@, '.');
        let mut bytes: Vec<u8> = Vec::new();
        let mut i: usize = 0;
        assert(ps.take(0) =~= Seq::<Seq<char>>::empty());
        while i < pieces.len()
            invariant
                ps == split(s@, '.'),
                pieces@.len() == ps.len(),
                forall|k: int| 0 <= k < pieces@.len() ==> #[trigger] pieces@[k]@ == ps[k],
                i <= ps.len(),
                parse_bytes(ps.take(i as int)) == Ok::<Seq<u8>, IntErrorKind>(bytes@),
            decreases ps.len() - i,
        {
            assert(ps.take(i + 1).drop_last() =~= ps.take(i as int));
            assert(ps.take(i + 1).last() == ps[i as int]);
            match parse_unsigned_exec(pieces[i].as_slice(), 255) {
                Ok(b) => {
                    bytes.push(b as u8);
                },
                Err(e) => {
                    proof {
                        lemma_parse_bytes_prefix_err(ps, (i + 1) as int);
                    }
                    return Err(ParseAmsNetIdError::ParseByte(e));
                },
            }
            i = i + 1;
        }
        assert(ps.take(ps.len() as int) =~= ps);
        if bytes.len() != 6 {
            return Err(ParseAmsNetIdError::Not6Bytes);
        }
        let r = AmsNetId([bytes[0], bytes[1], bytes[2], bytes[3], bytes[4], bytes[5]]);
        assert(r.0@ =~= bytes@);
        Ok(r)
    }

    /// The text form `a.b.c.d.e.f`, each byte in decimal.
    pub fn to_string(&self) -> (s: String)
        ensures
            s@ == netid_text(self.0@),
    {
        let mut s = String::new();
        push_dec(&mut s, self.0[0] as u32);
        string_push(&mut s, '.');
        push_dec(&mut s, self.0[1] as u32);
        string_push(&mut s, '.');
        push_dec(&mut s, self.0[2] as u32);
        string_push(&mut s, '.');
        push_dec(&mut s, self.0[3] as u32);
        string_push(&mut s, '.');
        push_dec(&mut s, self.0[4] as u32);
        string_push(&mut s, '.');
        push_dec(&mut s, self.0[5] as u32);
        assert(s@ =~= netid_text(self.0@));
        s
    }
}

/// Once a prefix of the pieces fails, parsing all of them fails the same way.
proof fn lemma_parse_bytes_prefix_err(ps: Seq<Seq<char>>, k: int)
    requires
        0 <= k <= ps.len(),
        parse_bytes(ps.take(k)) is Err,
    ensures
        parse_bytes(ps) == parse_bytes(ps.take(k)),
    decreases ps.len() - k,
{
    if k < ps.len() {
        assert(ps.take(k + 1).drop_last() =~= ps.take(k));
        lemma_parse_bytes_prefix_err(ps, k + 1);
    } else {
        assert(ps.take(k) =~= ps);
    }
}

impl std::str::FromStr for AmsNetId {
    type Err = ParseAmsNetIdError;

    fn from_str(s: &str) -> (r: Result<Self, Self::Err>)
        ensures
            match (r, parse_netid(s@)) {
                (Ok(id), Ok(b)) => id.0@ == b,
                (Err(e), Err(f)) => e == f,
                _ => false,
            },
    {
        AmsNetId::parse(s)
    }
}

impl From<[u8; 6]> for AmsNetId {
    fn from(array: [u8; 6]) -> Self {
        AmsNetId(array)
    }
}

impl vstd::std_specs::convert::FromSpecImpl<[u8; 6]> for AmsNetId {
    open spec fn obeys_from_spec() -> bool {
        true
    }

    open spec fn from_spec(array: [u8; 6]) -> Self {
        AmsNetId(array)
    }
}

// ----- AmsAddr. -----
/// An AMS NetID together with a port.
#[derive(Debug, Clone, Copy, Default, PartialEq, Eq, PartialOrd, Ord, Hash)]
pub struct AmsAddr(AmsNetId, AmsPort);

/// Why an AMS address failed to parse.
#[derive(Debug, Clone, PartialEq, Eq)]
pub enum ParseAmsAddrError {
    /// The text is not a NetID and a port separated by one colon.
    InvalidInput { input: String },
    /// The NetID part failed to parse.
    ParseAmsNetId(ParseAmsNetIdError),
    /// The port part is not a 16-bit number.
    InvalidPortNumber(IntErrorKind),
}

/// What parsing text as `netid:port` gives, the input text standing for
/// itself in `InvalidInput`.
pub enum AddrParse {
    Parsed(Seq<u8>, u16),
    InvalidInput,
    ParseAmsNetId(ParseAmsNetIdError),
    InvalidPortNumber(IntErrorKind),
}

pub open spec fn parse_addr(s: Seq<char>) -> AddrParse {
    let pieces = split(s, ':');
    if pieces.len() != 2 {
        AddrParse::InvalidInput
    } else {
        match parse_netid(pieces[0]) {
            Err(e) => AddrParse::ParseAmsNetId(e),
            Ok(b) => match parse_unsigned(pieces[1], 65535) {
                Err(e) => AddrParse::InvalidPortNumber(e),
                Ok(p) => AddrParse::Parsed(b, p as u16),
            },
        }
    }
}

impl AmsAddr {
    /// The address of port `port` at NetID `netid`.
    pub fn new(netid: AmsNetId, port: AmsPort) -> (r: Self)
        ensures
            r.netid_spec() == netid,
            r.port_spec() == port,
    {
        AmsAddr(netid, port)
    }

    pub closed spec fn netid_spec(self) -> AmsNetId {
        self.0
    }

    pub closed spec fn port_spec(self) -> AmsPort {
        self.1
    }

    /// Whether two addresses have the same NetID and port.
    pub fn equals(&self, other: &AmsAddr) -> (r: bool)
        ensures
            r <==> (self.netid_spec() == other.netid_spec() && self.port_spec() == other.port_spec()),
    {
        self.0.equals(&other.0) && self.1 == other.1
    }

    /// The NetID of this address.
    pub fn netid(&self) -> (r: AmsNetId)
        ensures
            r == self.netid_spec(),
    {
        self.0
    }

    /// The port of this address.
    pub fn port(&self) -> (r: AmsPort)
        ensures
            r == self.port_spec(),
    {
        self.1
    }

    /// Parses the text form `netid:port`.
    pub fn parse(s: &str) -> (r: Result<Self, ParseAmsAddrError>)
        ensures
            match (r, parse_addr(s@)) {
                (Ok(a), AddrParse::Parsed(b, p)) => a.netid_spec().0@ == b && a.port_spec() == p,
                (Err(ParseAmsAddrError::InvalidInput { input }), AddrParse::InvalidInput) => input@
                    == s@,
                (Err(ParseAmsAddrError::ParseAmsNetId(e)), AddrParse::ParseAmsNetId(f)) => e == f,
                (
                    Err(ParseAmsAddrError::InvalidPortNumber(e)),
                    AddrParse::InvalidPortNumber(f),
                ) => e == f,
                _ => false,
            },
    {
        let pieces = split_chars(s, ':');
        if pieces.len() != 2 {
            return Err(ParseAmsAddrError::InvalidInput { input: s.to_owned() });
        }
        let addr = crate::strs::string_from_chars(pieces[0].as_slice());
        let netid = match AmsNetId::parse(addr.as_str()) {
            Ok(id) => id,
            Err(e) => return Err(ParseAmsAddrError::ParseAmsNetId(e)),
        };
        let port = match parse_unsigned_exec(pieces[1].as_slice(), 65535) {
            Ok(p) => p as u16,
            Err(e) => return Err(ParseAmsAddrError::InvalidPortNumber(e)),
        };
        Ok(AmsAddr(netid, port))
    }

    /// The text form `netid:port`.
    pub fn to_string(&self) -> (s: String)
        ensures
            s@ == netid_text(self.netid_spec().0@) + seq![':'] + dec(self.port_spec() as nat),
    {
        let mut s = self.0.to_string();
        string_push(&mut s, ':');
        push_dec(&mut s, self.1 as u32);
        assert(s@ =~= netid_text(self.0.0@) + seq![':'] + dec(self.1 as nat));
        s
    }
}

impl std::str::FromStr for AmsAddr {
    type Err = ParseAmsAddrError;

    fn from_str(s: &str) -> (r: Result<AmsAddr, Self::Err>)
        ensures
            match (r, parse_addr(s@)) {
                (Ok(a), AddrParse::Parsed(b, p)) => a.netid_spec().0@ == b && a.port_spec() == p,
                (Err(ParseAmsAddrError::InvalidInput { input }), AddrParse::InvalidInput) => input@
                    == s@,
                (Err(ParseAmsAddrError::ParseAmsNetId(e)), AddrParse::ParseAmsNetId(f)) => e == f,
                (
                    Err(ParseAmsAddrError::InvalidPortNumber(e)),
                    AddrParse::InvalidPortNumber(f),
                ) => e == f,
                _ => false,
            },
    {
        AmsAddr::parse(s)
    }
}

} // verus!

verus! {

proof fn lemma_dec_no_char(n: nat, c: char)
    requires
        !('0' <= c <= '9'),
    ensures
        forall|i: int| 0 <= i < dec(n).len() ==> #[trigger] dec(n)[i] != c,
{
    lemma_dec_parses(n, n as int);
}

proof fn lemma_parse_bytes_all(ps: Seq<Seq<char>>, b: Seq<u8>)
    requires
        ps.len() == b.len(),
        forall|i: int| 0 <= i < ps.len() ==> parse_unsigned(#[trigger] ps[i], 255) == Ok::<
            int,
            IntErrorKind,
        >(b[i] as int),
    ensures
        parse_bytes(ps) == Ok::<Seq<u8>, IntErrorKind>(b),
    decreases ps.len(),
{
    if ps.len() > 0 {
        lemma_parse_bytes_all(ps.drop_last(), b.drop_last());
        assert(ps.drop_last().len() == b.drop_last().len());
        assert(parse_unsigned(ps.last(), 255) == Ok::<int, IntErrorKind>(b.last() as int));
        assert(b.drop_last().push(b.last()) =~= b);
    } else {
        assert(b =~= Seq::<u8>::empty());
    }
}

/// Parsing the text of a NetID gives back the NetID.
#[verifier::rlimit(50)]
pub proof fn lemma_netid_text_parses(id: AmsNetId)
    ensures
        parse_netid(netid_text(id.0@)) == Ok::<Seq<u8>, ParseAmsNetIdError>(id.0@),
        forall|i: int|
            0 <= i < netid_text(id.0@).len() ==> #[trigger] netid_text(id.0@)[i] != ':',
{
    let b = id.0@;
    let d = Seq::new(6, |i: int| dec(b[i] as nat));
    lemma_dec_parses(b[0] as nat, 255);
    lemma_dec_no_char(b[0] as nat, '.');
    lemma_dec_no_char(b[0] as nat, ':');
    lemma_dec_parses(b[1] as nat, 255);
    lemma_dec_no_char(b[1] as nat, '.');
    lemma_dec_no_char(b[1] as nat, ':');
    lemma_dec_parses(b[2] as nat, 255);
    lemma_dec_no_char(b[2] as nat, '.');
    lemma_dec_no_char(b[2] as nat, ':');
    lemma_dec_parses(b[3] as nat, 255);
    lemma_dec_no_char(b[3] as nat, '.');
    lemma_dec_no_char(b[3] as nat, ':');
    lemma_dec_parses(b[4] as nat, 255);
    lemma_dec_no_char(b[4] as nat, '.');
    lemma_dec_no_char(b[4] as nat, ':');
    lemma_dec_parses(b[5] as nat, 255);
    lemma_dec_no_char(b[5] as nat, '.');
    lemma_dec_no_char(b[5] as nat, ':');
    assert(forall|j: int| 0 <= j < 6 ==> parse_unsigned(#[trigger] d[j], 255) == Ok::<int, IntErrorKind>(b[j] as int));
    let t = netid_text(b);
    assert(t =~= d[0] + seq!['.'] + (d[1] + seq!['.'] + (d[2] + seq!['.'] + (d[3] + seq!['.'] + (
    d[4] + seq!['.'] + d[5])))));
    crate::strs::lemma_split_no_sep(d[5], '.');
    crate::strs::lemma_split_concat(d[4], '.', d[5]);
    crate::strs::lemma_split_concat(d[3], '.', d[4] + seq!['.'] + d[5]);
    crate::strs::lemma_split_concat(d[2], '.', d[3] + seq!['.'] + (d[4] + seq!['.'] + d[5]));
    crate::strs::lemma_split_concat(
        d[1],
        '.',
        d[2] + seq!['.'] + (d[3] + seq!['.'] + (d[4] + seq!['.'] + d[5])),
    );
    crate::strs::lemma_split_concat(
        d[0],
        '.',
        d[1] + seq!['.'] + (d[2] + seq!['.'] + (d[3] + seq!['.'] + (d[4] + seq!['.'] + d[5]))),
    );
    assert(split(t, '.') =~= d);
    lemma_parse_bytes_all(d, b);
    assert forall|i: int| 0 <= i < t.len() implies #[trigger] t[i] != ':' by {
        if i < d[0].len() {
            assert(t[i] == d[0][i]);
        } else if i == d[0].len() {
        } else if i < d[0].len() + 1 + d[1].len() {
            assert(t[i] == d[1][i - d[0].len() - 1]);
        } else if i == d[0].len() + 1 + d[1].len() {
        } else if i < d[0].len() + d[1].len() + 2 + d[2].len() {
            assert(t[i] == d[2][i - d[0].len() - d[1].len() - 2]);
        } else if i == d[0].len() + d[1].len() + 2 + d[2].len() {
        } else if i < d[0].len() + d[1].len() + d[2].len() + 3 + d[3].len() {
            assert(t[i] == d[3][i - d[0].len() - d[1].len() - d[2].len() - 3]);
        } else if i == d[0].len() + d[1].len() + d[2].len() + 3 + d[3].len() {
        } else if i < d[0].len() + d[1].len() + d[2].len() + d[3].len() + 4 + d[4].len() {
            assert(t[i] == d[4][i - d[0].len() - d[1].len() - d[2].len() - d[3].len() - 4]);
        } else if i == d[0].len() + d[1].len() + d[2].len() + d[3].len() + 4 + d[4].len() {
        } else {
            assert(t[i] == d[5][i - d[0].len() - d[1].len() - d[2].len() - d[3].len() - d[4].len() - 5]);
        }
    }
}

/// Parsing the text of an AMS address gives back the address.
pub proof fn lemma_addr_text_parses(a: AmsAddr)
    ensures
        parse_addr(netid_text(a.netid_spec().0@) + seq![':'] + dec(a.port_spec() as nat))
            == AddrParse::Parsed(a.netid_spec().0@, a.port_spec()),
{
    let t = netid_text(a.netid_spec().0@);
    let p = dec(a.port_spec() as nat);
    lemma_netid_text_parses(a.netid_spec());
    lemma_dec_parses(a.port_spec() as nat, 65535);
    lemma_dec_no_char(a.port_spec() as nat, ':');
    crate::strs::lemma_split_no_sep(p, ':');
    crate::strs::lemma_split_concat(t, ':', p);
    assert(split(t + seq![':'] + p, ':') =~= seq![t, p]);
}

} // verus!
