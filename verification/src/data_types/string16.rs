//! Latin-1 strings of at most 16 characters, as the PLC stores them: 16
//! bytes of text padded with zeros, and one byte of null termination.
use crate::data_types::PlcDataType;
use crate::netid::{dec, push_dec};
use crate::strs::string_push;
use vstd::prelude::*;
use vstd::utf8::{encode_utf8, is_ascii_chars};

verus! {

/// Why a `String` does not fit a 16-character PLC string.
#[derive(Debug, Clone, Copy, PartialEq, Eq, Structural)]
pub enum AdsString16FromStringError {
    /// The text takes more than 16 bytes.
    LongerThan16Bytes,
}

impl AdsString16FromStringError {
    /// The error's text.
    pub fn message(&self) -> (r: String)
        ensures
            r@ == "Could not convert from String. Longer than 16 bytes."@,
    {
        String::from_str("Could not convert from String. Longer than 16 bytes.")
    }
}

/// The null terminator of a 16-character PLC string is not zero.
#[derive(Debug, Clone, Copy, PartialEq, Eq, Structural)]
pub struct AdsString16CheckTerminatorError {
    null_terminator: u8,
}

impl AdsString16CheckTerminatorError {
    /// The terminator byte that was found.
    pub closed spec fn terminator_spec(self) -> u8 {
        self.null_terminator
    }

    /// The terminator byte that was found.
    pub fn null_terminator(&self) -> (r: u8)
        ensures
            r == self.terminator_spec(),
    {
        self.null_terminator
    }

    /// The error's text: `Null terminator is N not 0.`, with the byte in
    /// decimal.
    pub fn message(&self) -> (r: String)
        ensures
            r@ == "Null terminator is "@ + dec(self.terminator_spec() as nat) + " not 0."@,
    {
        let mut r = String::from_str("Null terminator is ");
        push_dec(&mut r, self.null_terminator as u32);
        r.append(" not 0.");
        r
    }
}

/// Bytes read as Latin-1: each byte is the character with that number.
pub open spec fn latin1(b: Seq<u8>) -> Seq<char> {
    Seq::new(b.len(), |i: int| b[i] as char)
}

/// The text without its trailing NUL characters.
pub open spec fn trim_nul(s: Seq<char>) -> Seq<char>
    decreases s.len(),
{
    if s.len() > 0 && s.last() == '\0' {
        trim_nul(s.drop_last())
    } else {
        s
    }
}

/// The bytes followed by zeros up to 16 bytes.
pub open spec fn padded16(b: Seq<u8>) -> Seq<u8> {
    b + Seq::new((16 - b.len()) as nat, |i: int| 0u8)
}

/// The 16 bytes of `value`'s UTF-8 text padded with zeros, or the error for
/// a text longer than 16 bytes.
fn text_bytes(value: &String) -> (r: Result<[u8; 16], AdsString16FromStringError>)
    ensures
        encode_utf8(value@).len() > 16 ==> r == Err::<[u8; 16], AdsString16FromStringError>(
            AdsString16FromStringError::LongerThan16Bytes,
        ),
        encode_utf8(value@).len() <= 16 ==> (r matches Ok(b) && b@ == padded16(encode_utf8(value@))),
{
    let src = value.as_str().as_bytes();
    let n = src.len();
    if n > 16 {
        return Err(AdsString16FromStringError::LongerThan16Bytes);
    }
    let mut inner = [0u8; 16];
    let mut i: usize = 0;
    while i < n
        invariant
            n == src@.len(),
            n <= 16,
            i <= n,
            src@ == encode_utf8(value@),
            forall|k: int| 0 <= k < i ==> inner@[k] == src@[k],
            forall|k: int| i <= k < 16 ==> inner@[k] == 0,
        decreases n - i,
    {
        inner[i] = src[i];
        i = i + 1;
    }
    assert(inner@ =~= padded16(encode_utf8(value@)));
    Ok(inner)
}

proof fn lemma_trim_prefix(b: Seq<u8>, end: int)
    requires
        0 < end <= b.len(),
        b[end - 1] == 0,
    ensures
        trim_nul(latin1(b.take(end))) == trim_nul(latin1(b.take(end - 1))),
{
    assert(latin1(b.take(end)).drop_last() =~= latin1(b.take(end - 1)));
    assert(latin1(b.take(end)).last() == (0u8 as char));
}

/// The 16 bytes read as Latin-1 text, without trailing NULs.
fn text_of(inner: &[u8; 16]) -> (r: String)
    ensures
        r@ == trim_nul(latin1(inner@)),
{
    let mut end: usize = 16;
    assert(inner@.take(16) =~= inner@);
    while end > 0 && inner[end - 1] == 0
        invariant
            end <= 16,
            trim_nul(latin1(inner@)) == trim_nul(latin1(inner@.take(end as int))),
        decreases end,
    {
        proof {
            lemma_trim_prefix(inner@, end as int);
        }
        end = end - 1;
    }
    let ghost kept = latin1(inner@.take(end as int));
    assert(trim_nul(kept) == kept) by {
        if end > 0 {
            assert(kept.last() == inner@[end - 1] as char);
            assert(inner@[end - 1] != 0);
            assert((inner@[end - 1] as char) != '\0');
        }
    }
    let mut s = String::new();
    let mut i: usize = 0;
    while i < end
        invariant
            end <= 16,
            i <= end,
            s@ == latin1(inner@.take(i as int)),
        decreases end - i,
    {
        string_push(&mut s, inner[i] as char);
        assert(latin1(inner@.take(i + 1)) =~= latin1(inner@.take(i as int)).push(inner@[i as int] as char));
        i = i + 1;
    }
    s
}

/// NULs appended to a text that does not end with one are trimmed off again.
proof fn lemma_trim_padding(s: Seq<char>, k: nat)
    requires
        s.len() == 0 || s.last() != '\0',
    ensures
        trim_nul(s + Seq::new(k, |i: int| '\0')) == s,
    decreases k,
{
    let t = s + Seq::new(k, |i: int| '\0');
    if k == 0 {
        assert(t =~= s);
    } else {
        assert(t.drop_last() =~= s + Seq::new((k - 1) as nat, |i: int| '\0'));
        lemma_trim_padding(s, (k - 1) as nat);
    }
}

/// An ASCII text of at most 16 characters that does not end with NUL comes
/// back unchanged from its 16-byte form.
pub proof fn lemma_string16_roundtrip(s: Seq<char>)
    requires
        is_ascii_chars(s),
        s.len() <= 16,
        s.len() == 0 || s.last() != '\0',
    ensures
        encode_utf8(s).len() == s.len(),
        trim_nul(latin1(padded16(encode_utf8(s)))) == s,
{
    vstd::utf8::is_ascii_chars_encode_utf8(s);
    let b = padded16(encode_utf8(s));
    assert forall|i: int| 0 <= i < s.len() implies (s[i] as u8) as char == s[i] by {
        vstd::utf8::is_ascii_chars_nat_bound(s);
    }
    assert(latin1(b) =~= s + Seq::new((16 - s.len()) as nat, |i: int| '\0'));
    lemma_trim_padding(s, (16 - s.len()) as nat);
}

/// Some array of 16 bytes holds the padded form of `b`.
proof fn lemma_padded16_exists(b: Seq<u8>)
    requires
        b.len() <= 16,
    ensures
        exists|a: [u8; 16]| a@ == padded16(b),
{
    let p = padded16(b);
    assert(p.len() == 16);
    let a: [u8; 16] = [p[0], p[1], p[2], p[3], p[4], p[5], p[6], p[7], p[8], p[9], p[10], p[11], p[12], p[13], p[14], p[15]];
    assert(a@ =~= p);
}

// ----- PlcString16 -----
/// A Latin-1 string of at most 16 characters for the PLC, with one byte of
/// null termination.
#[derive(Clone, Copy, Debug, Default, PartialEq, Eq)]
pub struct PlcString16 {
    inner: [u8; 16],
    null_terminator: u8,
}

impl View for PlcString16 {
    /// The 16 bytes of text and the terminator byte.
    type V = (Seq<u8>, u8);

    closed spec fn view(&self) -> (Seq<u8>, u8) {
        (self.inner@, self.null_terminator)
    }
}

impl PlcString16 {
    /// The PLC string holding the UTF-8 bytes of `value`, padded with
    /// zeros; an error if they are more than 16.
    pub fn from_string(value: String) -> (r: Result<Self, AdsString16FromStringError>)
        ensures
            encode_utf8(value@).len() > 16 ==> r == Err::<Self, AdsString16FromStringError>(
                AdsString16FromStringError::LongerThan16Bytes,
            ),
            encode_utf8(value@).len() <= 16 ==> (r matches Ok(s) && s@ == (
                padded16(encode_utf8(value@)),
                0u8,
            )),
    {
        let inner = text_bytes(&value)?;
        Ok(PlcString16 { inner, null_terminator: 0 })
    }

    /// The text: each byte as a Latin-1 character, trailing NULs dropped.
    pub fn to_string(&self) -> (r: String)
        ensures
            r@ == trim_nul(latin1(self@.0)),
    {
        text_of(&self.inner)
    }

    /// `Ok` if the null terminator is zero, else an error that holds it.
    pub fn check_terminator(&self) -> (r: Result<(), AdsString16CheckTerminatorError>)
        ensures
            self@.1 == 0 ==> r is Ok,
            self@.1 != 0 ==> (r matches Err(e) && e.terminator_spec() == self@.1),
    {
        if self.null_terminator != 0 {
            Err(AdsString16CheckTerminatorError { null_terminator: self.null_terminator })
        } else {
            Ok(())
        }
    }
}

impl TryFrom<String> for PlcString16 {
    type Error = AdsString16FromStringError;

    fn try_from(value: String) -> (r: Result<Self, Self::Error>) {
        let ghost v = value;
        let r = PlcString16::from_string(value);
        proof {
            if encode_utf8(v@).len() <= 16 {
                lemma_padded16_exists(encode_utf8(v@));
                let c = choose|a: [u8; 16]| a@ == padded16(encode_utf8(v@));
                let s = r->Ok_0;
                assert(s.inner =~= c);
                assert(s == PlcString16 { inner: c, null_terminator: 0 });
            }
        }
        r
    }
}

/// The conversion is `PlcString16::from_string` (see
/// `lemma_plcstring16_try_from`).
impl vstd::std_specs::convert::TryFromSpecImpl<String> for PlcString16 {
    open spec fn obeys_try_from_spec() -> bool {
        true
    }

    closed spec fn try_from_spec(v: String) -> Result<Self, AdsString16FromStringError> {
        if encode_utf8(v@).len() > 16 {
            Err(AdsString16FromStringError::LongerThan16Bytes)
        } else {
            Ok(
                PlcString16 {
                    inner: choose|a: [u8; 16]| a@ == padded16(encode_utf8(v@)),
                    null_terminator: 0,
                },
            )
        }
    }
}

/// What `PlcString16::try_from` gives for a `String`: an error when its UTF-8
/// bytes are more than 16, else those bytes padded with zeros and a zero
/// terminator.
pub proof fn lemma_plcstring16_try_from(v: String)
    ensures
        encode_utf8(v@).len() > 16 ==> <PlcString16 as vstd::std_specs::convert::TryFromSpec<
            String,
        >>::try_from_spec(v) == Err::<PlcString16, AdsString16FromStringError>(
            AdsString16FromStringError::LongerThan16Bytes,
        ),
        encode_utf8(v@).len() <= 16 ==> (<PlcString16 as vstd::std_specs::convert::TryFromSpec<
            String,
        >>::try_from_spec(v) matches Ok(s) && s@ == (padded16(encode_utf8(v@)), 0u8)),
{
    if encode_utf8(v@).len() <= 16 {
        lemma_padded16_exists(encode_utf8(v@));
    }
}

impl From<PlcString16> for String {
    /// The text: each byte as a Latin-1 character, trailing NULs dropped.
    fn from(val: PlcString16) -> (r: Self)
        ensures
            r@ == trim_nul(latin1(val@.0)),
    {
        val.to_string()
    }
}

/// The text is stated on `from` itself, over the `String`'s characters;
/// `from_spec` would have to name a `String` value, and two `String`s with
/// the same characters cannot be shown equal here.
impl vstd::std_specs::convert::FromSpecImpl<PlcString16> for String {
    open spec fn obeys_from_spec() -> bool {
        false
    }

    closed spec fn from_spec(v: PlcString16) -> String {
        arbitrary()
    }
}

impl PlcDataType for PlcString16 {
    open spec fn spec_size() -> nat {
        17
    }

    closed spec fn spec_bytes(&self) -> Seq<u8> {
        self.inner@.push(self.null_terminator)
    }

    closed spec fn spec_from_bytes(bytes: Seq<u8>) -> Option<Self> {
        if bytes.len() == 17 {
            Some(
                PlcString16 {
                    inner: [
                        bytes[0],
                        bytes[1],
                        bytes[2],
                        bytes[3],
                        bytes[4],
                        bytes[5],
                        bytes[6],
                        bytes[7],
                        bytes[8],
                        bytes[9],
                        bytes[10],
                        bytes[11],
                        bytes[12],
                        bytes[13],
                        bytes[14],
                        bytes[15],
                    ],
                    null_terminator: bytes[16],
                },
            )
        } else {
            None
        }
    }

    proof fn lemma_bytes_roundtrip(v: Self) {
        let b = v.spec_bytes();
        let w = Self::spec_from_bytes(b).unwrap();
        assert(w.inner@ =~= v.inner@);
        assert(w.inner == v.inner);
    }

    proof fn lemma_from_bytes(bytes: Seq<u8>) {
        if bytes.len() == 17 {
            let w = Self::spec_from_bytes(bytes).unwrap();
            assert(w.spec_bytes() =~= bytes);
        }
    }

    fn size() -> (n: usize) {
        17
    }

    fn as_bytes(&self) -> (b: Vec<u8>) {
        let mut b: Vec<u8> = Vec::new();
        let mut i: usize = 0;
        while i < 16
            invariant
                i <= 16,
                b@ == self.inner@.take(i as int),
            decreases 16 - i,
        {
            b.push(self.inner[i]);
            assert(self.inner@.take(i + 1) =~= self.inner@.take(i as int).push(self.inner@[i as int]));
            i = i + 1;
        }
        assert(self.inner@.take(16) =~= self.inner@);
        b.push(self.null_terminator);
        b
    }

    fn from_bytes(bytes: &[u8]) -> (r: Option<Self>) {
        if bytes.len() != 17 {
            return None;
        }
        let inner = [
            bytes[0],
            bytes[1],
            bytes[2],
            bytes[3],
            bytes[4],
            bytes[5],
            bytes[6],
            bytes[7],
            bytes[8],
            bytes[9],
            bytes[10],
            bytes[11],
            bytes[12],
            bytes[13],
            bytes[14],
            bytes[15],
        ];
        Some(PlcString16 { inner, null_terminator: bytes[16] })
    }
}

// ----- AdsString16 -----
/// A Latin-1 string of at most 16 characters for ADS, with one byte of
/// null termination.
#[derive(Clone, Copy, Debug, Default, PartialEq, Eq)]
pub struct AdsString16 {
    inner: [u8; 16],
    null_terminator: u8,
}

impl View for AdsString16 {
    /// The 16 bytes of text and the terminator byte.
    type V = (Seq<u8>, u8);

    closed spec fn view(&self) -> (Seq<u8>, u8) {
        (self.inner@, self.null_terminator)
    }
}

impl AdsString16 {
    /// The PLC string holding the UTF-8 bytes of `value`, padded with
    /// zeros; an error if they are more than 16.
    pub fn from_string(value: String) -> (r: Result<Self, AdsString16FromStringError>)
        ensures
            encode_utf8(value@).len() > 16 ==> r == Err::<Self, AdsString16FromStringError>(
                AdsString16FromStringError::LongerThan16Bytes,
            ),
            encode_utf8(value@).len() <= 16 ==> (r matches Ok(s) && s@ == (
                padded16(encode_utf8(value@)),
                0u8,
            )),
    {
        let inner = text_bytes(&value)?;
        Ok(AdsString16 { inner, null_terminator: 0 })
    }

    /// The text: each byte as a Latin-1 character, trailing NULs dropped.
    pub fn to_string(&self) -> (r: String)
        ensures
            r@ == trim_nul(latin1(self@.0)),
    {
        text_of(&self.inner)
    }

    /// `Ok` if the null terminator is zero, else an error that holds it.
    pub fn check_terminator(&self) -> (r: Result<(), AdsString16CheckTerminatorError>)
        ensures
            self@.1 == 0 ==> r is Ok,
            self@.1 != 0 ==> (r matches Err(e) && e.terminator_spec() == self@.1),
    {
        if self.null_terminator != 0 {
            Err(AdsString16CheckTerminatorError { null_terminator: self.null_terminator })
        } else {
            Ok(())
        }
    }
}

impl TryFrom<String> for AdsString16 {
    type Error = AdsString16FromStringError;

    fn try_from(value: String) -> (r: Result<Self, Self::Error>) {
        let ghost v = value;
        let r = AdsString16::from_string(value);
        proof {
            if encode_utf8(v@).len() <= 16 {
                lemma_padded16_exists(encode_utf8(v@));
                let c = choose|a: [u8; 16]| a@ == padded16(encode_utf8(v@));
                let s = r->Ok_0;
                assert(s.inner =~= c);
                assert(s == AdsString16 { inner: c, null_terminator: 0 });
            }
        }
        r
    }
}

/// The conversion is `AdsString16::from_string` (see
/// `lemma_adsstring16_try_from`).
impl vstd::std_specs::convert::TryFromSpecImpl<String> for AdsString16 {
    open spec fn obeys_try_from_spec() -> bool {
        true
    }

    closed spec fn try_from_spec(v: String) -> Result<Self, AdsString16FromStringError> {
        if encode_utf8(v@).len() > 16 {
            Err(AdsString16FromStringError::LongerThan16Bytes)
        } else {
            Ok(
                AdsString16 {
                    inner: choose|a: [u8; 16]| a@ == padded16(encode_utf8(v@)),
                    null_terminator: 0,
                },
            )
        }
    }
}

/// What `AdsString16::try_from` gives for a `String`: an error when its UTF-8
/// bytes are more than 16, else those bytes padded with zeros and a zero
/// terminator.
pub proof fn lemma_adsstring16_try_from(v: String)
    ensures
        encode_utf8(v@).len() > 16 ==> <AdsString16 as vstd::std_specs::convert::TryFromSpec<
            String,
        >>::try_from_spec(v) == Err::<AdsString16, AdsString16FromStringError>(
            AdsString16FromStringError::LongerThan16Bytes,
        ),
        encode_utf8(v@).len() <= 16 ==> (<AdsString16 as vstd::std_specs::convert::TryFromSpec<
            String,
        >>::try_from_spec(v) matches Ok(s) && s@ == (padded16(encode_utf8(v@)), 0u8)),
{
    if encode_utf8(v@).len() <= 16 {
        lemma_padded16_exists(encode_utf8(v@));
    }
}

impl From<AdsString16> for String {
    /// The text: each byte as a Latin-1 character, trailing NULs dropped.
    fn from(val: AdsString16) -> (r: Self)
        ensures
            r@ == trim_nul(latin1(val@.0)),
    {
        val.to_string()
    }
}

/// The text is stated on `from` itself, over the `String`'s characters;
/// `from_spec` would have to name a `String` value, and two `String`s with
/// the same characters cannot be shown equal here.
impl vstd::std_specs::convert::FromSpecImpl<AdsString16> for String {
    open spec fn obeys_from_spec() -> bool {
        false
    }

    closed spec fn from_spec(v: AdsString16) -> String {
        arbitrary()
    }
}

impl PlcDataType for AdsString16 {
    open spec fn spec_size() -> nat {
        17
    }

    closed spec fn spec_bytes(&self) -> Seq<u8> {
        self.inner@.push(self.null_terminator)
    }

    closed spec fn spec_from_bytes(bytes: Seq<u8>) -> Option<Self> {
        if bytes.len() == 17 {
            Some(
                AdsString16 {
                    inner: [
                        bytes[0],
                        bytes[1],
                        bytes[2],
                        bytes[3],
                        bytes[4],
                        bytes[5],
                        bytes[6],
                        bytes[7],
                        bytes[8],
                        bytes[9],
                        bytes[10],
                        bytes[11],
                        bytes[12],
                        bytes[13],
                        bytes[14],
                        bytes[15],
                    ],
                    null_terminator: bytes[16],
                },
            )
        } else {
            None
        }
    }

    proof fn lemma_bytes_roundtrip(v: Self) {
        let b = v.spec_bytes();
        let w = Self::spec_from_bytes(b).unwrap();
        assert(w.inner@ =~= v.inner@);
        assert(w.inner == v.inner);
    }

    proof fn lemma_from_bytes(bytes: Seq<u8>) {
        if bytes.len() == 17 {
            let w = Self::spec_from_bytes(bytes).unwrap();
            assert(w.spec_bytes() =~= bytes);
        }
    }

    fn size() -> (n: usize) {
        17
    }

    fn as_bytes(&self) -> (b: Vec<u8>) {
        let mut b: Vec<u8> = Vec::new();
        let mut i: usize = 0;
        while i < 16
            invariant
                i <= 16,
                b@ == self.inner@.take(i as int),
            decreases 16 - i,
        {
            b.push(self.inner[i]);
            assert(self.inner@.take(i + 1) =~= self.inner@.take(i as int).push(self.inner@[i as int]));
            i = i + 1;
        }
        assert(self.inner@.take(16) =~= self.inner@);
        b.push(self.null_terminator);
        b
    }

    fn from_bytes(bytes: &[u8]) -> (r: Option<Self>) {
        if bytes.len() != 17 {
            return None;
        }
        let inner = [
            bytes[0],
            bytes[1],
            bytes[2],
            bytes[3],
            bytes[4],
            bytes[5],
            bytes[6],
            bytes[7],
            bytes[8],
            bytes[9],
            bytes[10],
            bytes[11],
            bytes[12],
            bytes[13],
            bytes[14],
            bytes[15],
        ];
        Some(AdsString16 { inner, null_terminator: bytes[16] })
    }
}

} // verus!
