//! Fixed-size PLC data types and their byte layout.
//!
//! Each type is stored by the PLC as a fixed number of little-endian bytes;
//! `PlcDataType` reads and writes that layout.
pub mod string16;
pub mod symbol_map;
pub mod symbol_tree;
pub mod time_struct;

use crate::le::{
    i16_bits, i16_from_bits, i16_to_bits, i32_bits, i32_from_bits, i32_to_bits, signed, u16_bytes,
    u16_le, u32_bytes, u32_le,
};
use vstd::prelude::*;

verus! {

/// A value that the PLC stores as a fixed number of bytes.
pub trait PlcDataType: Sized {
    /// The number of bytes a value takes.
    spec fn spec_size() -> nat;

    /// The bytes of a value, as the PLC stores them.
    spec fn spec_bytes(&self) -> Seq<u8>;

    /// The value that `bytes` hold, if they are a value of this type.
    spec fn spec_from_bytes(bytes: Seq<u8>) -> Option<Self>;

    /// Every value has `spec_size` bytes, and reading them back gives the
    /// value.
    proof fn lemma_bytes_roundtrip(v: Self)
        ensures
            v.spec_bytes().len() == Self::spec_size(),
            Self::spec_from_bytes(v.spec_bytes()) == Some(v),
    ;

    /// Exactly the runs of `spec_size` bytes are values, and writing such a
    /// value gives the bytes back.
    proof fn lemma_from_bytes(bytes: Seq<u8>)
        ensures
            Self::spec_from_bytes(bytes) is Some <==> bytes.len() == Self::spec_size(),
            Self::spec_from_bytes(bytes) matches Some(v) ==> v.spec_bytes() == bytes,
    ;

    /// The number of bytes a value takes.
    fn size() -> (n: usize)
        ensures
            n == Self::spec_size(),
    ;

    /// The bytes of the value.
    fn as_bytes(&self) -> (b: Vec<u8>)
        ensures
            b@ == self.spec_bytes(),
    ;

    /// The value held by `bytes`; `None` unless there are exactly
    /// `size()` of them.
    fn from_bytes(bytes: &[u8]) -> (r: Option<Self>)
        ensures
            r == Self::spec_from_bytes(bytes@),
    ;
}

/// Writing a value of any PLC data type and reading the bytes back gives the
/// value; and reading accepts exactly the runs of `size()` bytes, each the
/// bytes of the value it reads as.
pub proof fn lemma_plc_data_roundtrip<T: PlcDataType>(v: T, bytes: Seq<u8>)
    ensures
        T::spec_from_bytes(v.spec_bytes()) == Some(v),
        v.spec_bytes().len() == T::spec_size(),
        T::spec_from_bytes(bytes) is Some <==> bytes.len() == T::spec_size(),
        T::spec_from_bytes(bytes) matches Some(w) ==> w.spec_bytes() == bytes,
{
    T::lemma_bytes_roundtrip(v);
    T::lemma_from_bytes(bytes);
}

// ----- BOOL -----
/// A PLC `BOOL`: one byte, 1 for true and 0 for false.
#[derive(Clone, Copy, Debug, Default, PartialEq, Eq)]
pub struct AdsBool(u8);

impl View for AdsBool {
    type V = u8;

    closed spec fn view(&self) -> u8 {
        self.0
    }
}

impl AdsBool {
    /// The byte of a boolean.
    pub fn from_bool(value: bool) -> (r: Self)
        ensures
            r@ == (if value { 1u8 } else { 0u8 }),
    {
        if value {
            AdsBool(1)
        } else {
            AdsBool(0)
        }
    }

    /// The boolean a byte of 0 or 1 stands for.
    pub fn to_bool(self) -> (r: bool)
        requires
            self@ == 0 || self@ == 1,
        ensures
            r == (self@ == 1),
    {
        self.0 == 1
    }
}

impl PlcDataType for AdsBool {
    open spec fn spec_size() -> nat {
        1
    }

    closed spec fn spec_bytes(&self) -> Seq<u8> {
        seq![self.0]
    }

    closed spec fn spec_from_bytes(bytes: Seq<u8>) -> Option<Self> {
        if bytes.len() == 1 {
            Some(AdsBool(bytes[0]))
        } else {
            None
        }
    }

    proof fn lemma_bytes_roundtrip(v: Self) {
    }

    proof fn lemma_from_bytes(bytes: Seq<u8>) {
        if bytes.len() == 1 {
            assert(seq![bytes[0]] =~= bytes);
        }
    }

    fn size() -> (n: usize) {
        1
    }

    fn as_bytes(&self) -> (b: Vec<u8>) {
        let mut b: Vec<u8> = Vec::new();
        b.push(self.0);
        assert(b@ =~= seq![self.0]);
        b
    }

    fn from_bytes(bytes: &[u8]) -> (r: Option<Self>) {
        if bytes.len() == 1 {
            Some(AdsBool(bytes[0]))
        } else {
            None
        }
    }
}

impl From<bool> for AdsBool {
    fn from(value: bool) -> (r: Self) {
        AdsBool::from_bool(value)
    }
}

impl vstd::std_specs::convert::FromSpecImpl<bool> for AdsBool {
    open spec fn obeys_from_spec() -> bool {
        true
    }

    closed spec fn from_spec(v: bool) -> AdsBool {
        AdsBool(if v { 1u8 } else { 0u8 })
    }
}

// ----- AdsDint -----
/// A PLC `DINT`: a 32-bit signed integer.
#[derive(Clone, Copy, Debug, Default, PartialEq, Eq)]
pub struct AdsDint(i32);

impl View for AdsDint {
    type V = i32;

    closed spec fn view(&self) -> i32 {
        self.0
    }
}

impl PlcDataType for AdsDint {
    open spec fn spec_size() -> nat {
        4
    }

    closed spec fn spec_bytes(&self) -> Seq<u8> {
        u32_bytes(i32_bits(self.0))
    }

    closed spec fn spec_from_bytes(bytes: Seq<u8>) -> Option<Self> {
        if bytes.len() == 4 {
            Some(AdsDint(signed(u32_le(bytes), 0x8000_0000) as i32))
        } else {
            None
        }
    }

    proof fn lemma_bytes_roundtrip(v: Self) {
        crate::le::lemma_u32_roundtrip(i32_bits(v.0));
    }

    proof fn lemma_from_bytes(bytes: Seq<u8>) {
        if bytes.len() == 4 {
            crate::le::lemma_u32_bytes_of_value(bytes);
        }
    }

    fn size() -> (n: usize) {
        4
    }

    fn as_bytes(&self) -> (b: Vec<u8>) {
        let mut b: Vec<u8> = Vec::new();
        crate::le::push_u32_le(&mut b, i32_to_bits(self.0));
        b
    }

    fn from_bytes(bytes: &[u8]) -> (r: Option<Self>) {
        if bytes.len() == 4 {
            Some(AdsDint(i32_from_bits(crate::le::read_u32_le(bytes))))
        } else {
            None
        }
    }
}

impl From<AdsDint> for i32 {
    fn from(value: AdsDint) -> (r: Self) {
        value.0
    }
}

impl vstd::std_specs::convert::FromSpecImpl<AdsDint> for i32 {
    open spec fn obeys_from_spec() -> bool {
        true
    }

    open spec fn from_spec(v: AdsDint) -> i32 {
        v@
    }
}

// ----- AdsInt -----
/// A PLC `INT`: a 16-bit signed integer.
#[derive(Clone, Copy, Debug, Default, PartialEq, Eq)]
pub struct AdsInt(i16);

impl View for AdsInt {
    type V = i16;

    closed spec fn view(&self) -> i16 {
        self.0
    }
}

impl PlcDataType for AdsInt {
    open spec fn spec_size() -> nat {
        2
    }

    closed spec fn spec_bytes(&self) -> Seq<u8> {
        u16_bytes(i16_bits(self.0))
    }

    closed spec fn spec_from_bytes(bytes: Seq<u8>) -> Option<Self> {
        if bytes.len() == 2 {
            Some(AdsInt(signed(u16_le(bytes), 32768) as i16))
        } else {
            None
        }
    }

    proof fn lemma_bytes_roundtrip(v: Self) {
        crate::le::lemma_u16_roundtrip(i16_bits(v.0));
    }

    proof fn lemma_from_bytes(bytes: Seq<u8>) {
        if bytes.len() == 2 {
            crate::le::lemma_u16_bytes_of_value(bytes);
        }
    }

    fn size() -> (n: usize) {
        2
    }

    fn as_bytes(&self) -> (b: Vec<u8>) {
        let mut b: Vec<u8> = Vec::new();
        crate::le::push_u16_le(&mut b, i16_to_bits(self.0));
        b
    }

    fn from_bytes(bytes: &[u8]) -> (r: Option<Self>) {
        if bytes.len() == 2 {
            Some(AdsInt(i16_from_bits(crate::le::read_u16_le(bytes))))
        } else {
            None
        }
    }
}

impl From<i16> for AdsInt {
    fn from(value: i16) -> (r: Self) {
        AdsInt(value)
    }
}

impl vstd::std_specs::convert::FromSpecImpl<i16> for AdsInt {
    open spec fn obeys_from_spec() -> bool {
        true
    }

    closed spec fn from_spec(v: i16) -> AdsInt {
        AdsInt(v)
    }
}

impl From<AdsInt> for i16 {
    fn from(value: AdsInt) -> (r: Self) {
        value.0
    }
}

impl vstd::std_specs::convert::FromSpecImpl<AdsInt> for i16 {
    open spec fn obeys_from_spec() -> bool {
        true
    }

    open spec fn from_spec(v: AdsInt) -> i16 {
        v@
    }
}

// ----- AdsUdint -----
/// A PLC `UDINT`: a 32-bit unsigned integer.
#[derive(Clone, Copy, Debug, Default, PartialEq, Eq)]
pub struct AdsUdint(u32);

impl View for AdsUdint {
    type V = u32;

    closed spec fn view(&self) -> u32 {
        self.0
    }
}

impl PlcDataType for AdsUdint {
    open spec fn spec_size() -> nat {
        4
    }

    closed spec fn spec_bytes(&self) -> Seq<u8> {
        u32_bytes(self.0)
    }

    closed spec fn spec_from_bytes(bytes: Seq<u8>) -> Option<Self> {
        if bytes.len() == 4 {
            Some(AdsUdint(u32_le(bytes) as u32))
        } else {
            None
        }
    }

    proof fn lemma_bytes_roundtrip(v: Self) {
        crate::le::lemma_u32_roundtrip(v.0);
    }

    proof fn lemma_from_bytes(bytes: Seq<u8>) {
        if bytes.len() == 4 {
            crate::le::lemma_u32_bytes_of_value(bytes);
        }
    }

    fn size() -> (n: usize) {
        4
    }

    fn as_bytes(&self) -> (b: Vec<u8>) {
        let mut b: Vec<u8> = Vec::new();
        crate::le::push_u32_le(&mut b, self.0);
        b
    }

    fn from_bytes(bytes: &[u8]) -> (r: Option<Self>) {
        if bytes.len() == 4 {
            Some(AdsUdint(crate::le::read_u32_le(bytes)))
        } else {
            None
        }
    }
}

impl From<u32> for AdsUdint {
    fn from(value: u32) -> (r: Self) {
        AdsUdint(value)
    }
}

impl vstd::std_specs::convert::FromSpecImpl<u32> for AdsUdint {
    open spec fn obeys_from_spec() -> bool {
        true
    }

    closed spec fn from_spec(v: u32) -> AdsUdint {
        AdsUdint(v)
    }
}

impl From<AdsUdint> for u32 {
    fn from(value: AdsUdint) -> (r: Self) {
        value.0
    }
}

impl vstd::std_specs::convert::FromSpecImpl<AdsUdint> for u32 {
    open spec fn obeys_from_spec() -> bool {
        true
    }

    open spec fn from_spec(v: AdsUdint) -> u32 {
        v@
    }
}

// ----- AdsUint -----
/// A PLC `UINT`: a 16-bit unsigned integer.
#[derive(Clone, Copy, Debug, Default, PartialEq, Eq)]
pub struct AdsUint(u16);

impl View for AdsUint {
    type V = u16;

    closed spec fn view(&self) -> u16 {
        self.0
    }
}

impl PlcDataType for AdsUint {
    open spec fn spec_size() -> nat {
        2
    }

    closed spec fn spec_bytes(&self) -> Seq<u8> {
        u16_bytes(self.0)
    }

    closed spec fn spec_from_bytes(bytes: Seq<u8>) -> Option<Self> {
        if bytes.len() == 2 {
            Some(AdsUint(u16_le(bytes) as u16))
        } else {
            None
        }
    }

    proof fn lemma_bytes_roundtrip(v: Self) {
        crate::le::lemma_u16_roundtrip(v.0);
    }

    proof fn lemma_from_bytes(bytes: Seq<u8>) {
        if bytes.len() == 2 {
            crate::le::lemma_u16_bytes_of_value(bytes);
        }
    }

    fn size() -> (n: usize) {
        2
    }

    fn as_bytes(&self) -> (b: Vec<u8>) {
        let mut b: Vec<u8> = Vec::new();
        crate::le::push_u16_le(&mut b, self.0);
        b
    }

    fn from_bytes(bytes: &[u8]) -> (r: Option<Self>) {
        if bytes.len() == 2 {
            Some(AdsUint(crate::le::read_u16_le(bytes)))
        } else {
            None
        }
    }
}

impl From<u16> for AdsUint {
    fn from(value: u16) -> (r: Self) {
        AdsUint(value)
    }
}

impl vstd::std_specs::convert::FromSpecImpl<u16> for AdsUint {
    open spec fn obeys_from_spec() -> bool {
        true
    }

    closed spec fn from_spec(v: u16) -> AdsUint {
        AdsUint(v)
    }
}

impl From<AdsUint> for u16 {
    fn from(value: AdsUint) -> (r: Self) {
        value.0
    }
}

impl vstd::std_specs::convert::FromSpecImpl<AdsUint> for u16 {
    open spec fn obeys_from_spec() -> bool {
        true
    }

    open spec fn from_spec(v: AdsUint) -> u16 {
        v@
    }
}

// ----- AdsWord -----
/// A PLC `WORD`: 16 bits.
#[derive(Clone, Copy, Debug, Default, PartialEq, Eq)]
pub struct AdsWord(u16);

impl View for AdsWord {
    type V = u16;

    closed spec fn view(&self) -> u16 {
        self.0
    }
}

impl PlcDataType for AdsWord {
    open spec fn spec_size() -> nat {
        2
    }

    closed spec fn spec_bytes(&self) -> Seq<u8> {
        u16_bytes(self.0)
    }

    closed spec fn spec_from_bytes(bytes: Seq<u8>) -> Option<Self> {
        if bytes.len() == 2 {
            Some(AdsWord(u16_le(bytes) as u16))
        } else {
            None
        }
    }

    proof fn lemma_bytes_roundtrip(v: Self) {
        crate::le::lemma_u16_roundtrip(v.0);
    }

    proof fn lemma_from_bytes(bytes: Seq<u8>) {
        if bytes.len() == 2 {
            crate::le::lemma_u16_bytes_of_value(bytes);
        }
    }

    fn size() -> (n: usize) {
        2
    }

    fn as_bytes(&self) -> (b: Vec<u8>) {
        let mut b: Vec<u8> = Vec::new();
        crate::le::push_u16_le(&mut b, self.0);
        b
    }

    fn from_bytes(bytes: &[u8]) -> (r: Option<Self>) {
        if bytes.len() == 2 {
            Some(AdsWord(crate::le::read_u16_le(bytes)))
        } else {
            None
        }
    }
}

impl From<AdsWord> for u16 {
    fn from(value: AdsWord) -> (r: Self) {
        value.0
    }
}

impl vstd::std_specs::convert::FromSpecImpl<AdsWord> for u16 {
    open spec fn obeys_from_spec() -> bool {
        true
    }

    open spec fn from_spec(v: AdsWord) -> u16 {
        v@
    }
}

// ----- UDINT from two words -----
/// `bytemuck::cast` of two 16-bit words to a 32-bit value: the four bytes
/// of the words in memory, read back as one value. Both have the machine's
/// byte order, so the first word is the low half on a little-endian machine
/// and the high half on a big-endian one; the contract says no more.
#[verifier::external_body]
fn cast_words(value: [u16; 2]) -> (r: u32)
    ensures
        r == value@[0] + 65536 * value@[1] || r == value@[1] + 65536 * value@[0],
{
    bytemuck::cast(value)
}

impl From<[u16; 2]> for AdsUdint {
    /// The two words read as one value in the machine's word order.
    fn from(value: [u16; 2]) -> (r: Self)
        ensures
            r@ == value@[0] + 65536 * value@[1] || r@ == value@[1] + 65536 * value@[0],
    {
        AdsUdint(cast_words(value))
    }
}

/// The result depends on the machine's byte order, so no single value is
/// promised; `from` states what holds either way.
impl vstd::std_specs::convert::FromSpecImpl<[u16; 2]> for AdsUdint {
    open spec fn obeys_from_spec() -> bool {
        false
    }

    closed spec fn from_spec(v: [u16; 2]) -> AdsUdint {
        AdsUdint((v@[0] + 65536 * v@[1]) as u32)
    }
}

impl AdsUdint {
    /// The value of two 16-bit words laid out in memory, as `From<[u16; 2]>`
    /// makes it.
    pub fn from_words(value: [u16; 2]) -> (r: Self)
        ensures
            r@ == value@[0] + 65536 * value@[1] || r@ == value@[1] + 65536 * value@[0],
    {
        AdsUdint(cast_words(value))
    }
}

// ----- TIME -----
/// A PLC `TIME`: a duration in milliseconds, stored as a `UDINT`.
#[derive(Clone, Copy, Debug, Default, PartialEq, Eq)]
pub struct AdsTime(AdsUdint);

impl View for AdsTime {
    type V = u32;

    closed spec fn view(&self) -> u32 {
        self.0@
    }
}

impl PlcDataType for AdsTime {
    open spec fn spec_size() -> nat {
        4
    }

    closed spec fn spec_bytes(&self) -> Seq<u8> {
        self.0.spec_bytes()
    }

    closed spec fn spec_from_bytes(bytes: Seq<u8>) -> Option<Self> {
        match AdsUdint::spec_from_bytes(bytes) {
            Some(u) => Some(AdsTime(u)),
            None => None,
        }
    }

    proof fn lemma_bytes_roundtrip(v: Self) {
        AdsUdint::lemma_bytes_roundtrip(v.0);
    }

    proof fn lemma_from_bytes(bytes: Seq<u8>) {
        AdsUdint::lemma_from_bytes(bytes);
    }

    fn size() -> (n: usize) {
        4
    }

    fn as_bytes(&self) -> (b: Vec<u8>) {
        self.0.as_bytes()
    }

    fn from_bytes(bytes: &[u8]) -> (r: Option<Self>) {
        match AdsUdint::from_bytes(bytes) {
            Some(u) => Some(AdsTime(u)),
            None => None,
        }
    }
}

impl From<u32> for AdsTime {
    fn from(value: u32) -> (r: Self) {
        AdsTime(AdsUdint(value))
    }
}

impl vstd::std_specs::convert::FromSpecImpl<u32> for AdsTime {
    open spec fn obeys_from_spec() -> bool {
        true
    }

    closed spec fn from_spec(v: u32) -> AdsTime {
        AdsTime(AdsUdint(v))
    }
}

impl From<AdsTime> for u32 {
    fn from(value: AdsTime) -> (r: Self) {
        value.0.0
    }
}

impl vstd::std_specs::convert::FromSpecImpl<AdsTime> for u32 {
    open spec fn obeys_from_spec() -> bool {
        true
    }

    open spec fn from_spec(v: AdsTime) -> u32 {
        v@
    }
}

} // verus!
