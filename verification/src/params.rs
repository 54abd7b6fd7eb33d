//! Parameters of an RPC method call, laid out one after the other.
use crate::data_types::PlcDataType;
use vstd::prelude::*;

verus! {

/// One or more PLC values passed together, as the bytes of each in order.
pub trait PlcParams: Sized {
    /// The bytes of the parameters, one after the other.
    spec fn spec_data(&self) -> Seq<u8>;

    /// The bytes of the parameters, one after the other.
    fn as_data(self) -> (r: Vec<u8>)
        ensures
            r@ == self.spec_data(),
    ;
}

/// Appends `b` to `out`.
fn append_bytes(out: &mut Vec<u8>, b: Vec<u8>)
    ensures
        final(out)@ == old(out)@ + b@,
{
    let mut b = b;
    out.append(&mut b);
}

impl<P1: PlcDataType> PlcParams for P1 {
    open spec fn spec_data(&self) -> Seq<u8> {
        self.spec_bytes()
    }

    fn as_data(self) -> (r: Vec<u8>) {
        self.as_bytes()
    }
}

impl<P1: PlcDataType, P2: PlcDataType> PlcParams for (P1, P2) {
    open spec fn spec_data(&self) -> Seq<u8> {
        self.0.spec_bytes() + self.1.spec_bytes()
    }

    fn as_data(self) -> (r: Vec<u8>)
        ensures
            field_at(r@, 0, P1::spec_size()) == self.0.spec_bytes(),
            field_at(r@, P1::spec_size(), P2::spec_size()) == self.1.spec_bytes(),
    {
        proof {
            lemma_pair_layout(self);
        }
        let mut out = self.0.as_bytes();
        append_bytes(&mut out, self.1.as_bytes());
        out
    }
}

impl<P1: PlcDataType, P2: PlcDataType, P3: PlcDataType> PlcParams for (P1, P2, P3) {
    open spec fn spec_data(&self) -> Seq<u8> {
        self.0.spec_bytes() + self.1.spec_bytes() + self.2.spec_bytes()
    }

    fn as_data(self) -> (r: Vec<u8>)
        ensures
            field_at(r@, 0, P1::spec_size()) == self.0.spec_bytes(),
            field_at(r@, P1::spec_size(), P2::spec_size()) == self.1.spec_bytes(),
            field_at(r@, P1::spec_size() + P2::spec_size(), P3::spec_size()) == self.2.spec_bytes(),
    {
        proof {
            lemma_triple_layout(self);
        }
        let mut out = self.0.as_bytes();
        append_bytes(&mut out, self.1.as_bytes());
        append_bytes(&mut out, self.2.as_bytes());
        out
    }
}

impl<P1: PlcDataType, P2: PlcDataType, P3: PlcDataType, P4: PlcDataType> PlcParams for (
    P1,
    P2,
    P3,
    P4,
) {
    open spec fn spec_data(&self) -> Seq<u8> {
        self.0.spec_bytes() + self.1.spec_bytes() + self.2.spec_bytes() + self.3.spec_bytes()
    }

    fn as_data(self) -> (r: Vec<u8>)
        ensures
            field_at(r@, 0, P1::spec_size()) == self.0.spec_bytes(),
            field_at(r@, P1::spec_size(), P2::spec_size()) == self.1.spec_bytes(),
            field_at(r@, P1::spec_size() + P2::spec_size(), P3::spec_size()) == self.2.spec_bytes(),
            field_at(r@, P1::spec_size() + P2::spec_size() + P3::spec_size(), P4::spec_size())
                == self.3.spec_bytes(),
    {
        proof {
            lemma_quad_layout(self);
        }
        let mut out = self.0.as_bytes();
        append_bytes(&mut out, self.1.as_bytes());
        append_bytes(&mut out, self.2.as_bytes());
        append_bytes(&mut out, self.3.as_bytes());
        out
    }
}

impl<
    P1: PlcDataType,
    P2: PlcDataType,
    P3: PlcDataType,
    P4: PlcDataType,
    P5: PlcDataType,
> PlcParams for (P1, P2, P3, P4, P5) {
    open spec fn spec_data(&self) -> Seq<u8> {
        self.0.spec_bytes() + self.1.spec_bytes() + self.2.spec_bytes() + self.3.spec_bytes()
            + self.4.spec_bytes()
    }

    fn as_data(self) -> (r: Vec<u8>)
        ensures
            field_at(r@, 0, P1::spec_size()) == self.0.spec_bytes(),
            field_at(r@, P1::spec_size(), P2::spec_size()) == self.1.spec_bytes(),
            field_at(r@, P1::spec_size() + P2::spec_size(), P3::spec_size()) == self.2.spec_bytes(),
            field_at(r@, P1::spec_size() + P2::spec_size() + P3::spec_size(), P4::spec_size())
                == self.3.spec_bytes(),
            field_at(
                r@,
                P1::spec_size() + P2::spec_size() + P3::spec_size() + P4::spec_size(),
                P5::spec_size(),
            ) == self.4.spec_bytes(),
    {
        proof {
            lemma_quint_layout(self);
        }
        let mut out = self.0.as_bytes();
        append_bytes(&mut out, self.1.as_bytes());
        append_bytes(&mut out, self.2.as_bytes());
        append_bytes(&mut out, self.3.as_bytes());
        append_bytes(&mut out, self.4.as_bytes());
        out
    }
}

/// The parameter at byte `from` of the data, `size` bytes long.
pub open spec fn field_at(data: Seq<u8>, from: nat, size: nat) -> Seq<u8> {
    data.subrange(from as int, (from + size) as int)
}

/// The data of two parameters is `P1::spec_size() + P2::spec_size()` bytes:
/// the first parameter's bytes, then the second's.
pub proof fn lemma_pair_layout<P1: PlcDataType, P2: PlcDataType>(p: (P1, P2))
    ensures
        p.spec_data().len() == P1::spec_size() + P2::spec_size(),
        field_at(p.spec_data(), 0, P1::spec_size()) == p.0.spec_bytes(),
        field_at(p.spec_data(), P1::spec_size(), P2::spec_size()) == p.1.spec_bytes(),
{
    P1::lemma_bytes_roundtrip(p.0);
    P2::lemma_bytes_roundtrip(p.1);
    let d = p.spec_data();
    assert(field_at(d, 0, P1::spec_size()) =~= p.0.spec_bytes());
    assert(field_at(d, P1::spec_size(), P2::spec_size()) =~= p.1.spec_bytes());
}

/// The data of three parameters holds each one's bytes in turn, each
/// starting where the ones before it end.
pub proof fn lemma_triple_layout<P1: PlcDataType, P2: PlcDataType, P3: PlcDataType>(p: (P1, P2, P3))
    ensures
        p.spec_data().len() == P1::spec_size() + P2::spec_size() + P3::spec_size(),
        field_at(p.spec_data(), 0, P1::spec_size()) == p.0.spec_bytes(),
        field_at(p.spec_data(), P1::spec_size(), P2::spec_size()) == p.1.spec_bytes(),
        field_at(p.spec_data(), P1::spec_size() + P2::spec_size(), P3::spec_size())
            == p.2.spec_bytes(),
{
    P1::lemma_bytes_roundtrip(p.0);
    P2::lemma_bytes_roundtrip(p.1);
    P3::lemma_bytes_roundtrip(p.2);
    let d = p.spec_data();
    let (s1, s2) = (P1::spec_size(), P2::spec_size());
    assert(field_at(d, 0, P1::spec_size()) =~= p.0.spec_bytes());
    assert(field_at(d, s1, P2::spec_size()) =~= p.1.spec_bytes());
    assert(field_at(d, s1 + s2, P3::spec_size()) =~= p.2.spec_bytes());
}

/// The data of four parameters holds each one's bytes in turn, each
/// starting where the ones before it end.
pub proof fn lemma_quad_layout<P1: PlcDataType, P2: PlcDataType, P3: PlcDataType, P4: PlcDataType>(
    p: (P1, P2, P3, P4),
)
    ensures
        p.spec_data().len() == P1::spec_size() + P2::spec_size() + P3::spec_size()
            + P4::spec_size(),
        field_at(p.spec_data(), 0, P1::spec_size()) == p.0.spec_bytes(),
        field_at(p.spec_data(), P1::spec_size(), P2::spec_size()) == p.1.spec_bytes(),
        field_at(p.spec_data(), P1::spec_size() + P2::spec_size(), P3::spec_size())
            == p.2.spec_bytes(),
        field_at(
            p.spec_data(),
            P1::spec_size() + P2::spec_size() + P3::spec_size(),
            P4::spec_size(),
        ) == p.3.spec_bytes(),
{
    P1::lemma_bytes_roundtrip(p.0);
    P2::lemma_bytes_roundtrip(p.1);
    P3::lemma_bytes_roundtrip(p.2);
    P4::lemma_bytes_roundtrip(p.3);
    let d = p.spec_data();
    let (s1, s2, s3) = (P1::spec_size(), P2::spec_size(), P3::spec_size());
    assert(field_at(d, 0, P1::spec_size()) =~= p.0.spec_bytes());
    assert(field_at(d, s1, P2::spec_size()) =~= p.1.spec_bytes());
    assert(field_at(d, s1 + s2, P3::spec_size()) =~= p.2.spec_bytes());
    assert(field_at(d, s1 + s2 + s3, P4::spec_size()) =~= p.3.spec_bytes());
}

/// The data of five parameters holds each one's bytes in turn, each
/// starting where the ones before it end.
pub proof fn lemma_quint_layout<
    P1: PlcDataType,
    P2: PlcDataType,
    P3: PlcDataType,
    P4: PlcDataType,
    P5: PlcDataType,
>(p: (P1, P2, P3, P4, P5))
    ensures
        p.spec_data().len() == P1::spec_size() + P2::spec_size() + P3::spec_size()
            + P4::spec_size() + P5::spec_size(),
        field_at(p.spec_data(), 0, P1::spec_size()) == p.0.spec_bytes(),
        field_at(p.spec_data(), P1::spec_size(), P2::spec_size()) == p.1.spec_bytes(),
        field_at(p.spec_data(), P1::spec_size() + P2::spec_size(), P3::spec_size())
            == p.2.spec_bytes(),
        field_at(
            p.spec_data(),
            P1::spec_size() + P2::spec_size() + P3::spec_size(),
            P4::spec_size(),
        ) == p.3.spec_bytes(),
        field_at(
            p.spec_data(),
            P1::spec_size() + P2::spec_size() + P3::spec_size() + P4::spec_size(),
            P5::spec_size(),
        ) == p.4.spec_bytes(),
{
    P1::lemma_bytes_roundtrip(p.0);
    P2::lemma_bytes_roundtrip(p.1);
    P3::lemma_bytes_roundtrip(p.2);
    P4::lemma_bytes_roundtrip(p.3);
    P5::lemma_bytes_roundtrip(p.4);
    let d = p.spec_data();
    let (s1, s2, s3, s4) = (
        P1::spec_size(),
        P2::spec_size(),
        P3::spec_size(),
        P4::spec_size(),
    );
    assert(field_at(d, 0, P1::spec_size()) =~= p.0.spec_bytes());
    assert(field_at(d, s1, P2::spec_size()) =~= p.1.spec_bytes());
    assert(field_at(d, s1 + s2, P3::spec_size()) =~= p.2.spec_bytes());
    assert(field_at(d, s1 + s2 + s3, P4::spec_size()) =~= p.3.spec_bytes());
    assert(field_at(d, s1 + s2 + s3 + s4, P5::spec_size()) =~= p.4.spec_bytes());
}

} // verus!
