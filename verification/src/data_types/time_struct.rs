//! The PLC's `TIMESTRUCT`: a date and time as eight 16-bit words.
use crate::data_types::{AdsWord, PlcDataType};
use crate::le::{u16_bytes, u16_le};
use crate::timestamp::{valid_parts, Timestamp, TimestampParts};
use vstd::prelude::*;

verus! {

/// A date and time as the PLC stores it: year (1970 to 2106), month (1 to
/// 12), day of the week (0 to 6, Sunday is 0), day of the month, hour,
/// minute, second and millisecond, each a 16-bit word.
#[derive(Clone, Copy, Debug, Default, PartialEq, Eq)]
pub struct AdsTimeStruct {
    year: AdsWord,
    month: AdsWord,
    day_of_week: AdsWord,
    day: AdsWord,
    hour: AdsWord,
    minute: AdsWord,
    second: AdsWord,
    milliseconds: AdsWord,
}

impl View for AdsTimeStruct {
    /// The eight words in their order.
    type V = Seq<u16>;

    closed spec fn view(&self) -> Seq<u16> {
        seq![
            self.year@,
            self.month@,
            self.day_of_week@,
            self.day@,
            self.hour@,
            self.minute@,
            self.second@,
            self.milliseconds@,
        ]
    }
}

/// The date and time a time struct's words name; the day of the week is
/// not used.
pub open spec fn time_struct_parts(w: Seq<u16>) -> TimestampParts {
    TimestampParts {
        year: w[0],
        month: w[1],
        day: w[3],
        hour: w[4],
        minute: w[5],
        second: w[6],
        millisecond: w[7],
    }
}

/// The little-endian bytes of the words, one after the other.
pub open spec fn words_bytes(w: Seq<u16>) -> Seq<u8>
    decreases w.len(),
{
    if w.len() == 0 {
        Seq::empty()
    } else {
        words_bytes(w.drop_last()) + u16_bytes(w.last())
    }
}

proof fn lemma_words_bytes(w: Seq<u16>)
    ensures
        words_bytes(w).len() == 2 * w.len(),
        forall|i: int|
            0 <= i < w.len() ==> u16_le(words_bytes(w).skip(2 * i)) == #[trigger] w[i]
                && words_bytes(w).skip(2 * i).take(2) == u16_bytes(w[i]),
    decreases w.len(),
{
    if w.len() > 0 {
        let front = w.drop_last();
        lemma_words_bytes(front);
        let b = words_bytes(w);
        assert forall|i: int| 0 <= i < w.len() implies u16_le(b.skip(2 * i)) == #[trigger] w[i]
            && b.skip(2 * i).take(2) == u16_bytes(w[i]) by {
            crate::le::lemma_u16_roundtrip(w[i]);
            if i < w.len() - 1 {
                assert(b.skip(2 * i).take(2) =~= words_bytes(front).skip(2 * i).take(2));
                assert(front[i] == w[i]);
                assert(words_bytes(front).skip(2 * i).take(2) == u16_bytes(front[i]));
            } else {
                assert(b.skip(2 * i).take(2) =~= u16_bytes(w[i]));
            }
            assert(u16_le(b.skip(2 * i)) == u16_le(b.skip(2 * i).take(2)));
        }
    }
}

impl AdsTimeStruct {
    /// The date and time, or `None` when chrono rejects the date or the
    /// time of day.
    pub fn to_timestamp(&self) -> (r: Option<Timestamp>)
        ensures
            r is Some <==> valid_parts(time_struct_parts(self@)),
            r matches Some(t) ==> t.parts() == time_struct_parts(self@),
    {
        Timestamp::from_parts(
            self.year.into(),
            self.month.into(),
            self.day.into(),
            self.hour.into(),
            self.minute.into(),
            self.second.into(),
            self.milliseconds.into(),
        )
    }
}

impl From<AdsTimeStruct> for Option<Timestamp> {
    fn from(value: AdsTimeStruct) -> (r: Self) {
        let r = value.to_timestamp();
        proof {
            if let Some(t) = r {
                let c = choose|c: Timestamp| c.parts() == time_struct_parts(value@);
                crate::timestamp::lemma_parts_determine(t, c, time_struct_parts(value@));
            }
        }
        r
    }
}

/// The conversion is `AdsTimeStruct::to_timestamp`: the timestamp with the
/// structure's parts, when they name a date-time.
impl vstd::std_specs::convert::FromSpecImpl<AdsTimeStruct> for Option<Timestamp> {
    open spec fn obeys_from_spec() -> bool {
        true
    }

    open spec fn from_spec(v: AdsTimeStruct) -> Option<Timestamp> {
        if valid_parts(time_struct_parts(v@)) {
            Some(choose|t: Timestamp| t.parts() == time_struct_parts(v@))
        } else {
            None
        }
    }
}

impl PlcDataType for AdsTimeStruct {
    open spec fn spec_size() -> nat {
        16
    }

    closed spec fn spec_bytes(&self) -> Seq<u8> {
        words_bytes(self@)
    }

    closed spec fn spec_from_bytes(bytes: Seq<u8>) -> Option<Self> {
        if bytes.len() == 16 {
            Some(
                AdsTimeStruct {
                    year: AdsWord(u16_le(bytes) as u16),
                    month: AdsWord(u16_le(bytes.skip(2)) as u16),
                    day_of_week: AdsWord(u16_le(bytes.skip(4)) as u16),
                    day: AdsWord(u16_le(bytes.skip(6)) as u16),
                    hour: AdsWord(u16_le(bytes.skip(8)) as u16),
                    minute: AdsWord(u16_le(bytes.skip(10)) as u16),
                    second: AdsWord(u16_le(bytes.skip(12)) as u16),
                    milliseconds: AdsWord(u16_le(bytes.skip(14)) as u16),
                },
            )
        } else {
            None
        }
    }

    proof fn lemma_bytes_roundtrip(v: Self) {
        lemma_words_bytes(v@);
        let b = v.spec_bytes();
        assert(b.skip(0) =~= b);
        let w = Self::spec_from_bytes(b).unwrap();
        assert(v@[1] == v.month@);
        assert(u16_le(b.skip(2 * 1int)) == v@[1]);
        assert(u16_le(b.skip(2 * 2int)) == v@[2]);
        assert(u16_le(b.skip(2 * 3int)) == v@[3]);
        assert(u16_le(b.skip(2 * 4int)) == v@[4]);
        assert(u16_le(b.skip(2 * 5int)) == v@[5]);
        assert(u16_le(b.skip(2 * 6int)) == v@[6]);
        assert(u16_le(b.skip(2 * 7int)) == v@[7]);
        assert(u16_le(b.skip(2 * 0int)) == v@[0]);
    }

    proof fn lemma_from_bytes(bytes: Seq<u8>) {
        if bytes.len() == 16 {
            let w = Self::spec_from_bytes(bytes).unwrap();
            lemma_words_bytes(w@);
            assert forall|i: int| 0 <= i < 8 implies #[trigger] bytes.skip(2 * i).take(2) == u16_bytes(w@[i]) by {
                crate::le::lemma_u16_bytes_of_value(bytes.skip(2 * i).take(2));
                assert(u16_le(bytes.skip(2 * i).take(2)) == u16_le(bytes.skip(2 * i)));
            }
            assert forall|k: int| 0 <= k < 16 implies #[trigger] w.spec_bytes()[k] == bytes[k] by {
                let i = k / 2;
                assert(w@[i] == w@[i]);
                assert(w.spec_bytes().skip(2 * i).take(2) == u16_bytes(w@[i]));
                assert(w.spec_bytes()[k] == w.spec_bytes().skip(2 * i).take(2)[k - 2 * i]);
                assert(bytes[k] == bytes.skip(2 * i).take(2)[k - 2 * i]);
            }
            assert(w.spec_bytes() =~= bytes);
        }
    }

    fn size() -> (n: usize) {
        16
    }

    fn as_bytes(&self) -> (b: Vec<u8>) {
        let mut b: Vec<u8> = Vec::new();
        crate::le::push_u16_le(&mut b, self.year.into());
        crate::le::push_u16_le(&mut b, self.month.into());
        crate::le::push_u16_le(&mut b, self.day_of_week.into());
        crate::le::push_u16_le(&mut b, self.day.into());
        crate::le::push_u16_le(&mut b, self.hour.into());
        crate::le::push_u16_le(&mut b, self.minute.into());
        crate::le::push_u16_le(&mut b, self.second.into());
        crate::le::push_u16_le(&mut b, self.milliseconds.into());
        proof {
            reveal_with_fuel(words_bytes, 9);
        }
        assert(b@ =~= words_bytes(self@));
        b
    }

    fn from_bytes(bytes: &[u8]) -> (r: Option<Self>) {
        if bytes.len() != 16 {
            return None;
        }
        let w = |k: usize| -> (r: AdsWord)
            requires
                k <= 14,
                bytes@.len() == 16,
            ensures
                r == AdsWord(u16_le(bytes@.skip(k as int)) as u16),
            {
                let v = crate::le::read_u16_le(&bytes[k..16]);
                assert(bytes@.subrange(k as int, 16).take(2) =~= bytes@.skip(k as int).take(2));
                AdsWord(v)
            };
        assert(bytes@.skip(0) =~= bytes@);
        Some(
            AdsTimeStruct {
                year: w(0),
                month: w(2),
                day_of_week: w(4),
                day: w(6),
                hour: w(8),
                minute: w(10),
                second: w(12),
                milliseconds: w(14),
            },
        )
    }
}

} // verus!
