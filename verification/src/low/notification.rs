//! Notification messages: the samples a PLC sends for the notifications a
//! client added.
//!
//! After the 4-byte length field, a notification's payload holds a count
//! of stamps and then the stamps; each stamp is a 64-bit timestamp, a count
//! of samples and the samples; each sample is a notification handle, a
//! data length and that many data bytes. All numbers are little-endian.
use crate::le::{
    lemma_u32_roundtrip, lemma_u64_roundtrip, read_u32_le, read_u64_le, u32_bytes, u32_le, u64_bytes,
    u64_le,
};
use vstd::prelude::*;

verus! {

/// One sample of a notification.
#[derive(Debug, Clone, PartialEq, Eq)]
pub struct Sample {
    /// The handle of the notification the data belongs to.
    pub handle: u32,
    /// When the data was taken (100 ns units since 1601-01-01).
    pub timestamp: u64,
    /// The data.
    pub data: Vec<u8>,
}

/// A sample by its parts.
pub type SampleView = (u32, u64, Seq<u8>);

impl View for Sample {
    type V = SampleView;

    open spec fn view(&self) -> SampleView {
        (self.handle, self.timestamp, self.data@)
    }
}

/// `n` samples taken at `ts` at the start of `d`, and what follows them;
/// `None` if they do not fit.
pub open spec fn parse_samples(d: Seq<u8>, n: nat, ts: u64) -> Option<(Seq<SampleView>, Seq<u8>)>
    decreases n,
{
    if n == 0 {
        Some((Seq::empty(), d))
    } else if d.len() < 8 {
        None
    } else {
        let handle = u32_le(d) as u32;
        let len = u32_le(d.skip(4));
        let r = d.skip(8);
        if r.len() < len {
            None
        } else {
            prepend(seq![(handle, ts, r.take(len))], parse_samples(r.skip(len), (n - 1) as nat, ts))
        }
    }
}

/// `acc` in front of the samples of a parse, if it succeeded.
pub open spec fn prepend(acc: Seq<SampleView>, p: Option<(Seq<SampleView>, Seq<u8>)>) -> Option<
    (Seq<SampleView>, Seq<u8>),
> {
    match p {
        Some((s, rest)) => Some((acc + s, rest)),
        None => None,
    }
}

/// `n` stamps at the start of `d`, by their samples in order, and what
/// follows them; `None` if they do not fit.
pub open spec fn parse_stamps(d: Seq<u8>, n: nat) -> Option<(Seq<SampleView>, Seq<u8>)>
    decreases n,
{
    if n == 0 {
        Some((Seq::empty(), d))
    } else if d.len() < 12 {
        None
    } else {
        let ts = u64_le(d) as u64;
        let ns = u32_le(d.skip(8)) as nat;
        match parse_samples(d.skip(12), ns, ts) {
            None => None,
            Some((s, rest)) => prepend(s, parse_stamps(rest, (n - 1) as nat)),
        }
    }
}

/// The samples of a notification payload (starting with the length field),
/// when its stamps fill it exactly.
pub open spec fn notification_samples(payload: Seq<u8>) -> Option<Seq<SampleView>> {
    if payload.len() < 8 {
        None
    } else {
        match parse_stamps(payload.skip(8), u32_le(payload.skip(4)) as nat) {
            Some((s, rest)) => if rest.len() == 0 {
                Some(s)
            } else {
                None
            },
            None => None,
        }
    }
}

proof fn lemma_prepend_assoc(a: Seq<SampleView>, b: Seq<SampleView>, p: Option<(Seq<SampleView>, Seq<u8>)>)
    ensures
        prepend(a, prepend(b, p)) == prepend(a + b, p),
{
    if let Some((s, rest)) = p {
        assert(a + (b + s) =~= (a + b) + s);
    }
}

/// The data bytes `d[from..from + n]` as a vector.
fn copy_range(d: &[u8], from: usize, n: usize) -> (r: Vec<u8>)
    requires
        from + n <= d@.len(),
    ensures
        r@ == d@.skip(from as int).take(n as int),
{
    let l = d.len();
    let r = crate::le::copy_bytes(&d[from..from + n]);
    assert(d@.subrange(from as int, from + n) =~= d@.skip(from as int).take(n as int));
    r
}

/// Parses the samples of a stamp starting at `pos`, appending them to
/// `out`; the position after them, or `None` if they do not fit.
fn samples_at(d: &[u8], pos: usize, n: u32, ts: u64, out: &mut Vec<Sample>) -> (r: Option<usize>)
    requires
        pos <= d@.len(),
    ensures
        match parse_samples(d@.skip(pos as int), n as nat, ts) {
            Some((s, rest)) => r matches Some(p) && pos <= p <= d@.len() && rest == d@.skip(p as int)
                && final(out)@.map_values(|x: Sample| x@) == old(out)@.map_values(|x: Sample| x@) + s,
            None => r is None,
        },
{
    let len = d.len();
    let mut p = pos;
    let mut k: u32 = 0;
    let ghost start = old(out)@.map_values(|x: Sample| x@);
    let ghost acc: Seq<SampleView> = Seq::empty();
    while k < n
        invariant
            len == d@.len(),
            pos <= p <= len,
            k <= n,
            out@.map_values(|x: Sample| x@) == start + acc,
            start == old(out)@.map_values(|x: Sample| x@),
            parse_samples(d@.skip(pos as int), n as nat, ts) == prepend(
                acc,
                parse_samples(d@.skip(p as int), (n - k) as nat, ts),
            ),
        decreases n - k,
    {
        let ghost rem = d@.skip(p as int);
        if len - p < 8 {
            return None;
        }
        let handle = read_u32_le(&d[p..len]);
        let dlen = read_u32_le(&d[p + 4..len]);
        assert(d@.subrange(p as int, len as int) =~= rem);
        assert(d@.subrange(p + 4, len as int) =~= rem.skip(4));
        let q = p + 8;
        assert(rem.skip(8) =~= d@.skip(q as int));
        if ((len - q) as u64) < (dlen as u64) {
            return None;
        }
        let data = copy_range(d, q, dlen as usize);
        let sample = Sample { handle, timestamp: ts, data };
        let ghost item: SampleView = (handle, ts, d@.skip(q as int).take(dlen as int));
        assert(sample@ == item);
        let ghost prev_out = out@;
        out.push(sample);
        assert(out@.map_values(|x: Sample| x@) =~= prev_out.map_values(|x: Sample| x@).push(item));
        proof {
            lemma_prepend_assoc(acc, seq![item], parse_samples(
                d@.skip(q + dlen as int),
                (n - k - 1) as nat,
                ts,
            ));
            assert(d@.skip(q as int).skip(dlen as int) =~= d@.skip(q + dlen as int));
            acc = acc + seq![item];
        }
        assert(out@.map_values(|x: Sample| x@) =~= start + acc);
        p = q + dlen as usize;
        k = k + 1;
    }
    assert(acc =~= acc + Seq::<SampleView>::empty());
    Some(p)
}

/// Parses a notification payload (starting with its length field) into its
/// samples, in order; `None` unless its stamps fill it exactly.
pub fn parse_notification(payload: &[u8]) -> (r: Option<Vec<Sample>>)
    ensures
        match notification_samples(payload@) {
            Some(s) => r matches Some(v) && v@.map_values(|x: Sample| x@) == s,
            None => r is None,
        },
{
    let len = payload.len();
    if len < 8 {
        return None;
    }
    let nstamps = read_u32_le(&payload[4..len]);
    assert(payload@.subrange(4, len as int) =~= payload@.skip(4));
    let mut out: Vec<Sample> = Vec::new();
    let mut p: usize = 8;
    let mut k: u32 = 0;
    let ghost acc: Seq<SampleView> = Seq::empty();
    assert(out@.map_values(|x: Sample| x@) =~= acc);
    while k < nstamps
        invariant
            len == payload@.len(),
            8 <= p <= len,
            k <= nstamps,
            nstamps == u32_le(payload@.skip(4)) as u32,
            out@.map_values(|x: Sample| x@) == acc,
            parse_stamps(payload@.skip(8), nstamps as nat) == prepend(
                acc,
                parse_stamps(payload@.skip(p as int), (nstamps - k) as nat),
            ),
        decreases nstamps - k,
    {
        let ghost rem = payload@.skip(p as int);
        if len - p < 12 {
            return None;
        }
        let ts = read_u64_le(&payload[p..len]);
        let ns = read_u32_le(&payload[p + 8..len]);
        assert(payload@.subrange(p as int, len as int) =~= rem);
        assert(payload@.subrange(p + 8, len as int) =~= rem.skip(8));
        assert(rem.skip(12) =~= payload@.skip(p + 12));
        let ghost before = out@.map_values(|x: Sample| x@);
        match samples_at(payload, p + 12, ns, ts, &mut out) {
            Some(q) => {
                proof {
                    let parsed = parse_samples(payload@.skip(p + 12), ns as nat, ts)->0;
                    let s = parsed.0;
                    lemma_prepend_assoc(acc, s, parse_stamps(
                        payload@.skip(q as int),
                        (nstamps - k - 1) as nat,
                    ));
                    acc = acc + s;
                }
                p = q;
            },
            None => {
                return None;
            },
        }
        k = k + 1;
    }
    assert(acc =~= acc + Seq::<SampleView>::empty());
    if p != len {
        return None;
    }
    assert(payload@.skip(p as int).len() == 0);
    Some(out)
}

/// The data of the samples for notification `handle`, in order.
pub open spec fn samples_for(samples: Seq<SampleView>, handle: u32) -> Seq<Seq<u8>>
    decreases samples.len(),
{
    if samples.len() == 0 {
        Seq::empty()
    } else {
        let front = samples_for(samples.drop_last(), handle);
        if samples.last().0 == handle {
            front.push(samples.last().2)
        } else {
            front
        }
    }
}

/// The data of the samples that belong to notification `handle`.
pub fn matching_samples(samples: &Vec<Sample>, handle: u32) -> (r: Vec<Vec<u8>>)
    ensures
        r@.map_values(|d: Vec<u8>| d@) == samples_for(samples@.map_values(|x: Sample| x@), handle),
{
    let ghost sv = samples@.map_values(|x: Sample| x@);
    let mut out: Vec<Vec<u8>> = Vec::new();
    let mut i: usize = 0;
    while i < samples.len()
        invariant
            i <= samples@.len(),
            sv == samples@.map_values(|x: Sample| x@),
            out@.map_values(|d: Vec<u8>| d@) == samples_for(sv.take(i as int), handle),
        decreases samples@.len() - i,
    {
        assert(sv.take(i + 1).drop_last() =~= sv.take(i as int));
        if samples[i].handle == handle {
            out.push(crate::le::copy_bytes(samples[i].data.as_slice()));
        }
        assert(out@.map_values(|d: Vec<u8>| d@) =~= samples_for(sv.take(i + 1), handle));
        i = i + 1;
    }
    assert(sv.take(i as int) =~= sv);
    out
}

} // verus!

verus! {

// ----- The layout a PLC sends, and what parsing it gives. -----
/// A sample as a PLC lays it out: its handle, the length of its data, and
/// the data.
pub open spec fn sample_bytes(handle: u32, data: Seq<u8>) -> Seq<u8> {
    u32_bytes(handle) + u32_bytes(data.len() as u32) + data
}

/// Samples `(handle, data)` laid out one after the other.
pub open spec fn samples_bytes(ss: Seq<(u32, Seq<u8>)>) -> Seq<u8>
    decreases ss.len(),
{
    if ss.len() == 0 {
        Seq::empty()
    } else {
        sample_bytes(ss[0].0, ss[0].1) + samples_bytes(ss.drop_first())
    }
}

/// A stamp as a PLC lays it out: its timestamp, the number of its samples,
/// and the samples.
pub open spec fn stamp_bytes(ts: u64, ss: Seq<(u32, Seq<u8>)>) -> Seq<u8> {
    u64_bytes(ts) + u32_bytes(ss.len() as u32) + samples_bytes(ss)
}

/// Stamps `(timestamp, samples)` laid out one after the other.
pub open spec fn stamps_bytes(st: Seq<(u64, Seq<(u32, Seq<u8>)>)>) -> Seq<u8>
    decreases st.len(),
{
    if st.len() == 0 {
        Seq::empty()
    } else {
        stamp_bytes(st[0].0, st[0].1) + stamps_bytes(st.drop_first())
    }
}

/// A notification payload: the length field, the number of stamps, and the
/// stamps.
pub open spec fn notification_bytes(length: u32, st: Seq<(u64, Seq<(u32, Seq<u8>)>)>) -> Seq<u8> {
    u32_bytes(length) + u32_bytes(st.len() as u32) + stamps_bytes(st)
}

/// The samples of one stamp, each with the stamp's timestamp.
pub open spec fn stamped(ts: u64, ss: Seq<(u32, Seq<u8>)>) -> Seq<SampleView> {
    ss.map_values(|x: (u32, Seq<u8>)| (x.0, ts, x.1))
}

/// Every sample of every stamp, stamp after stamp, each in its stamp's order.
pub open spec fn all_samples(st: Seq<(u64, Seq<(u32, Seq<u8>)>)>) -> Seq<SampleView>
    decreases st.len(),
{
    if st.len() == 0 {
        Seq::empty()
    } else {
        stamped(st[0].0, st[0].1) + all_samples(st.drop_first())
    }
}

/// Every count and length of the stamps fits the 32 bits the layout gives
/// it.
pub open spec fn counts_fit(st: Seq<(u64, Seq<(u32, Seq<u8>)>)>) -> bool {
    &&& st.len() <= u32::MAX
    &&& forall|k: int| 0 <= k < st.len() ==> (#[trigger] st[k]).1.len() <= u32::MAX
    &&& forall|k: int, j: int|
        0 <= k < st.len() && 0 <= j < st[k].1.len() ==> (#[trigger] st[k].1[j]).1.len() <= u32::MAX
}

proof fn lemma_u32_prefix(v: u32, rest: Seq<u8>)
    ensures
        u32_le(u32_bytes(v) + rest) == v,
{
    lemma_u32_roundtrip(v);
    let b = u32_bytes(v) + rest;
    assert(b[0] == u32_bytes(v)[0] && b[1] == u32_bytes(v)[1] && b[2] == u32_bytes(v)[2] && b[3]
        == u32_bytes(v)[3]);
}

proof fn lemma_u64_prefix(v: u64, rest: Seq<u8>)
    ensures
        u64_le(u64_bytes(v) + rest) == v,
{
    lemma_u64_roundtrip(v);
    let b = u64_bytes(v) + rest;
    let e = u64_bytes(v);
    assert(b[0] == e[0] && b[1] == e[1] && b[2] == e[2] && b[3] == e[3]);
    assert(b.subrange(4, 8) =~= e.subrange(4, 8));
}

/// `a + b + c` followed by `x`, regrouped.
proof fn lemma_regroup<T>(a: Seq<T>, b: Seq<T>, c: Seq<T>, x: Seq<T>)
    ensures
        (a + b + c) + x == a + (b + (c + x)),
        (a + (b + (c + x))).skip(a.len() as int) == b + (c + x),
        (b + (c + x)).skip(b.len() as int) == c + x,
{
    assert((a + b + c) + x =~= a + (b + (c + x)));
    assert((a + (b + (c + x))).skip(a.len() as int) =~= b + (c + x));
    assert((b + (c + x)).skip(b.len() as int) =~= c + x);
}

/// The front `a` of `a + x` is `a`, and what follows it is `x`.
proof fn lemma_split_at<T>(a: Seq<T>, x: Seq<T>)
    ensures
        (a + x).take(a.len() as int) == a,
        (a + x).skip(a.len() as int) == x,
{
    assert((a + x).take(a.len() as int) =~= a);
    assert((a + x).skip(a.len() as int) =~= x);
}

/// A laid-out sample followed by `x` reads as the sample, then `x`.
proof fn lemma_one_sample(h: u32, data: Seq<u8>, x: Seq<u8>)
    requires
        data.len() <= u32::MAX,
    ensures
        ({
            let d = sample_bytes(h, data) + x;
            &&& d.len() >= 8
            &&& u32_le(d) == h
            &&& u32_le(d.skip(4)) == data.len()
            &&& d.skip(8) == data + x
        }),
{
    let a = u32_bytes(h);
    let b = u32_bytes(data.len() as u32);
    lemma_u32_roundtrip(h);
    lemma_u32_roundtrip(data.len() as u32);
    lemma_regroup(a, b, data, x);
    lemma_u32_prefix(h, b + (data + x));
    lemma_u32_prefix(data.len() as u32, data + x);
    let d = sample_bytes(h, data) + x;
    assert(d.skip(8) =~= (b + (data + x)).skip(4));
}

/// A laid-out stamp header followed by `x` reads as the header, then `x`.
proof fn lemma_one_stamp(ts: u64, n: u32, y: Seq<u8>, x: Seq<u8>)
    ensures
        ({
            let d = u64_bytes(ts) + u32_bytes(n) + y + x;
            &&& d.len() >= 12
            &&& u64_le(d) == ts
            &&& u32_le(d.skip(8)) == n
            &&& d.skip(12) == y + x
        }),
{
    let a = u64_bytes(ts);
    let b = u32_bytes(n);
    lemma_u64_roundtrip(ts);
    lemma_u32_roundtrip(n);
    lemma_regroup(a, b, y, x);
    lemma_u64_prefix(ts, b + (y + x));
    lemma_u32_prefix(n, y + x);
    let d = u64_bytes(ts) + u32_bytes(n) + y + x;
    assert(d.skip(12) =~= (b + (y + x)).skip(4));
}

proof fn lemma_parse_laid_out_samples(ss: Seq<(u32, Seq<u8>)>, ts: u64, rest: Seq<u8>)
    requires
        forall|j: int| 0 <= j < ss.len() ==> (#[trigger] ss[j]).1.len() <= u32::MAX,
    ensures
        parse_samples(samples_bytes(ss) + rest, ss.len(), ts) == Some((stamped(ts, ss), rest)),
    decreases ss.len(),
{
    if ss.len() == 0 {
        assert(samples_bytes(ss) + rest =~= rest);
        assert(stamped(ts, ss) =~= Seq::<SampleView>::empty());
    } else {
        let h = ss[0].0;
        let data = ss[0].1;
        let tail = ss.drop_first();
        assert forall|j: int| 0 <= j < tail.len() implies (#[trigger] tail[j]).1.len() <= u32::MAX by {
            assert(tail[j] == ss[j + 1]);
        }
        lemma_parse_laid_out_samples(tail, ts, rest);
        let x = samples_bytes(tail) + rest;
        let d = samples_bytes(ss) + rest;
        assert(d == sample_bytes(h, data) + x) by {
            assert(d =~= sample_bytes(h, data) + x);
        }
        lemma_one_sample(h, data, x);
        lemma_split_at(data, x);
        assert(stamped(ts, ss) =~= seq![(h, ts, data)] + stamped(ts, tail));
    }
}

proof fn lemma_parse_laid_out_stamps(st: Seq<(u64, Seq<(u32, Seq<u8>)>)>, rest: Seq<u8>)
    requires
        counts_fit(st),
    ensures
        parse_stamps(stamps_bytes(st) + rest, st.len()) == Some((all_samples(st), rest)),
    decreases st.len(),
{
    if st.len() == 0 {
        assert(stamps_bytes(st) + rest =~= rest);
    } else {
        let ts = st[0].0;
        let ss = st[0].1;
        let tail = st.drop_first();
        assert(counts_fit(tail)) by {
            assert forall|k: int| 0 <= k < tail.len() implies (#[trigger] tail[k]).1.len() <= u32::MAX by {
                assert(tail[k] == st[k + 1]);
            }
            assert forall|k: int, j: int|
                0 <= k < tail.len() && 0 <= j < tail[k].1.len() implies (#[trigger] tail[k].1[j]).1.len()
                <= u32::MAX by {
                assert(tail[k] == st[k + 1]);
            }
        }
        assert(ss.len() <= u32::MAX);
        assert forall|j: int| 0 <= j < ss.len() implies (#[trigger] ss[j]).1.len() <= u32::MAX by {
            assert(st[0].1[j] == ss[j]);
        }
        lemma_parse_laid_out_stamps(tail, rest);
        let x = stamps_bytes(tail) + rest;
        lemma_parse_laid_out_samples(ss, ts, x);
        let d = stamps_bytes(st) + rest;
        assert(d == u64_bytes(ts) + u32_bytes(ss.len() as u32) + samples_bytes(ss) + x) by {
            assert(d =~= u64_bytes(ts) + u32_bytes(ss.len() as u32) + samples_bytes(ss) + x);
        }
        lemma_one_stamp(ts, ss.len() as u32, samples_bytes(ss), x);
    }
}

/// Parsing a notification gives every sample of every stamp it holds,
/// stamp after stamp and in each stamp's order, each with its stamp's
/// timestamp; the length field is not read.
pub proof fn lemma_notification_gives_every_sample(length: u32, st: Seq<(u64, Seq<(u32, Seq<u8>)>)>)
    requires
        counts_fit(st),
    ensures
        notification_samples(notification_bytes(length, st)) == Some(all_samples(st)),
{
    let p = notification_bytes(length, st);
    lemma_u32_roundtrip(length);
    lemma_u32_roundtrip(st.len() as u32);
    assert(p.skip(4) =~= u32_bytes(st.len() as u32) + stamps_bytes(st));
    lemma_u32_prefix(st.len() as u32, stamps_bytes(st));
    assert(p.skip(8) =~= stamps_bytes(st) + Seq::<u8>::empty());
    lemma_parse_laid_out_stamps(st, Seq::empty());
}

/// The samples of a notification number as many as its stamps hold
/// together, and the samples of each stamp come in a block, at the place
/// given by the stamps before it, each with that stamp's timestamp.
pub proof fn lemma_notification_stamp_blocks(length: u32, st: Seq<(u64, Seq<(u32, Seq<u8>)>)>, k: int)
    requires
        counts_fit(st),
        0 <= k < st.len(),
    ensures
        notification_samples(notification_bytes(length, st)) matches Some(s) && s.len()
            == all_samples(st).len() && s.subrange(
            all_samples(st.take(k)).len() as int,
            (all_samples(st.take(k)).len() + st[k].1.len()) as int,
        ) == stamped(st[k].0, st[k].1),
    decreases k,
{
    lemma_notification_gives_every_sample(length, st);
    lemma_all_samples_split(st, k);
}

proof fn lemma_all_samples_split(st: Seq<(u64, Seq<(u32, Seq<u8>)>)>, k: int)
    requires
        0 <= k < st.len(),
    ensures
        all_samples(st) == all_samples(st.take(k)) + stamped(st[k].0, st[k].1) + all_samples(
            st.skip(k + 1),
        ),
    decreases k,
{
    if k == 0 {
        assert(st.take(0) =~= Seq::<(u64, Seq<(u32, Seq<u8>)>)>::empty());
        assert(st.skip(1) =~= st.drop_first());
        assert(all_samples(st.take(0)) =~= Seq::<SampleView>::empty());
        assert(all_samples(st) =~= all_samples(st.take(k)) + stamped(st[k].0, st[k].1) + all_samples(
            st.skip(k + 1),
        ));
    } else {
        let tail = st.drop_first();
        lemma_all_samples_split(tail, k - 1);
        assert(tail.take(k - 1) =~= st.take(k).drop_first());
        assert(tail.skip(k) =~= st.skip(k + 1));
        assert(tail[k - 1] == st[k]);
        assert(st.take(k)[0] == st[0]);
        assert(all_samples(st.take(k)) == stamped(st[0].0, st[0].1) + all_samples(tail.take(k - 1)));
        assert(all_samples(st) =~= all_samples(st.take(k)) + stamped(st[k].0, st[k].1) + all_samples(
            st.skip(k + 1),
        ));
    }
}

} // verus!
