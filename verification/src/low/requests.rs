//! Sub-requests of the ADS "sum" commands, which bundle several reads,
//! writes or notification changes into one round trip.
use crate::low::errors::{ads_error, Error};
use vstd::prelude::*;

verus! {

/// When notifications should be generated.
#[derive(Clone, Copy, Debug, PartialEq, Eq, Structural)]
pub enum TransmissionMode {
    /// No transmission.
    NoTrans,
    /// Notify each server cycle.
    ServerCycle,
    /// Notify when the content changes.
    ServerOnChange,
}

/// When notifications should be generated, under the name the high-level
/// client uses.
pub type NotificationTransmissionMode = TransmissionMode;

/// The number that stands for a transmission mode on the wire.
pub open spec fn mode_code(m: TransmissionMode) -> u32 {
    match m {
        TransmissionMode::NoTrans => 0,
        TransmissionMode::ServerCycle => 3,
        TransmissionMode::ServerOnChange => 4,
    }
}

impl TransmissionMode {
    /// The number that stands for this mode on the wire.
    pub fn code(self) -> (r: u32)
        ensures
            r == mode_code(self),
    {
        match self {
            TransmissionMode::NoTrans => 0,
            TransmissionMode::ServerCycle => 3,
            TransmissionMode::ServerOnChange => 4,
        }
    }
}

/// Attributes for creating a notification; durations are in milliseconds.
#[derive(Clone, Copy, Debug, PartialEq, Eq, Structural)]
pub struct NotificationAttributes {
    /// Length of data the notification is interested in.
    pub length: usize,
    /// When notification messages should be transmitted.
    pub trans_mode: TransmissionMode,
    /// The maximum delay between change and transmission.
    pub max_delay_ms: u128,
    /// The cycle time for checking for changes.
    pub cycle_time_ms: u128,
}

impl NotificationAttributes {
    /// Notification attributes from their parts.
    pub fn new(length: usize, trans_mode: TransmissionMode, max_delay_ms: u128, cycle_time_ms: u128) -> (r: Self)
        ensures
            r == (NotificationAttributes { length, trans_mode, max_delay_ms, cycle_time_ms }),
    {
        NotificationAttributes { length, trans_mode, max_delay_ms, cycle_time_ms }
    }
}

// ----- Read -----
/// A single request of a multi-read.
pub struct ReadRequest {
    index_group: u32,
    index_offset: u32,
    length: u32,
    result: u32,
    result_length: u32,
    rbuf: Vec<u8>,
}

/// What a `ReadRequest` holds.
pub struct ReadRequestView {
    pub index_group: u32,
    pub index_offset: u32,
    /// The length asked for, as sent on the wire.
    pub length: u32,
    /// The ADS result code of the reply (0 until a reply arrived).
    pub result: u32,
    /// The number of bytes the reply carried.
    pub result_length: u32,
    /// The result buffer.
    pub buffer: Seq<u8>,
}

impl View for ReadRequest {
    type V = ReadRequestView;

    closed spec fn view(&self) -> ReadRequestView {
        ReadRequestView {
            index_group: self.index_group,
            index_offset: self.index_offset,
            length: self.length,
            result: self.result,
            result_length: self.result_length,
            buffer: self.rbuf@,
        }
    }
}

impl ReadRequest {
    /// The request with given index group, index offset and result buffer;
    /// the length asked for is the buffer's length, cut to 32 bits.
    pub fn new(index_group: u32, index_offset: u32, buffer: Vec<u8>) -> (r: Self)
        ensures
            r@ == (ReadRequestView {
                index_group,
                index_offset,
                length: buffer@.len() as u32,
                result: 0,
                result_length: 0,
                buffer: buffer@,
            }),
    {
        let length = buffer.len() as u32;
        ReadRequest { index_group, index_offset, length, result: 0, result_length: 0, rbuf: buffer }
    }

    /// Records the result code and data length of the reply.
    pub fn set_result(&mut self, result: u32, length: u32)
        ensures
            final(self)@ == (ReadRequestView { result, result_length: length, ..old(self)@ }),
    {
        self.result = result;
        self.result_length = length;
    }

    /// The returned data, or the error the server answered with.
    pub fn data(&self) -> (r: Result<&[u8], Error>)
        requires
            self@.result == 0 ==> self@.result_length <= self@.buffer.len(),
        ensures
            self@.result != 0 ==> r == Err::<&[u8], Error>(Error::Ads("multi-read data", self@.result)),
            self@.result == 0 ==> r is Ok && r.unwrap()@ == self@.buffer.take(
                self@.result_length as int,
            ),
    {
        if self.result != 0 {
            ads_error("multi-read data", self.result)
        } else {
            let n = self.result_length as usize;
            let s = self.rbuf.as_slice();
            Ok(&s[0..n])
        }
    }
}

// ----- Write -----
/// A single request of a multi-write.
pub struct WriteRequest {
    index_group: u32,
    index_offset: u32,
    length: u32,
    result: u32,
    wbuf: Vec<u8>,
}

/// What a `WriteRequest` holds.
pub struct WriteRequestView {
    pub index_group: u32,
    pub index_offset: u32,
    /// The length written, as sent on the wire.
    pub length: u32,
    /// The ADS result code of the reply (0 until a reply arrived).
    pub result: u32,
    /// The data to write.
    pub buffer: Seq<u8>,
}

impl View for WriteRequest {
    type V = WriteRequestView;

    closed spec fn view(&self) -> WriteRequestView {
        WriteRequestView {
            index_group: self.index_group,
            index_offset: self.index_offset,
            length: self.length,
            result: self.result,
            buffer: self.wbuf@,
        }
    }
}

impl WriteRequest {
    /// The request with given index group, index offset and data; the length
    /// sent is the data's length, cut to 32 bits.
    pub fn new(index_group: u32, index_offset: u32, buffer: Vec<u8>) -> (r: Self)
        ensures
            r@ == (WriteRequestView {
                index_group,
                index_offset,
                length: buffer@.len() as u32,
                result: 0,
                buffer: buffer@,
            }),
    {
        let length = buffer.len() as u32;
        WriteRequest { index_group, index_offset, length, result: 0, wbuf: buffer }
    }

    /// Records the result code of the reply.
    pub fn set_result(&mut self, result: u32)
        ensures
            final(self)@ == (WriteRequestView { result, ..old(self)@ }),
    {
        self.result = result;
    }

    /// `Ok` if the data was written, else the error the server answered with.
    pub fn ensure(&self) -> (r: Result<(), Error>)
        ensures
            r == (if self@.result == 0 {
                Ok::<(), Error>(())
            } else {
                Err(Error::Ads("multi-write data", self@.result))
            }),
    {
        if self.result != 0 {
            ads_error("multi-write data", self.result)
        } else {
            Ok(())
        }
    }
}

// ----- Write and read -----
/// A single request of a multi-write-read.
pub struct WriteReadRequest {
    index_group: u32,
    index_offset: u32,
    read_length: u32,
    write_length: u32,
    result: u32,
    result_length: u32,
    wbuf: Vec<u8>,
    rbuf: Vec<u8>,
}

/// What a `WriteReadRequest` holds.
pub struct WriteReadRequestView {
    pub index_group: u32,
    pub index_offset: u32,
    /// The length asked for, as sent on the wire.
    pub read_length: u32,
    /// The length written, as sent on the wire.
    pub write_length: u32,
    /// The ADS result code of the reply (0 until a reply arrived).
    pub result: u32,
    /// The number of bytes the reply carried for this request.
    pub result_length: u32,
    /// The data to write.
    pub write_buffer: Seq<u8>,
    /// The result buffer.
    pub read_buffer: Seq<u8>,
}

impl View for WriteReadRequest {
    type V = WriteReadRequestView;

    closed spec fn view(&self) -> WriteReadRequestView {
        WriteReadRequestView {
            index_group: self.index_group,
            index_offset: self.index_offset,
            read_length: self.read_length,
            write_length: self.write_length,
            result: self.result,
            result_length: self.result_length,
            write_buffer: self.wbuf@,
            read_buffer: self.rbuf@,
        }
    }
}

impl WriteReadRequest {
    /// The request with given index group, index offset, data to write and
    /// result buffer; the lengths sent are the buffers' lengths, cut to 32
    /// bits.
    pub fn new(index_group: u32, index_offset: u32, write_buffer: Vec<u8>, read_buffer: Vec<u8>) -> (r: Self)
        ensures
            r@ == (WriteReadRequestView {
                index_group,
                index_offset,
                read_length: read_buffer@.len() as u32,
                write_length: write_buffer@.len() as u32,
                result: 0,
                result_length: 0,
                write_buffer: write_buffer@,
                read_buffer: read_buffer@,
            }),
    {
        let read_length = read_buffer.len() as u32;
        let write_length = write_buffer.len() as u32;
        WriteReadRequest {
            index_group,
            index_offset,
            read_length,
            write_length,
            result: 0,
            result_length: 0,
            wbuf: write_buffer,
            rbuf: read_buffer,
        }
    }

    /// Records the result code and data length of the reply.
    pub fn set_result(&mut self, result: u32, length: u32)
        ensures
            final(self)@ == (WriteReadRequestView { result, result_length: length, ..old(self)@ }),
    {
        self.result = result;
        self.result_length = length;
    }

    /// The returned data, or the error the server answered with.
    pub fn data(&self) -> (r: Result<&[u8], Error>)
        requires
            self@.result == 0 ==> self@.result_length <= self@.read_buffer.len(),
        ensures
            self@.result != 0 ==> r == Err::<&[u8], Error>(
                Error::Ads("multi-read/write data", self@.result),
            ),
            self@.result == 0 ==> r is Ok && r.unwrap()@ == self@.read_buffer.take(
                self@.result_length as int,
            ),
    {
        if self.result != 0 {
            ads_error("multi-read/write data", self.result)
        } else {
            let n = self.result_length as usize;
            let s = self.rbuf.as_slice();
            Ok(&s[0..n])
        }
    }

    /// Overwrites the first `size` bytes of the result buffer with
    /// `stream[off..off + size]`.
    fn fill_prefix(&mut self, stream: &Vec<u8>, off: usize, size: usize)
        requires
            off + size <= stream@.len(),
            size <= old(self)@.read_buffer.len(),
        ensures
            final(self)@ == (WriteReadRequestView {
                read_buffer: Seq::new(
                    old(self)@.read_buffer.len(),
                    |k: int| if k < size { stream@[off + k] } else { old(self)@.read_buffer[k] },
                ),
                ..old(self)@
            }),
    {
        let sl = stream.len();
        let mut k: usize = 0;
        assert(self.rbuf@ =~= Seq::new(
            old(self)@.read_buffer.len(),
            |j: int| if j < 0 { stream@[off + j] } else { old(self)@.read_buffer[j] },
        ));
        while k < size
            invariant
                k <= size,
                sl == stream@.len(),
                off + size <= stream@.len(),
                size <= old(self)@.read_buffer.len(),
                self@ == (WriteReadRequestView {
                    read_buffer: Seq::new(
                        old(self)@.read_buffer.len(),
                        |j: int| if j < k { stream@[off + j] } else { old(self)@.read_buffer[j] },
                    ),
                    ..old(self)@
                }),
            decreases size - k,
        {
            let b = stream[off + k];
            self.rbuf.set(k, b);
            k = k + 1;
            assert(self.rbuf@ =~= Seq::new(
                old(self)@.read_buffer.len(),
                |j: int| if j < k { stream@[off + j] } else { old(self)@.read_buffer[j] },
            ));
        }
    }
}

// ----- Add notification -----
/// A single request of a multi-add-notification.
pub struct AddNotifRequest {
    index_group: u32,
    index_offset: u32,
    length: u32,
    trans_mode: u32,
    max_delay: u32,
    cycle_time: u32,
    result: u32,
    handle: u32,
}

/// What an `AddNotifRequest` holds, as sent on the wire.
pub struct AddNotifRequestView {
    pub index_group: u32,
    pub index_offset: u32,
    pub length: u32,
    pub trans_mode: u32,
    pub max_delay: u32,
    pub cycle_time: u32,
    /// The ADS result code of the reply (0 until a reply arrived).
    pub result: u32,
    /// The handle the reply carried.
    pub handle: u32,
}

impl View for AddNotifRequest {
    type V = AddNotifRequestView;

    closed spec fn view(&self) -> AddNotifRequestView {
        AddNotifRequestView {
            index_group: self.index_group,
            index_offset: self.index_offset,
            length: self.length,
            trans_mode: self.trans_mode,
            max_delay: self.max_delay,
            cycle_time: self.cycle_time,
            result: self.result,
            handle: self.handle,
        }
    }
}

impl AddNotifRequest {
    /// The request with given index group, index offset and attributes; the
    /// length and the durations are cut to 32 bits.
    pub fn new(index_group: u32, index_offset: u32, attributes: &NotificationAttributes) -> (r: Self)
        ensures
            r@ == (AddNotifRequestView {
                index_group,
                index_offset,
                length: attributes.length as u32,
                trans_mode: mode_code(attributes.trans_mode),
                max_delay: attributes.max_delay_ms as u32,
                cycle_time: attributes.cycle_time_ms as u32,
                result: 0,
                handle: 0,
            }),
    {
        AddNotifRequest {
            index_group,
            index_offset,
            length: attributes.length as u32,
            trans_mode: attributes.trans_mode.code(),
            max_delay: attributes.max_delay_ms as u32,
            cycle_time: attributes.cycle_time_ms as u32,
            result: 0,
            handle: 0,
        }
    }

    /// Records the result code and the handle of the reply.
    pub fn set_result(&mut self, result: u32, handle: u32)
        ensures
            final(self)@ == (AddNotifRequestView { result, handle, ..old(self)@ }),
    {
        self.result = result;
        self.handle = handle;
    }

    /// The returned notification handle, or the error the server answered
    /// with.
    pub fn handle(&self) -> (r: Result<u32, Error>)
        ensures
            r == (if self@.result == 0 {
                Ok::<u32, Error>(self@.handle)
            } else {
                Err(Error::Ads("multi-read/write data", self@.result))
            }),
    {
        if self.result != 0 {
            ads_error("multi-read/write data", self.result)
        } else {
            Ok(self.handle)
        }
    }
}

// ----- Delete notification -----
/// A single request of a multi-delete-notification.
pub struct DelNotifRequest {
    handle: u32,
    result: u32,
}

/// What a `DelNotifRequest` holds.
pub struct DelNotifRequestView {
    pub handle: u32,
    /// The ADS result code of the reply (0 until a reply arrived).
    pub result: u32,
}

impl View for DelNotifRequest {
    type V = DelNotifRequestView;

    closed spec fn view(&self) -> DelNotifRequestView {
        DelNotifRequestView { handle: self.handle, result: self.result }
    }
}

impl DelNotifRequest {
    /// The request to delete the notification with the given handle.
    pub fn new(handle: u32) -> (r: Self)
        ensures
            r@ == (DelNotifRequestView { handle, result: 0 }),
    {
        DelNotifRequest { handle, result: 0 }
    }

    /// Records the result code of the reply.
    pub fn set_result(&mut self, result: u32)
        ensures
            final(self)@ == (DelNotifRequestView { result, ..old(self)@ }),
    {
        self.result = result;
    }

    /// `Ok` if the handle was deleted, else the error the server answered
    /// with.
    pub fn ensure(&self) -> (r: Result<(), Error>)
        ensures
            r == (if self@.result == 0 {
                Ok::<(), Error>(())
            } else {
                Err(Error::Ads("multi-read/write data", self@.result))
            }),
    {
        if self.result != 0 {
            ads_error("multi-read/write data", self.result)
        } else {
            Ok(())
        }
    }
}

// ----- Compacting the results of a multi-write-read -----
/// What a list of write-read requests holds.
pub open spec fn write_read_views(reqs: Seq<WriteReadRequest>) -> Seq<WriteReadRequestView> {
    reqs.map_values(|r: WriteReadRequest| r@)
}

/// Where the result buffer of request `i` starts when the buffers are laid
/// end to end.
pub open spec fn buffer_offset(reqs: Seq<WriteReadRequestView>, i: int) -> int
    decreases i,
{
    if i <= 0 {
        0
    } else {
        buffer_offset(reqs, i - 1) + reqs[i - 1].read_buffer.len()
    }
}

/// Where the data of request `i` starts in the reply stream, in which the
/// results follow each other without gaps.
pub open spec fn result_offset(reqs: Seq<WriteReadRequestView>, i: int) -> int
    decreases i,
{
    if i <= 0 {
        0
    } else {
        result_offset(reqs, i - 1) + reqs[i - 1].result_length
    }
}

/// The result buffers of the first `i` requests laid end to end.
pub open spec fn buffer_stream(reqs: Seq<WriteReadRequestView>, i: int) -> Seq<u8>
    decreases i,
{
    if i <= 0 {
        Seq::empty()
    } else {
        buffer_stream(reqs, i - 1) + reqs[i - 1].read_buffer
    }
}

/// The result buffer of request `i` once its data was moved to the front:
/// its first `result_length` bytes are its part of the reply stream, the
/// rest is as it was.
pub open spec fn compacted_buffer(reqs: Seq<WriteReadRequestView>, i: int) -> Seq<u8> {
    let b = reqs[i].read_buffer;
    let stream = buffer_stream(reqs, reqs.len() as int);
    Seq::new(
        b.len(),
        |k: int|
            if k < reqs[i].result_length {
                stream[result_offset(reqs, i) + k]
            } else {
                b[k]
            },
    )
}

/// Every request's result fits its buffer.
pub open spec fn results_fit(reqs: Seq<WriteReadRequestView>) -> bool {
    forall|i: int| 0 <= i < reqs.len() ==> #[trigger] reqs[i].result_length <= reqs[i].read_buffer.len()
}

proof fn lemma_offsets(reqs: Seq<WriteReadRequestView>, i: int, j: int)
    requires
        results_fit(reqs),
        0 <= i <= j <= reqs.len(),
    ensures
        buffer_stream(reqs, i).len() == buffer_offset(reqs, i),
        0 <= result_offset(reqs, i) <= buffer_offset(reqs, i),
        buffer_offset(reqs, i) <= buffer_offset(reqs, j),
        result_offset(reqs, i) <= result_offset(reqs, j),
        buffer_offset(reqs, j) - buffer_offset(reqs, i) >= result_offset(reqs, j) - result_offset(
            reqs,
            i,
        ),
    decreases j,
{
    if j > i {
        lemma_offsets(reqs, i, j - 1);
        assert(reqs[j - 1].result_length <= reqs[j - 1].read_buffer.len());
    } else if i > 0 {
        lemma_offsets(reqs, i - 1, i - 1);
        assert(reqs[i - 1].result_length <= reqs[i - 1].read_buffer.len());
    }
}

proof fn lemma_stream_index(reqs: Seq<WriteReadRequestView>, i: int, n: int, k: int)
    requires
        results_fit(reqs),
        0 <= i < n <= reqs.len(),
        0 <= k < reqs[i].read_buffer.len(),
    ensures
        buffer_stream(reqs, n)[buffer_offset(reqs, i) + k] == reqs[i].read_buffer[k],
        buffer_stream(reqs, n).len() == buffer_offset(reqs, n),
    decreases n,
{
    lemma_offsets(reqs, n - 1, n);
    if n - 1 > i {
        lemma_offsets(reqs, i + 1, n - 1);
        lemma_stream_index(reqs, i, n - 1, k);
    }
}

/// Where the buffer and result offsets meet at `i`, every earlier request
/// filled its buffer completely.
proof fn lemma_offsets_meet(reqs: Seq<WriteReadRequestView>, i: int, j: int)
    requires
        results_fit(reqs),
        0 <= j < i <= reqs.len(),
        buffer_offset(reqs, i) == result_offset(reqs, i),
    ensures
        buffer_offset(reqs, j) == result_offset(reqs, j),
        reqs[j].result_length == reqs[j].read_buffer.len(),
    decreases i,
{
    lemma_offsets(reqs, i - 1, i - 1);
    assert(reqs[i - 1].result_length <= reqs[i - 1].read_buffer.len());
    if j < i - 1 {
        lemma_offsets_meet(reqs, i - 1, j);
    }
}

/// Moves the results of a multi-write-read to the front of each result
/// buffer. The server sends the results one after the other, and they were
/// spread over the buffers as if each result filled its buffer; afterwards
/// the first `result_length` bytes of each buffer are that request's part
/// of the reply stream, and the other bytes are unchanged.
pub fn fixup_write_read_return_buffers(requests: &mut Vec<WriteReadRequest>)
    requires
        results_fit(write_read_views(old(requests)@)),
        buffer_offset(write_read_views(old(requests)@), old(requests)@.len() as int) <= usize::MAX,
    ensures
        final(requests)@.len() == old(requests)@.len(),
        forall|i: int|
            0 <= i < old(requests)@.len() ==> #[trigger] final(requests)@[i]@ == (
            WriteReadRequestView {
                read_buffer: compacted_buffer(write_read_views(old(requests)@), i),
                ..old(requests)@[i]@
            }),
{
    let ghost reqs = write_read_views(requests@);
    let ghost n = requests@.len() as int;
    let len = requests.len();
    // The buffers laid end to end, and where each one starts.
    let mut stream: Vec<u8> = Vec::new();
    let mut buffer_offs: Vec<usize> = Vec::new();
    let mut result_offs: Vec<usize> = Vec::new();
    let mut b_acc: usize = 0;
    let mut r_acc: usize = 0;
    let mut i: usize = 0;
    while i < len
        invariant
            len == n,
            n == requests@.len(),
            reqs.len() == n,
            reqs == write_read_views(requests@),
            results_fit(reqs),
            buffer_offset(reqs, n) <= usize::MAX,
            i <= len,
            b_acc == buffer_offset(reqs, i as int),
            r_acc == result_offset(reqs, i as int),
            stream@ == buffer_stream(reqs, i as int),
            buffer_offs@.len() == i,
            result_offs@.len() == i,
            forall|j: int| 0 <= j < i ==> #[trigger] buffer_offs@[j] == buffer_offset(reqs, j),
            forall|j: int| 0 <= j < i ==> #[trigger] result_offs@[j] == result_offset(reqs, j),
        decreases len - i,
    {
        proof {
            lemma_offsets(reqs, i as int, i + 1);
            lemma_offsets(reqs, i + 1, n);
        }
        buffer_offs.push(b_acc);
        result_offs.push(r_acc);
        let r = &requests[i];
        assert(reqs[i as int] == r@);
        let mut k: usize = 0;
        while k < r.rbuf.len()
            invariant
                0 <= i < len,
                reqs[i as int] == r@,
                stream@ == buffer_stream(reqs, i as int) + r.rbuf@.take(k as int),
                k <= r.rbuf@.len(),
            decreases r.rbuf@.len() - k,
        {
            stream.push(r.rbuf[k]);
            assert(r.rbuf@.take(k + 1) =~= r.rbuf@.take(k as int).push(r.rbuf@[k as int]));
            k = k + 1;
        }
        assert(r.rbuf@.take(k as int) =~= r.rbuf@);
        b_acc = b_acc + r.rbuf.len();
        r_acc = r_acc + r.result_length as usize;
        i = i + 1;
    }
    proof {
        lemma_offsets(reqs, n, n);
    }
    // Go through the requests from the last to the first.
    let mut i: usize = len;
    loop
        invariant_except_break
            i <= len,
        invariant
            len == n,
            n == requests@.len(),
            reqs.len() == n,
            results_fit(reqs),
            stream@ == buffer_stream(reqs, n),
            stream@.len() == buffer_offset(reqs, n),
            buffer_offs@.len() == len,
            result_offs@.len() == len,
            forall|j: int| 0 <= j < len ==> #[trigger] buffer_offs@[j] == buffer_offset(reqs, j),
            forall|j: int| 0 <= j < len ==> #[trigger] result_offs@[j] == result_offset(reqs, j),
            forall|j: int| 0 <= j < i ==> #[trigger] requests@[j]@ == reqs[j],
            forall|j: int|
                i <= j < n ==> #[trigger] requests@[j]@ == (WriteReadRequestView {
                    read_buffer: compacted_buffer(reqs, j),
                    ..reqs[j]
                }),
        ensures
            requests@.len() == n,
            forall|j: int|
                0 <= j < n ==> #[trigger] requests@[j]@ == (WriteReadRequestView {
                    read_buffer: compacted_buffer(reqs, j),
                    ..reqs[j]
                }),
        decreases i,
    {
        if i == 0 {
            break;
        }
        i = i - 1;
        let size = requests[i].result_length as usize;
        proof {
            assert(reqs[i as int] == requests@[i as int]@);
            lemma_offsets(reqs, i as int, i + 1);
            lemma_offsets(reqs, i + 1, n);
        }
        if size == 0 {
            assert(compacted_buffer(reqs, i as int) =~= reqs[i as int].read_buffer);
        } else if buffer_offs[i] == result_offs[i] {
            // All earlier results filled their buffers: nothing moves.
            proof {
                assert forall|j: int| 0 <= j <= i implies compacted_buffer(reqs, j) =~= reqs[j].read_buffer by {
                    if j < i {
                        lemma_offsets_meet(reqs, i as int, j);
                    }
                    assert forall|k: int| 0 <= k < reqs[j].result_length implies buffer_stream(reqs, n)[result_offset(reqs, j) + k] == reqs[j].read_buffer[k] by {
                        lemma_stream_index(reqs, j, n, k);
                    }
                }
            }
            break;
        } else {
            let off = result_offs[i];
            proof {
                lemma_offsets(reqs, i as int, n);
            }
            requests[i].fill_prefix(&stream, off, size);
            assert(requests@[i as int]@.read_buffer =~= compacted_buffer(reqs, i as int));
        }
    }
}

/// Where every result filled its buffer, compacting leaves every buffer as
/// it was.
pub proof fn lemma_compacted_identity(reqs: Seq<WriteReadRequestView>)
    requires
        forall|i: int| 0 <= i < reqs.len() ==> #[trigger] reqs[i].result_length == reqs[i].read_buffer.len(),
    ensures
        forall|i: int| 0 <= i < reqs.len() ==> #[trigger] compacted_buffer(reqs, i) == reqs[i].read_buffer,
{
    let n = reqs.len() as int;
    assert(results_fit(reqs));
    assert forall|i: int| 0 <= i < n implies #[trigger] compacted_buffer(reqs, i) == reqs[i].read_buffer by {
        lemma_offsets_equal(reqs, i);
        assert forall|k: int| 0 <= k < reqs[i].result_length implies buffer_stream(reqs, n)[result_offset(reqs, i) + k] == reqs[i].read_buffer[k] by {
            lemma_stream_index(reqs, i, n, k);
        }
        assert(compacted_buffer(reqs, i) =~= reqs[i].read_buffer);
    }
}

proof fn lemma_offsets_equal(reqs: Seq<WriteReadRequestView>, i: int)
    requires
        0 <= i <= reqs.len(),
        forall|j: int| 0 <= j < reqs.len() ==> #[trigger] reqs[j].result_length == reqs[j].read_buffer.len(),
    ensures
        result_offset(reqs, i) == buffer_offset(reqs, i),
    decreases i,
{
    if i > 0 {
        lemma_offsets_equal(reqs, i - 1);
        assert(reqs[i - 1].result_length == reqs[i - 1].read_buffer.len());
    }
}

} // verus!
