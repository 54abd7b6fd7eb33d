//! The decisions of an ADS client connection: what goes on the wire for a
//! request, how a reply is checked and handed out, and what the reader does
//! with each packet it receives. The socket itself is driven by the caller.
use crate::le::{read_u16_le, read_u32_le, u16_le, u32_bytes, u16_bytes, u32_le};
use crate::low::errors::{ads_error, Error};
use crate::low::requests::{mode_code, NotificationAttributes};
use crate::netid::{AmsAddr, AmsNetId};
use crate::protocol::{
    command_action, command_code, header_bytes, state_of_code, AdsHeader, AdsState, Command,
    AMS_HEADER_SIZE,
};
use core::time::Duration;
use vstd::prelude::*;

verus! {

// ----- Timeouts and the builder -----
/// The timeouts a client uses; `None` means no timeout.
#[derive(Clone, Copy, Debug)]
pub struct Timeouts {
    /// Connect timeout
    pub connect: Option<Duration>,
    /// Reply read timeout
    pub read: Option<Duration>,
    /// Socket write timeout
    pub write: Option<Duration>,
}

impl Timeouts {
    /// All three timeouts set to `duration`.
    pub fn new(duration: Duration) -> (r: Self)
        ensures
            r.connect == Some(duration),
            r.read == Some(duration),
            r.write == Some(duration),
    {
        Timeouts { connect: Some(duration), read: Some(duration), write: Some(duration) }
    }

    /// No timeouts at all.
    pub fn none() -> (r: Self)
        ensures
            r.connect is None,
            r.read is None,
            r.write is None,
    {
        Timeouts { connect: None, read: None, write: None }
    }
}

impl Default for Timeouts {
    /// No timeouts at all.
    fn default() -> (r: Self)
        ensures
            r.connect is None,
            r.read is None,
            r.write is None,
    {
        Timeouts::none()
    }
}

/// The IPv4 address and TCP port of the local AMS router.
pub open spec fn local_router() -> ([u8; 4], u16) {
    ([127u8, 0u8, 0u8, 1u8], 48898u16)
}

/// Collects what is needed to open a client connection.
#[derive(Debug, Clone)]
pub struct ClientBuilder<RouterAddr> {
    router: RouterAddr,
    target: AmsAddr,
    source: Option<AmsAddr>,
    timeouts: Timeouts,
}

impl<RouterAddr> ClientBuilder<RouterAddr> {
    /// The address of the AMS router to connect to.
    pub closed spec fn router_spec(self) -> RouterAddr {
        self.router
    }

    /// The AMS address of the target.
    pub closed spec fn target_spec(self) -> AmsAddr {
        self.target
    }

    /// The AMS address to use as the source, if one was given.
    pub closed spec fn source_spec(self) -> Option<AmsAddr> {
        self.source
    }

    /// The timeouts to use.
    pub closed spec fn timeouts_spec(self) -> Timeouts {
        self.timeouts
    }

    /// The builder with another router address.
    pub fn router<NextRouterAddr>(self, router: NextRouterAddr) -> (r: ClientBuilder<NextRouterAddr>)
        ensures
            r.router_spec() == router,
            r.target_spec() == self.target_spec(),
            r.source_spec() == self.source_spec(),
            r.timeouts_spec() == self.timeouts_spec(),
    {
        ClientBuilder { router, target: self.target, source: self.source, timeouts: self.timeouts }
    }

    /// The builder with the given source address.
    pub fn source(self, source: AmsAddr) -> (r: Self)
        ensures
            r.router_spec() == self.router_spec(),
            r.target_spec() == self.target_spec(),
            r.source_spec() == Some(source),
            r.timeouts_spec() == self.timeouts_spec(),
    {
        ClientBuilder { router: self.router, target: self.target, source: Some(source), timeouts: self.timeouts }
    }

    /// The builder with the given timeouts.
    pub fn timeouts(self, timeouts: Timeouts) -> (r: Self)
        ensures
            r.router_spec() == self.router_spec(),
            r.target_spec() == self.target_spec(),
            r.source_spec() == self.source_spec(),
            r.timeouts_spec() == timeouts,
    {
        ClientBuilder { router: self.router, target: self.target, source: self.source, timeouts }
    }

    /// The router, target, source and timeouts collected so far.
    pub fn into_parts(self) -> (r: (RouterAddr, AmsAddr, Option<AmsAddr>, Timeouts))
        ensures
            r == (self.router_spec(), self.target_spec(), self.source_spec(), self.timeouts_spec()),
    {
        (self.router, self.target, self.source, self.timeouts)
    }
}

impl ClientBuilder<()> {
    /// A builder for a connection to `target` through the local router
    /// (127.0.0.1, port 48898), with no source address and no timeouts.
    pub fn new(target: AmsAddr) -> (r: ClientBuilder<([u8; 4], u16)>)
        ensures
            r.router_spec() == local_router(),
            r.target_spec() == target,
            r.source_spec() is None,
            r.timeouts_spec().connect is None,
            r.timeouts_spec().read is None,
            r.timeouts_spec().write is None,
    {
        let r = ClientBuilder {
            router: ([127u8, 0u8, 0u8, 1u8], 48898u16),
            target,
            source: None,
            timeouts: Timeouts::none(),
        };
        assert(r.router.0 =~= local_router().0);
        r
    }
}

// ----- Request payloads -----
/// Appends the little-endian bytes of `v`.
fn push_u32(out: &mut Vec<u8>, v: u32)
    ensures
        final(out)@ == old(out)@ + u32_bytes(v),
{
    crate::le::push_u32_le(out, v);
}

/// Index group, index offset and a length, as the read and write commands
/// send them.
pub open spec fn index_length_bytes(index_group: u32, index_offset: u32, length: u32) -> Seq<u8> {
    u32_bytes(index_group) + u32_bytes(index_offset) + u32_bytes(length)
}

/// The payload of a read of `length` bytes; `Overflow` if the length does
/// not fit in 32 bits.
pub fn read_payload(index_group: u32, index_offset: u32, length: usize) -> (r: Result<Vec<u8>, Error>)
    ensures
        length > u32::MAX ==> r == Err::<Vec<u8>, Error>(Error::Overflow),
        length <= u32::MAX ==> r is Ok && r.unwrap()@ == index_length_bytes(
            index_group,
            index_offset,
            length as u32,
        ),
{
    if length > 0xffff_ffffusize {
        return Err(Error::Overflow);
    }
    let mut out: Vec<u8> = Vec::new();
    push_u32(&mut out, index_group);
    push_u32(&mut out, index_offset);
    push_u32(&mut out, length as u32);
    assert(out@ =~= index_length_bytes(index_group, index_offset, length as u32));
    Ok(out)
}

/// Appends all of `data`.
fn push_all(out: &mut Vec<u8>, data: &[u8])
    ensures
        final(out)@ == old(out)@ + data@,
{
    let mut k: usize = 0;
    while k < data.len()
        invariant
            k <= data@.len(),
            out@ == old(out)@ + data@.take(k as int),
        decreases data@.len() - k,
    {
        out.push(data[k]);
        assert(data@.take(k + 1) =~= data@.take(k as int).push(data@[k as int]));
        k = k + 1;
    }
    assert(data@.take(k as int) =~= data@);
}

/// The payload of a write of `data`; `Overflow` if its length does not
/// fit in 32 bits.
pub fn write_payload(index_group: u32, index_offset: u32, data: &[u8]) -> (r: Result<Vec<u8>, Error>)
    ensures
        data@.len() > u32::MAX ==> r == Err::<Vec<u8>, Error>(Error::Overflow),
        data@.len() <= u32::MAX ==> r is Ok && r.unwrap()@ == index_length_bytes(
            index_group,
            index_offset,
            data@.len() as u32,
        ) + data@,
{
    let mut out = read_payload(index_group, index_offset, data.len())?;
    push_all(&mut out, data);
    Ok(out)
}

/// Index group, index offset, read length and write length, as the
/// write-read command sends them.
pub open spec fn index_length_rw_bytes(
    index_group: u32,
    index_offset: u32,
    read_length: u32,
    write_length: u32,
) -> Seq<u8> {
    u32_bytes(index_group) + u32_bytes(index_offset) + u32_bytes(read_length) + u32_bytes(
        write_length,
    )
}

/// The payload of a write-read that writes `write_data` and reads back up
/// to `read_length` bytes; `Overflow` if a length does not fit in 32 bits.
pub fn write_read_payload(index_group: u32, index_offset: u32, write_data: &[u8], read_length: usize) -> (r: Result<Vec<u8>, Error>)
    ensures
        read_length > u32::MAX || write_data@.len() > u32::MAX ==> r == Err::<Vec<u8>, Error>(
            Error::Overflow,
        ),
        read_length <= u32::MAX && write_data@.len() <= u32::MAX ==> r is Ok && r.unwrap()@
            == index_length_rw_bytes(
            index_group,
            index_offset,
            read_length as u32,
            write_data@.len() as u32,
        ) + write_data@,
{
    if read_length > 0xffff_ffffusize || write_data.len() > 0xffff_ffffusize {
        return Err(Error::Overflow);
    }
    let mut out: Vec<u8> = Vec::new();
    push_u32(&mut out, index_group);
    push_u32(&mut out, index_offset);
    push_u32(&mut out, read_length as u32);
    push_u32(&mut out, write_data.len() as u32);
    push_all(&mut out, write_data);
    assert(out@ =~= index_length_rw_bytes(
        index_group,
        index_offset,
        read_length as u32,
        write_data@.len() as u32,
    ) + write_data@);
    Ok(out)
}

/// ADS state, device state and a zero data length, as the write-control
/// command sends them.
pub open spec fn write_control_bytes(ads_state: AdsState, dev_state: u16) -> Seq<u8> {
    u16_bytes(crate::protocol::state_code(ads_state)) + u16_bytes(dev_state) + u32_bytes(0)
}

/// The payload of a write-control command.
pub fn write_control_payload(ads_state: AdsState, dev_state: u16) -> (r: Vec<u8>)
    ensures
        r@ == write_control_bytes(ads_state, dev_state),
{
    let mut out: Vec<u8> = Vec::new();
    crate::le::push_u16_le(&mut out, ads_state.code());
    crate::le::push_u16_le(&mut out, dev_state);
    push_u32(&mut out, 0);
    assert(out@ =~= write_control_bytes(ads_state, dev_state));
    out
}

/// The fields of an add-notification command followed by sixteen reserved
/// zero bytes.
pub open spec fn add_notification_bytes(
    index_group: u32,
    index_offset: u32,
    length: u32,
    trans_mode: u32,
    max_delay: u32,
    cycle_time: u32,
) -> Seq<u8> {
    u32_bytes(index_group) + u32_bytes(index_offset) + u32_bytes(length) + u32_bytes(trans_mode)
        + u32_bytes(max_delay) + u32_bytes(cycle_time) + Seq::new(16, |i: int| 0u8)
}

/// The payload of an add-notification command; `Overflow` if the length or
/// a duration in milliseconds does not fit in 32 bits.
pub fn add_notification_payload(index_group: u32, index_offset: u32, attributes: &NotificationAttributes) -> (r: Result<Vec<u8>, Error>)
    ensures
        attributes.length > u32::MAX || attributes.max_delay_ms > u32::MAX
            || attributes.cycle_time_ms > u32::MAX ==> r == Err::<Vec<u8>, Error>(Error::Overflow),
        attributes.length <= u32::MAX && attributes.max_delay_ms <= u32::MAX
            && attributes.cycle_time_ms <= u32::MAX ==> r is Ok && r.unwrap()@
            == add_notification_bytes(
            index_group,
            index_offset,
            attributes.length as u32,
            mode_code(attributes.trans_mode),
            attributes.max_delay_ms as u32,
            attributes.cycle_time_ms as u32,
        ),
{
    if attributes.length > 0xffff_ffffusize || attributes.max_delay_ms > 0xffff_ffffu128
        || attributes.cycle_time_ms > 0xffff_ffffu128 {
        return Err(Error::Overflow);
    }
    let mut out: Vec<u8> = Vec::new();
    push_u32(&mut out, index_group);
    push_u32(&mut out, index_offset);
    push_u32(&mut out, attributes.length as u32);
    push_u32(&mut out, attributes.trans_mode.code());
    push_u32(&mut out, attributes.max_delay_ms as u32);
    push_u32(&mut out, attributes.cycle_time_ms as u32);
    let ghost before = out@;
    let mut k: usize = 0;
    while k < 16
        invariant
            k <= 16,
            out@ == before + Seq::new(k as nat, |i: int| 0u8),
        decreases 16 - k,
    {
        out.push(0u8);
        assert(before + Seq::new((k + 1) as nat, |i: int| 0u8) =~= (before + Seq::new(
            k as nat,
            |i: int| 0u8,
        )).push(0u8));
        k = k + 1;
    }
    assert(out@ =~= add_notification_bytes(
        index_group,
        index_offset,
        attributes.length as u32,
        mode_code(attributes.trans_mode),
        attributes.max_delay_ms as u32,
        attributes.cycle_time_ms as u32,
    ));
    Ok(out)
}

/// The payload of a delete-notification command: the handle.
pub fn delete_notification_payload(handle: u32) -> (r: Vec<u8>)
    ensures
        r@ == u32_bytes(handle),
{
    let mut out: Vec<u8> = Vec::new();
    push_u32(&mut out, handle);
    out
}

// ----- A command and its reply -----
/// The payload buffers, by their contents.
pub open spec fn payload_views(bufs: Seq<&[u8]>) -> Seq<Seq<u8>> {
    bufs.map_values(|b: &[u8]| b@)
}

/// The result buffers, by their contents.
pub open spec fn buffer_views(bufs: Seq<Vec<u8>>) -> Seq<Seq<u8>> {
    bufs.map_values(|b: Vec<u8>| b@)
}

/// The header of a command from `source` to `target` that carries
/// `payload_len` bytes.
pub open spec fn command_header(
    cmd: Command,
    target: AmsAddr,
    source: AmsAddr,
    invoke_id: u32,
    payload_len: int,
) -> AdsHeader {
    AdsHeader {
        ams_cmd: 0,
        length: (AMS_HEADER_SIZE + payload_len) as u32,
        dest_netid: target.netid_spec(),
        dest_port: target.port_spec(),
        src_netid: source.netid_spec(),
        src_port: source.port_spec(),
        command: command_code(cmd),
        state_flags: 4,
        data_length: payload_len as u32,
        error_code: 0,
        invoke_id,
    }
}

/// The packet that sends command `cmd` with the payload buffers one after
/// the other; `Overflow` if the AMS length would not fit in 32 bits.
pub fn communicate_request(
    cmd: Command,
    target: &AmsAddr,
    source: &AmsAddr,
    invoke_id: u32,
    payload_bufs: &[&[u8]],
) -> (r: Result<Vec<u8>, Error>)
    requires
        payload_views(payload_bufs@).flatten_alt().len() <= usize::MAX,
    ensures
        ({
            let payload = payload_views(payload_bufs@).flatten_alt();
            &&& AMS_HEADER_SIZE + payload.len() > u32::MAX ==> r == Err::<Vec<u8>, Error>(
                Error::Overflow,
            )
            &&& AMS_HEADER_SIZE + payload.len() <= u32::MAX ==> r is Ok && r.unwrap()@
                == header_bytes(command_header(cmd, *target, *source, invoke_id, payload.len() as int))
                + payload
        }),
{
    let ghost views = payload_views(payload_bufs@);
    let mut payload_len: usize = 0;
    let mut i: usize = 0;
    while i < payload_bufs.len()
        invariant
            i <= payload_bufs@.len(),
            views == payload_views(payload_bufs@),
            views.flatten_alt().len() <= usize::MAX,
            payload_len == views.take(i as int).flatten_alt().len(),
        decreases payload_bufs@.len() - i,
    {
        proof {
            lemma_flatten_prefix_len(views, i as int + 1);
            assert(views.take(i + 1).drop_last() =~= views.take(i as int));
        }
        payload_len = payload_len + payload_bufs[i].len();
        i = i + 1;
    }
    assert(views.take(i as int) =~= views);
    if payload_len > 0xffff_ffffusize - AMS_HEADER_SIZE {
        return Err(Error::Overflow);
    }
    let header = AdsHeader {
        ams_cmd: 0,
        length: (AMS_HEADER_SIZE + payload_len) as u32,
        dest_netid: target.netid(),
        dest_port: target.port(),
        src_netid: source.netid(),
        src_port: source.port(),
        command: cmd.code(),
        state_flags: 4,
        data_length: payload_len as u32,
        error_code: 0,
        invoke_id,
    };
    let mut out: Vec<u8> = Vec::new();
    header.write_to(&mut out);
    let ghost head = out@;
    let mut i: usize = 0;
    while i < payload_bufs.len()
        invariant
            i <= payload_bufs@.len(),
            views == payload_views(payload_bufs@),
            out@ == head + views.take(i as int).flatten_alt(),
        decreases payload_bufs@.len() - i,
    {
        push_all(&mut out, payload_bufs[i]);
        assert(views.take(i + 1).drop_last() =~= views.take(i as int));
        assert(out@ =~= head + views.take(i + 1).flatten_alt());
        i = i + 1;
    }
    assert(views.take(i as int) =~= views);
    Ok(out)
}

/// A prefix of the buffers is no longer, laid end to end, than all of them.
proof fn lemma_flatten_prefix_len(views: Seq<Seq<u8>>, i: int)
    requires
        0 <= i <= views.len(),
    ensures
        views.take(i).flatten_alt().len() <= views.flatten_alt().len(),
    decreases views.len() - i,
{
    if i < views.len() {
        lemma_flatten_prefix_len(views, i + 1);
        assert(views.take(i + 1).drop_last() =~= views.take(i));
    } else {
        assert(views.take(i) =~= views);
    }
}

/// The first check that a reply header fails against the request it
/// answers, as an error; `None` if it passes them all. The reply must come
/// from the target, for the same command, with state flags 5 (ADS command,
/// response), with the invoke ID of the request and no AMS error code.
pub open spec fn reply_header_error(cmd: Command, target: AmsAddr, invoke_id: u32, h: AdsHeader) -> Option<Error> {
    let action = command_action(cmd);
    if !(h.src_netid == target.netid_spec() && h.src_port == target.port_spec()) {
        Some(Error::Reply(action, "response wasn't from commanded target", 0))
    } else if h.command != command_code(cmd) {
        Some(Error::Reply(action, "unexpected command", h.command as u32))
    } else if h.state_flags != 5 {
        Some(Error::Reply(action, "unexpected state flags", h.state_flags as u32))
    } else if h.invoke_id != invoke_id {
        Some(Error::Reply(action, "unexpected invoke ID", h.invoke_id))
    } else if h.error_code != 0 {
        Some(Error::Ads(action, h.error_code))
    } else {
        None
    }
}

/// What a reply to command `cmd` yields: the first failed check, or the
/// number of data bytes after the result field. The result field must be
/// zero, and where result buffers were given, the data must fill at least
/// the first of them.
pub open spec fn reply_outcome(
    cmd: Command,
    target: AmsAddr,
    invoke_id: u32,
    h: AdsHeader,
    payload: Seq<u8>,
    bufs: Seq<Seq<u8>>,
) -> Result<usize, Error> {
    let action = command_action(cmd);
    match reply_header_error(cmd, target, invoke_id, h) {
        Some(e) => Err(e),
        None => if u32_le(payload) != 0 {
            Err(Error::Ads(action, u32_le(payload) as u32))
        } else if bufs.len() == 0 {
            Ok(0)
        } else if payload.len() < bufs[0].len() + 4 {
            Err(Error::Reply(action, "got less data than expected", payload.len() as u32))
        } else {
            Ok((payload.len() - 4) as usize)
        },
    }
}

/// Where buffer `k` starts when the buffers are laid end to end.
pub open spec fn buffer_start(bufs: Seq<Seq<u8>>, k: int) -> int
    decreases k,
{
    if k <= 0 {
        0
    } else {
        buffer_start(bufs, k - 1) + bufs[k - 1].len()
    }
}

/// The buffers after `data` was spread over them in order: each byte of
/// `data` lands at its place in the buffers laid end to end, and bytes past
/// the end of `data` are unchanged.
pub open spec fn distributed(bufs: Seq<Seq<u8>>, data: Seq<u8>) -> Seq<Seq<u8>> {
    Seq::new(
        bufs.len(),
        |k: int|
            Seq::new(
                bufs[k].len(),
                |j: int|
                    if buffer_start(bufs, k) + j < data.len() {
                        data[buffer_start(bufs, k) + j]
                    } else {
                        bufs[k][j]
                    },
            ),
    )
}

proof fn lemma_buffer_start_mono(bufs: Seq<Seq<u8>>, i: int, j: int)
    requires
        0 <= i <= j <= bufs.len(),
    ensures
        buffer_start(bufs, i) <= buffer_start(bufs, j),
    decreases j,
{
    if j > i {
        lemma_buffer_start_mono(bufs, i, j - 1);
    }
}

/// Overwrites the first `n` bytes of `dst` with `src[from..from + n]`.
fn copy_into(dst: &mut Vec<u8>, src: &[u8], from: usize, n: usize)
    requires
        n <= old(dst)@.len(),
        from + n <= src@.len(),
    ensures
        final(dst)@ == Seq::new(
            old(dst)@.len(),
            |j: int| if j < n { src@[from + j] } else { old(dst)@[j] },
        ),
{
    let sl = src.len();
    let mut k: usize = 0;
    assert(dst@ =~= Seq::new(
        old(dst)@.len(),
        |j: int| if j < 0 { src@[from + j] } else { old(dst)@[j] },
    ));
    while k < n
        invariant
            k <= n,
            sl == src@.len(),
            n <= old(dst)@.len(),
            from + n <= src@.len(),
            dst@ == Seq::new(
                old(dst)@.len(),
                |j: int| if j < k { src@[from + j] } else { old(dst)@[j] },
            ),
        decreases n - k,
    {
        dst.set(k, src[from + k]);
        k = k + 1;
        assert(dst@ =~= Seq::new(
            old(dst)@.len(),
            |j: int| if j < k { src@[from + j] } else { old(dst)@[j] },
        ));
    }
}

/// The first check that a reply header fails against the request it
/// answers (see `reply_header_error`), or `None`.
pub fn check_reply_header(cmd: Command, target: &AmsAddr, invoke_id: u32, header: &AdsHeader) -> (r:
    Option<Error>)
    ensures
        r == reply_header_error(cmd, *target, invoke_id, *header),
{
    let action = cmd.action();
    if !(header.src_netid.equals(&target.netid()) && header.src_port == target.port()) {
        return Some(Error::Reply(action, "response wasn't from commanded target", 0));
    }
    if header.command != cmd.code() {
        return Some(Error::Reply(action, "unexpected command", header.command as u32));
    }
    if header.state_flags != 5 {
        return Some(Error::Reply(action, "unexpected state flags", header.state_flags as u32));
    }
    if header.invoke_id != invoke_id {
        return Some(Error::Reply(action, "unexpected invoke ID", header.invoke_id));
    }
    if header.error_code != 0 {
        return Some(Error::Ads(action, header.error_code));
    }
    None
}

/// Checks the reply to command `cmd` (sent to `target` with `invoke_id`)
/// and spreads its data, after the 4-byte result field, over the result
/// buffers in order. Returns the number of data bytes, or the first check
/// that failed; the buffers change only on success.
pub fn communicate_reply(
    cmd: Command,
    target: &AmsAddr,
    invoke_id: u32,
    header: &AdsHeader,
    payload: &[u8],
    result_bufs: &mut Vec<Vec<u8>>,
) -> (r: Result<usize, Error>)
    requires
        reply_header_error(cmd, *target, invoke_id, *header) is None ==> payload@.len() >= 4,
    ensures
        r == reply_outcome(
            cmd,
            *target,
            invoke_id,
            *header,
            payload@,
            buffer_views(old(result_bufs)@),
        ),
        r is Ok ==> buffer_views(final(result_bufs)@) == distributed(
            buffer_views(old(result_bufs)@),
            payload@.skip(4),
        ),
        r is Err ==> final(result_bufs)@ == old(result_bufs)@,
{
    let ghost bufs = buffer_views(result_bufs@);
    let action = cmd.action();
    if let Some(e) = check_reply_header(cmd, target, invoke_id, header) {
        return Err(e);
    }
    let result = read_u32_le(payload);
    if result != 0 {
        return ads_error(action, result);
    }
    if result_bufs.len() == 0 {
        assert(buffer_views(result_bufs@) =~= distributed(bufs, payload@.skip(4)));
        return Ok(0);
    }
    if payload.len() - 4 < result_bufs[0].len() {
        return Err(Error::Reply(action, "got less data than expected", payload.len() as u32));
    }
    let plen = payload.len();
    let data_len = plen - 4;
    let ghost data = payload@.skip(4);
    let nbufs = result_bufs.len();
    let mut taken: usize = 0;
    let mut k: usize = 0;
    loop
        invariant_except_break
            k < nbufs,
            taken == buffer_start(bufs, k as int),
        invariant
            nbufs == result_bufs@.len(),
            nbufs == bufs.len(),
            data_len == data.len(),
            data_len + 4 == payload@.len(),
            plen == payload@.len(),
            data == payload@.skip(4),
            taken <= data_len,
            forall|j: int| 0 <= j < k ==> #[trigger] result_bufs@[j]@ == distributed(bufs, data)[j],
            forall|j: int| k <= j < nbufs ==> #[trigger] result_bufs@[j]@ == bufs[j],
        ensures
            buffer_views(result_bufs@) == distributed(bufs, data),
        decreases nbufs - k,
    {
        let blen = result_bufs[k].len();
        let rest = data_len - taken;
        let n = if blen < rest { blen } else { rest };
        copy_into(&mut result_bufs[k], payload, 4 + taken, n);
        proof {
            assert(result_bufs@[k as int]@ =~= distributed(bufs, data)[k as int]);
            lemma_buffer_start_mono(bufs, k as int, k + 1);
        }
        taken = taken + n;
        k = k + 1;
        if taken == data_len || k == nbufs {
            proof {
                assert forall|j: int| k <= j < nbufs implies #[trigger] distributed(bufs, data)[j] =~= bufs[j] by {
                    lemma_buffer_start_mono(bufs, k as int, j);
                }
                assert(buffer_views(result_bufs@) =~= distributed(bufs, data));
            }
            break;
        }
    }
    Ok(data_len)
}

// ----- Small replies -----
/// What the state reply's four bytes say: the ADS state and the device
/// state, or an error for a number that is not an ADS state.
pub open spec fn state_reply(b: Seq<u8>) -> Result<(AdsState, u16), Error> {
    let code = u16_le(b) as u16;
    match state_of_code(code) {
        Some(s) => Ok((s, u16_le(b.skip(2)) as u16)),
        None => Err(Error::Reply("read state", "invalid state constant", code as u32)),
    }
}

/// Decodes the reply of a read-state command.
pub fn decode_state(state: [u8; 4]) -> (r: Result<(AdsState, u16), Error>)
    ensures
        r == state_reply(state@),
{
    let code = read_u16_le(&state);
    let dev = read_u16_le(&state[2..4]);
    assert(state@.subrange(2, 4) =~= state@.skip(2).take(2));
    match AdsState::try_from_code(code) {
        Ok(s) => Ok((s, dev)),
        Err(e) => Err(Error::Reply("read state", e, code as u32)),
    }
}

/// `Ok` if a read returned as many bytes as asked for, else the error the
/// exact read ends in.
pub fn check_read_exact(len: usize, expected: usize) -> (r: Result<(), Error>)
    ensures
        r == (if len == expected {
            Ok::<(), Error>(())
        } else {
            Err(Error::Reply("read data", "got less data than expected", len as u32))
        }),
{
    if len != expected {
        return Err(Error::Reply("read data", "got less data than expected", len as u32));
    }
    Ok(())
}

/// `Ok` if a write-read returned as many bytes as asked for, else the
/// error the exact write-read ends in.
pub fn check_write_read_exact(len: usize, expected: usize) -> (r: Result<(), Error>)
    ensures
        r == (if len == expected {
            Ok::<(), Error>(())
        } else {
            Err(Error::Reply("write/read data", "got less data than expected", len as u32))
        }),
{
    if len != expected {
        return Err(Error::Reply("write/read data", "got less data than expected", len as u32));
    }
    Ok(())
}

// ----- Asking the router for a port -----
/// The message that asks the router to open a port for this client.
pub open spec fn port_request_bytes() -> Seq<u8> {
    seq![0u8, 16u8, 2u8, 0u8, 0u8, 0u8, 0u8, 0u8]
}

/// The message that asks the router to open a port for this client.
pub fn port_request() -> (r: [u8; 8])
    ensures
        r@ == port_request_bytes(),
{
    let r = [0u8, 16u8, 2u8, 0u8, 0u8, 0u8, 0u8, 0u8];
    assert(r@ =~= port_request_bytes());
    r
}

/// The address the router's 14-byte answer assigns: it must start with
/// 0, 16, 8, 0, 0, 0, then come the NetID and the little-endian port.
pub open spec fn port_reply(b: Seq<u8>) -> Result<(Seq<u8>, u16), Error> {
    if b.take(6) != seq![0u8, 16u8, 8u8, 0u8, 0u8, 0u8] {
        Err(Error::Reply("requesting port", "unexpected reply header", 0))
    } else {
        Ok((b.subrange(6, 12), u16_le(b.skip(12)) as u16))
    }
}

/// Decodes the router's answer to `port_request`.
pub fn parse_port_reply(reply: [u8; 14]) -> (r: Result<AmsAddr, Error>)
    ensures
        match port_reply(reply@) {
            Ok((netid, port)) => r matches Ok(a) && a.netid_spec().0@ == netid && a.port_spec()
                == port,
            Err(e) => r == Err::<AmsAddr, Error>(e),
        },
{
    if !(reply[0] == 0 && reply[1] == 16 && reply[2] == 8 && reply[3] == 0 && reply[4] == 0
        && reply[5] == 0) {
        assert(reply@.take(6) != seq![0u8, 16u8, 8u8, 0u8, 0u8, 0u8]) by {
            if reply@.take(6) == seq![0u8, 16u8, 8u8, 0u8, 0u8, 0u8] {
                assert(reply@.take(6)[0] == reply@[0]);
                assert(reply@.take(6)[1] == reply@[1]);
                assert(reply@.take(6)[2] == reply@[2]);
                assert(reply@.take(6)[3] == reply@[3]);
                assert(reply@.take(6)[4] == reply@[4]);
                assert(reply@.take(6)[5] == reply@[5]);
            }
        }
        return Err(Error::Reply("requesting port", "unexpected reply header", 0));
    }
    assert(reply@.take(6) =~= seq![0u8, 16u8, 8u8, 0u8, 0u8, 0u8]);
    let netid = AmsNetId([reply[6], reply[7], reply[8], reply[9], reply[10], reply[11]]);
    let port = read_u16_le(&reply[12..14]);
    assert(reply@.subrange(12, 14) =~= reply@.skip(12).take(2));
    let a = AmsAddr::new(netid, port);
    assert(a.netid_spec().0@ =~= reply@.subrange(6, 12));
    Ok(a)
}

// ----- The reader -----
/// What the reader does after the first six bytes (the AMS/TCP header) of
/// a packet.
#[derive(Debug, Clone, Copy, PartialEq, Eq, Structural)]
pub enum PacketStart {
    /// The packet is too short to hold an AMS header: read and drop this
    /// many bytes.
    Discard(u32),
    /// Read the AMS header; the packet is this long after the first six
    /// bytes.
    Header(u32),
}

/// The packet length in the AMS/TCP header, and what to do next.
pub fn packet_start(tcp_header: &[u8]) -> (r: PacketStart)
    requires
        tcp_header@.len() >= 6,
    ensures
        ({
            let len = u32_le(tcp_header@.skip(2)) as u32;
            r == (if len < AMS_HEADER_SIZE {
                PacketStart::Discard(len)
            } else {
                PacketStart::Header(len)
            })
        }),
{
    let len = read_u32_le(&tcp_header[2..6]);
    assert(tcp_header@.subrange(2, 6) =~= tcp_header@.skip(2).take(4));
    if len < AMS_HEADER_SIZE as u32 {
        PacketStart::Discard(len)
    } else {
        PacketStart::Header(len)
    }
}

/// What the reader does with a complete packet.
#[derive(Debug, Clone, PartialEq, Eq)]
pub enum PacketAction {
    /// Ignore the packet and read the next one.
    Skip,
    /// Hand the packet to the request with this invoke ID.
    Reply(u32),
    /// Hand the packet to the notification subscribers.
    Notification,
    /// Stop reading: the connection is broken.
    Fail(Error),
}

/// What the reader does with a packet whose AMS/TCP header gave length
/// `packet_len`, whose AMS header is `h` and whose payload (as long as the
/// header's data length) is `payload`, for a client at `source`. Packets of
/// the router's own commands are skipped, unknown ones break the
/// connection, as do inconsistent lengths; packets for another address are
/// skipped; replies go to their request; notifications are passed on when
/// their framing is sound and skipped otherwise.
pub open spec fn packet_action(packet_len: u32, h: AdsHeader, payload: Seq<u8>, source: AmsAddr) -> PacketAction {
    let context = "interpreting received AMS packet";
    if h.ams_cmd != 0 && h.ams_cmd != 1 && !(4096 <= h.ams_cmd <= 4098) {
        PacketAction::Fail(Error::Reply(context, "invalid packet", h.ams_cmd as u32))
    } else if h.ams_cmd != 0 {
        PacketAction::Skip
    } else if h.data_length != packet_len - AMS_HEADER_SIZE {
        PacketAction::Fail(
            Error::Reply(context, "AMS/TCP header and AMS header contain inconsistent data", 0),
        )
    } else if !(h.dest_netid == source.netid_spec() && h.dest_port == source.port_spec()) {
        PacketAction::Skip
    } else if h.command != command_code(Command::Notification) {
        PacketAction::Reply(h.invoke_id)
    } else {
        let notif_len = u32_le(payload);
        if h.state_flags != 4 || h.error_code != 0 || notif_len != h.data_length - 4 || notif_len
            < 4 {
            PacketAction::Skip
        } else {
            PacketAction::Notification
        }
    }
}

/// Decides what the reader does with a complete packet.
pub fn classify_packet(packet_len: u32, header: &AdsHeader, payload: &[u8], source: &AmsAddr) -> (r: PacketAction)
    requires
        packet_len >= AMS_HEADER_SIZE,
        payload@.len() == header.data_length,
        ({
            let h = *header;
            h.ams_cmd == 0 && h.data_length == packet_len - AMS_HEADER_SIZE && h.dest_netid
                == source.netid_spec() && h.dest_port == source.port_spec() && h.command
                == command_code(Command::Notification)
        }) ==> payload@.len() >= 4,
    ensures
        r == packet_action(packet_len, *header, payload@, *source),
{
    let context = "interpreting received AMS packet";
    let cmd = header.ams_cmd;
    if cmd != 0 && cmd != 1 && !(4096 <= cmd && cmd <= 4098) {
        return PacketAction::Fail(Error::Reply(context, "invalid packet", cmd as u32));
    }
    if cmd != 0 {
        return PacketAction::Skip;
    }
    if header.data_length != packet_len - AMS_HEADER_SIZE as u32 {
        return PacketAction::Fail(
            Error::Reply(context, "AMS/TCP header and AMS header contain inconsistent data", 0),
        );
    }
    if !(header.dest_netid.equals(&source.netid()) && header.dest_port == source.port()) {
        return PacketAction::Skip;
    }
    if header.command != Command::Notification.code() {
        return PacketAction::Reply(header.invoke_id);
    }
    let notif_len = read_u32_le(payload);
    if header.state_flags != 4 || header.error_code != 0 || notif_len != header.data_length - 4
        || notif_len < 4 {
        PacketAction::Skip
    } else {
        PacketAction::Notification
    }
}

// ----- Laws -----
proof fn lemma_buffer_start_prefix(bufs: Seq<Seq<u8>>, m: int, k: int)
    requires
        0 <= k <= m <= bufs.len(),
    ensures
        buffer_start(bufs.take(m), k) == buffer_start(bufs, k),
    decreases k,
{
    if k > 0 {
        lemma_buffer_start_prefix(bufs, m, k - 1);
    }
}

/// Laid end to end, the buffers after spreading `data` over them hold
/// `data` first and their old bytes after it.
pub proof fn lemma_distributed_flat(bufs: Seq<Seq<u8>>, data: Seq<u8>)
    ensures
        distributed(bufs, data).flatten_alt().len() == bufs.flatten_alt().len(),
        bufs.flatten_alt().len() == buffer_start(bufs, bufs.len() as int),
        forall|p: int|
            0 <= p < bufs.flatten_alt().len() ==> #[trigger] distributed(bufs, data).flatten_alt()[p]
                == if p < data.len() {
                data[p]
            } else {
                bufs.flatten_alt()[p]
            },
    decreases bufs.len(),
{
    let n = bufs.len() as int;
    if n > 0 {
        let front = bufs.drop_last();
        lemma_distributed_flat(front, data);
        assert forall|k: int| 0 <= k < n - 1 implies buffer_start(front, k) == buffer_start(bufs, k) by {
            assert(front =~= bufs.take(n - 1));
            lemma_buffer_start_prefix(bufs, n - 1, k);
        }
        assert(front =~= bufs.take(n - 1));
        lemma_buffer_start_prefix(bufs, n - 1, n - 1);
        let d = distributed(bufs, data);
        assert(d.drop_last() =~= distributed(front, data));
        assert(d.last() == d[n - 1]);
    }
}

/// Spreading data over buffers that have room for it, then laying them end
/// to end and taking as many bytes as the data had, gives the data back.
pub proof fn lemma_distributed_prefix(bufs: Seq<Seq<u8>>, data: Seq<u8>)
    requires
        data.len() <= bufs.flatten_alt().len(),
    ensures
        distributed(bufs, data).flatten_alt().take(data.len() as int) == data,
{
    lemma_distributed_flat(bufs, data);
    assert(distributed(bufs, data).flatten_alt().take(data.len() as int) =~= data);
}

/// Where every result filled its buffer, compacting leaves every buffer as
/// it was.
pub proof fn lemma_compacted_full(reqs: Seq<crate::low::requests::WriteReadRequestView>)
    requires
        forall|i: int| 0 <= i < reqs.len() ==> #[trigger] reqs[i].result_length == reqs[i].read_buffer.len(),
    ensures
        forall|i: int|
            0 <= i < reqs.len() ==> #[trigger] crate::low::requests::compacted_buffer(reqs, i)
                == reqs[i].read_buffer,
{
    crate::low::requests::lemma_compacted_identity(reqs);
}

/// The request packet for a command other than a notification, as the
/// target's reader sees it: the header and payload lengths agree and it is
/// addressed to the target, so it is taken as a request with its invoke ID.
pub proof fn lemma_request_reaches_target(
    cmd: Command,
    target: AmsAddr,
    source: AmsAddr,
    invoke_id: u32,
    payload: Seq<u8>,
)
    requires
        cmd != Command::Notification,
        AMS_HEADER_SIZE + payload.len() <= u32::MAX,
    ensures
        ({
            let packet = header_bytes(command_header(cmd, target, source, invoke_id, payload.len() as int)) + payload;
            let h = crate::protocol::header_of(packet.take(38));
            packet_action(h.length, h, packet.skip(38), target) == PacketAction::Reply(invoke_id)
        }),
{
    let h0 = command_header(cmd, target, source, invoke_id, payload.len() as int);
    crate::protocol::lemma_header_roundtrip(h0);
    let packet = header_bytes(h0) + payload;
    assert(packet.take(38) =~= header_bytes(h0));
    assert(packet.skip(38) =~= payload);
}

/// Writing an ADS state and a device state in the four-byte layout of the
/// state reply and decoding it gives both back.
pub proof fn lemma_state_reply_roundtrip(s: AdsState, dev_state: u16)
    ensures
        state_reply(u16_bytes(crate::protocol::state_code(s)) + u16_bytes(dev_state)) == Ok::<(AdsState, u16), Error>((s, dev_state)),
{
    let b = u16_bytes(crate::protocol::state_code(s)) + u16_bytes(dev_state);
    crate::le::lemma_u16_roundtrip(crate::protocol::state_code(s));
    crate::le::lemma_u16_roundtrip(dev_state);
    assert(b.skip(2) =~= u16_bytes(dev_state));
    crate::protocol::lemma_state_code_roundtrip(s);
}

/// What the reader does with a reply once it is known to be one.
#[derive(Debug)]
pub enum ReplyStep {
    /// Hand the reply to the pending request with this invoke ID.
    Deliver(u32),
    /// Stop reading: the connection is broken.
    Fail(Error),
}

/// Settles a reply with invoke ID `id` against the invoke IDs of the
/// pending requests: a pending ID gets the reply, any other ID ends the
/// connection.
pub fn settle_reply(pending: &Vec<u32>, id: u32) -> (r: ReplyStep)
    ensures
        (r is Deliver) <==> pending@.contains(id),
        r matches ReplyStep::Deliver(x) ==> x == id,
        !pending@.contains(id) ==> r == ReplyStep::Fail(
            Error::Reply(
                "settling pending request",
                "invalid invoke id received from server, aborting connection",
                id,
            ),
        ),
{
    let mut i: usize = 0;
    while i < pending.len()
        invariant
            i <= pending@.len(),
            forall|j: int| 0 <= j < i ==> pending@[j] != id,
        decreases pending@.len() - i,
    {
        if pending[i] == id {
            assert(pending@.contains(id));
            return ReplyStep::Deliver(id);
        }
        i = i + 1;
    }
    ReplyStep::Fail(
        Error::Reply(
            "settling pending request",
            "invalid invoke id received from server, aborting connection",
            id,
        ),
    )
}

/// The invoke IDs a client gives its requests, in turn.
#[derive(Debug)]
pub struct InvokeIds {
    next: u32,
}

impl View for InvokeIds {
    /// The ID the next request gets.
    type V = u32;

    closed spec fn view(&self) -> u32 {
        self.next
    }
}

/// The ID after `id`, wrapping past the largest one to 0.
pub open spec fn following_id(id: u32) -> u32 {
    if id == u32::MAX {
        0
    } else {
        (id + 1) as u32
    }
}

impl InvokeIds {
    /// A new client's IDs: the first request gets 1.
    pub fn new() -> (r: Self)
        ensures
            r@ == 1,
    {
        InvokeIds { next: 1 }
    }

    /// The ID for the next request; the one after it comes next.
    pub fn take(&mut self) -> (id: u32)
        ensures
            id == old(self)@,
            final(self)@ == following_id(old(self)@),
    {
        let id = self.next;
        self.next = if id == u32::MAX {
            0
        } else {
            id + 1
        };
        id
    }
}

} // verus!
