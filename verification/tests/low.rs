use openstar_ads::low::client::{
    check_read_exact, check_write_read_exact, classify_packet, communicate_reply,
    communicate_request, decode_state, packet_start, parse_port_reply, port_request,
    read_payload, settle_reply, write_control_payload, write_read_payload, ClientBuilder,
    InvokeIds, PacketAction, PacketStart, ReplyStep, Timeouts,
};
use openstar_ads::low::errors::{should_disconnect, Error};
use openstar_ads::low::notification::{matching_samples, parse_notification};
use openstar_ads::low::requests::{
    fixup_write_read_return_buffers, AddNotifRequest, DelNotifRequest, NotificationAttributes,
    ReadRequest, TransmissionMode, WriteReadRequest, WriteRequest,
};
use openstar_ads::netid::{AmsAddr, AmsNetId};
use openstar_ads::protocol::{AdsHeader, AdsState, Command};

#[test]
fn test_fixup_buffers() {
    let buf0 = b"12345678AB".to_vec();
    let buf1 = b"CDEFabc".to_vec();
    let buf2 = b"dxyUVW".to_vec();
    let buf3 = b"XYZY".to_vec();
    let buf4 = b"XW----".to_vec();
    let buf5 = b"-------------".to_vec();
    let mut reqs = vec![
        WriteReadRequest::new(0, 0, vec![], buf0),
        WriteReadRequest::new(0, 0, vec![], buf1),
        WriteReadRequest::new(0, 0, vec![], buf2),
        WriteReadRequest::new(0, 0, vec![], buf3),
        WriteReadRequest::new(0, 0, vec![], buf4),
        WriteReadRequest::new(0, 0, vec![], buf5),
    ];
    reqs[0].set_result(0, 8);
    reqs[1].set_result(0, 6);
    reqs[2].set_result(0, 0);
    reqs[3].set_result(0, 4);
    reqs[4].set_result(0, 2);
    reqs[5].set_result(0, 9);

    fixup_write_read_return_buffers(&mut reqs);

    assert!(reqs[5].data().unwrap() == b"UVWXYZYXW");
    assert!(reqs[4].data().unwrap() == b"xy");
    assert!(reqs[3].data().unwrap() == b"abcd");
    assert!(reqs[1].data().unwrap() == b"ABCDEF");
    assert!(reqs[0].data().unwrap() == b"12345678");
}

#[test]
fn fixup_leaves_full_results_alone() {
    let mut reqs = vec![
        WriteReadRequest::new(0, 0, vec![], b"abc".to_vec()),
        WriteReadRequest::new(0, 0, vec![], b"de".to_vec()),
    ];
    reqs[0].set_result(0, 3);
    reqs[1].set_result(0, 2);
    fixup_write_read_return_buffers(&mut reqs);
    assert_eq!(reqs[0].data().unwrap(), b"abc");
    assert_eq!(reqs[1].data().unwrap(), b"de");
}

#[test]
fn sub_requests_report_their_results() {
    let mut r = ReadRequest::new(1, 2, vec![9, 8, 7]);
    r.set_result(0, 2);
    assert_eq!(r.data().unwrap(), &[9, 8]);
    r.set_result(0x701, 0);
    assert_eq!(r.data(), Err(Error::Ads("multi-read data", 0x701)));

    let mut w = WriteRequest::new(1, 2, vec![1]);
    assert_eq!(w.ensure(), Ok(()));
    w.set_result(5);
    assert_eq!(w.ensure(), Err(Error::Ads("multi-write data", 5)));

    let mut wr = WriteReadRequest::new(1, 2, vec![1], vec![0; 4]);
    wr.set_result(6, 0);
    assert_eq!(wr.data(), Err(Error::Ads("multi-read/write data", 6)));

    let attrs = NotificationAttributes::new(4, TransmissionMode::ServerCycle, 5, 10);
    let mut a = AddNotifRequest::new(1, 2, &attrs);
    a.set_result(0, 77);
    assert_eq!(a.handle(), Ok(77));
    a.set_result(9, 77);
    assert_eq!(a.handle(), Err(Error::Ads("multi-read/write data", 9)));

    let mut d = DelNotifRequest::new(77);
    assert_eq!(d.ensure(), Ok(()));
    d.set_result(0x714);
    assert_eq!(d.ensure(), Err(Error::Ads("multi-read/write data", 0x714)));
    assert_eq!(TransmissionMode::ServerOnChange.code(), 4);
    assert_eq!(TransmissionMode::NoTrans.code(), 0);
}

fn addr(last: u8, port: u16) -> AmsAddr {
    AmsAddr::new(AmsNetId::new(10, 0, 0, last, 1, 1), port)
}

#[test]
fn request_packet_layout() {
    let target = addr(2, 851);
    let source = addr(3, 40000);
    let header = read_payload(0xF005, 7, 4).unwrap();
    assert_eq!(header, vec![5, 0xF0, 0, 0, 7, 0, 0, 0, 4, 0, 0, 0]);
    let packet = communicate_request(Command::Read, &target, &source, 42, &[&header]).unwrap();
    assert_eq!(packet.len(), 38 + 12);
    let h = AdsHeader::read_from_bytes(&packet[..38]).unwrap();
    assert_eq!(h.ams_cmd, 0);
    assert_eq!(h.length, 32 + 12);
    assert_eq!(h.command, 2);
    assert_eq!(h.state_flags, 4);
    assert_eq!(h.invoke_id, 42);
    assert_eq!(h.data_length, 12);
    assert_eq!(h.dest_netid, target.netid());
    assert_eq!(h.src_port, 40000);
    assert_eq!(&packet[38..], &header[..]);
    // The target's reader takes the packet as a request with its invoke ID.
    assert_eq!(classify_packet(h.length, &h, &packet[38..], &target), PacketAction::Reply(42));
}

fn reply_header(target: &AmsAddr, source: &AmsAddr, cmd: u16, invoke_id: u32, len: u32) -> AdsHeader {
    AdsHeader {
        ams_cmd: 0,
        length: 32 + len,
        dest_netid: source.netid(),
        dest_port: source.port(),
        src_netid: target.netid(),
        src_port: target.port(),
        command: cmd,
        state_flags: 5,
        data_length: len,
        error_code: 0,
        invoke_id,
    }
}

#[test]
fn reply_checks_and_distribution() {
    let target = addr(2, 851);
    let source = addr(3, 40000);
    let payload = [0u8, 0, 0, 0, 1, 2, 3, 4, 5];
    let h = reply_header(&target, &source, 2, 9, payload.len() as u32);

    let mut bufs = vec![vec![0u8; 2], vec![0u8; 2], vec![0u8; 4]];
    assert_eq!(communicate_reply(Command::Read, &target, 9, &h, &payload, &mut bufs), Ok(5));
    assert_eq!(bufs, vec![vec![1, 2], vec![3, 4], vec![5, 0, 0, 0]]);

    let mut bufs = vec![vec![0u8; 8]];
    assert_eq!(
        communicate_reply(Command::Read, &target, 9, &h, &payload, &mut bufs),
        Err(Error::Reply("read data", "got less data than expected", 9))
    );
    assert_eq!(bufs, vec![vec![0u8; 8]]);

    let mut none: Vec<Vec<u8>> = vec![];
    assert_eq!(communicate_reply(Command::Read, &target, 9, &h, &payload, &mut none), Ok(0));

    let mut bufs = vec![vec![0u8; 2]];
    assert_eq!(
        communicate_reply(Command::Read, &target, 10, &h, &payload, &mut bufs),
        Err(Error::Reply("read data", "unexpected invoke ID", 9))
    );
    assert_eq!(
        communicate_reply(Command::Write, &target, 9, &h, &payload, &mut bufs),
        Err(Error::Reply("write data", "unexpected command", 2))
    );
    let other = addr(4, 851);
    assert_eq!(
        communicate_reply(Command::Read, &other, 9, &h, &payload, &mut bufs),
        Err(Error::Reply("read data", "response wasn't from commanded target", 0))
    );
    let mut flags = h;
    flags.state_flags = 4;
    assert_eq!(
        communicate_reply(Command::Read, &target, 9, &flags, &payload, &mut bufs),
        Err(Error::Reply("read data", "unexpected state flags", 4))
    );
    let mut err = h;
    err.error_code = 0x706;
    assert_eq!(
        communicate_reply(Command::Read, &target, 9, &err, &payload, &mut bufs),
        Err(Error::Ads("read data", 0x706))
    );
    let result = [0x05u8, 0x07, 0, 0];
    assert_eq!(
        communicate_reply(Command::Read, &target, 9, &h, &result, &mut bufs),
        Err(Error::Ads("read data", 0x705))
    );
}

#[test]
fn request_payloads() {
    assert_eq!(
        write_read_payload(1, 2, &[9, 9], 3).unwrap(),
        vec![1, 0, 0, 0, 2, 0, 0, 0, 3, 0, 0, 0, 2, 0, 0, 0, 9, 9]
    );
    assert_eq!(write_control_payload(AdsState::Run, 7), vec![5, 0, 7, 0, 0, 0, 0, 0]);
    assert_eq!(read_payload(0, 0, 1 << 40), Err(Error::Overflow));
    assert_eq!(check_read_exact(3, 4), Err(Error::Reply("read data", "got less data than expected", 3)));
    assert_eq!(check_read_exact(4, 4), Ok(()));
    assert_eq!(
        check_write_read_exact(1, 4),
        Err(Error::Reply("write/read data", "got less data than expected", 1))
    );
    let attrs = NotificationAttributes::new(4, TransmissionMode::ServerOnChange, 0, 1u128 << 40);
    assert_eq!(
        openstar_ads::low::client::add_notification_payload(1, 2, &attrs),
        Err(Error::Overflow)
    );
    let attrs = NotificationAttributes::new(4, TransmissionMode::ServerOnChange, 0, 10);
    let p = openstar_ads::low::client::add_notification_payload(1, 2, &attrs).unwrap();
    assert_eq!(p.len(), 40);
    assert_eq!(&p[12..24], &[4, 0, 0, 0, 0, 0, 0, 0, 10, 0, 0, 0]);
    assert_eq!(openstar_ads::low::client::delete_notification_payload(0x01020304), vec![4, 3, 2, 1]);
}

#[test]
fn state_and_port_replies() {
    assert_eq!(decode_state([5, 0, 3, 0]), Ok((AdsState::Run, 3)));
    assert_eq!(
        decode_state([20, 0, 0, 0]),
        Err(Error::Reply("read state", "invalid state constant", 20))
    );
    assert_eq!(port_request(), [0, 16, 2, 0, 0, 0, 0, 0]);
    let reply = [0, 16, 8, 0, 0, 0, 1, 2, 3, 4, 5, 6, 0x40, 0x9c];
    let a = parse_port_reply(reply).unwrap();
    assert_eq!(a.netid(), AmsNetId::new(1, 2, 3, 4, 5, 6));
    assert_eq!(a.port(), 40000);
    let mut bad = reply;
    bad[2] = 9;
    assert_eq!(
        parse_port_reply(bad),
        Err(Error::Reply("requesting port", "unexpected reply header", 0))
    );
}

#[test]
fn reader_decisions() {
    assert_eq!(packet_start(&[0, 0, 12, 0, 0, 0]), PacketStart::Discard(12));
    assert_eq!(packet_start(&[0, 0, 40, 0, 0, 0]), PacketStart::Header(40));
    let target = addr(2, 851);
    let source = addr(3, 40000);
    let payload = [8u8, 0, 0, 0, 0, 0, 0, 0, 0, 0, 0, 0];
    let mut h = reply_header(&target, &source, 8, 1, payload.len() as u32);
    h.state_flags = 4;
    assert_eq!(classify_packet(h.length, &h, &payload, &source), PacketAction::Notification);
    assert_eq!(classify_packet(h.length, &h, &payload, &target), PacketAction::Skip);
    assert_eq!(
        classify_packet(h.length + 1, &h, &payload, &source),
        PacketAction::Fail(Error::Reply(
            "interpreting received AMS packet",
            "AMS/TCP header and AMS header contain inconsistent data",
            0
        ))
    );
    let mut router = h;
    router.ams_cmd = 4097;
    assert_eq!(classify_packet(h.length, &router, &payload, &source), PacketAction::Skip);
    router.ams_cmd = 7;
    assert_eq!(
        classify_packet(h.length, &router, &payload, &source),
        PacketAction::Fail(Error::Reply("interpreting received AMS packet", "invalid packet", 7))
    );
    let mut bad_len = payload;
    bad_len[0] = 9;
    assert_eq!(classify_packet(h.length, &h, &bad_len, &source), PacketAction::Skip);
}

#[test]
fn notification_samples() {
    // length, one stamp with two samples
    let mut p: Vec<u8> = vec![0, 0, 0, 0, 1, 0, 0, 0];
    p.extend_from_slice(&123u64.to_le_bytes());
    p.extend_from_slice(&2u32.to_le_bytes());
    p.extend_from_slice(&7u32.to_le_bytes());
    p.extend_from_slice(&2u32.to_le_bytes());
    p.extend_from_slice(&[0xaa, 0xbb]);
    p.extend_from_slice(&8u32.to_le_bytes());
    p.extend_from_slice(&1u32.to_le_bytes());
    p.push(0xcc);
    let samples = parse_notification(&p).unwrap();
    assert_eq!(samples.len(), 2);
    assert_eq!(samples[0].handle, 7);
    assert_eq!(samples[0].timestamp, 123);
    assert_eq!(samples[0].data, vec![0xaa, 0xbb]);
    assert_eq!(samples[1].handle, 8);
    assert_eq!(matching_samples(&samples, 8), vec![vec![0xcc]]);
    // trailing garbage or truncation is refused
    let mut longer = p.clone();
    longer.push(0);
    assert!(parse_notification(&longer).is_none());
    assert!(parse_notification(&p[..p.len() - 1]).is_none());
}

#[test]
fn disconnecting_errors() {
    assert!(should_disconnect(&Error::Io("x", String::from("broken pipe"))));
    assert!(should_disconnect(&Error::Ads("read data", 6)));
    assert!(!should_disconnect(&Error::Ads("read data", 7)));
    assert!(should_disconnect(&Error::Reply("read data", "unexpected invoke ID", 3)));
    assert!(!should_disconnect(&Error::Reply("read data", "unexpected command", 3)));
    assert!(!should_disconnect(&Error::Disconnected));
}

#[test]
fn builder_and_timeouts() {
    let target = addr(2, 851);
    let b = ClientBuilder::new(target);
    let (router, t, s, to) = b.clone().into_parts();
    assert_eq!(router, ([127, 0, 0, 1], 48898));
    assert_eq!(t, target);
    assert!(s.is_none());
    assert!(to.read.is_none());
    let d = std::time::Duration::from_millis(5);
    let (router, _, s, to) = b.router(("plc", 1u16)).source(addr(3, 1)).timeouts(Timeouts::new(d)).into_parts();
    assert_eq!(router, ("plc", 1u16));
    assert_eq!(s, Some(addr(3, 1)));
    assert_eq!(to.connect, Some(d));
    let n = Timeouts::none();
    assert!(n.connect.is_none() && n.write.is_none());
}

#[test]
fn replies_settle_pending_requests_only() {
    let pending = vec![3u32, 9, 4];
    assert!(matches!(settle_reply(&pending, 9), ReplyStep::Deliver(9)));
    match settle_reply(&pending, 5) {
        ReplyStep::Fail(e) => assert_eq!(
            e,
            Error::Reply(
                "settling pending request",
                "invalid invoke id received from server, aborting connection",
                5
            )
        ),
        ReplyStep::Deliver(_) => panic!("an unknown invoke ID was delivered"),
    }
    assert!(matches!(settle_reply(&Vec::new(), 1), ReplyStep::Fail(_)));
}

#[test]
fn invoke_ids_count_up_from_one() {
    let mut ids = InvokeIds::new();
    assert_eq!(ids.take(), 1);
    assert_eq!(ids.take(), 2);
    assert_eq!(ids.take(), 3);
}
