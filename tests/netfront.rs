use stardust::grant_table::{GrantTable, GTF_PERMIT_ACCESS, GTF_READONLY};
use stardust::memory::MachineFrameNumber;
use stardust::netfront::{
    connect_advance, parse_mac, ConnectError, ConnectStep, Device, Freelist, NetError, RxRequest,
    RxResponse, RxSlot, TxResponse, TxSlot, NETIF_RSP_NULL, NETIF_RSP_OKAY,
};
use stardust::xenbus::{get_u32, State, XenBus};

fn frames(base: usize) -> Vec<MachineFrameNumber> {
    (0..256).map(|i| MachineFrameNumber(base + i)).collect()
}

fn device(gt: &mut GrantTable) -> Device {
    Device::new([0, 1, 2, 3, 4, 5], 1, 9, MachineFrameNumber(10), MachineFrameNumber(11), frames(1000), frames(2000), gt)
        .unwrap()
}

#[test]
fn freelist_is_last_in_first_out() {
    let mut f = Freelist::new();
    assert_eq!(f.get(), None);
    f.add(3);
    f.add(8);
    assert_eq!(f.get(), Some(8));
    assert_eq!(f.get(), Some(3));
    assert_eq!(f.get(), None);
}

#[test]
fn new_device_grants_its_rings() {
    let mut gt = GrantTable::new();
    let d = device(&mut gt);
    assert_eq!(d.tx.size(), 256);
    assert_eq!(d.rx.size(), 256);
    assert_eq!(gt.table[d.tx_ring_ref as usize].frame, 10);
    assert_eq!(gt.table[d.rx_ring_ref as usize].frame, 11);
    assert_eq!(gt.table[d.tx_ring_ref as usize].domid, 0);
    assert_eq!(d.tx_freelist.ids.len(), 256);
}

#[test]
fn oversized_frame_is_refused() {
    let mut gt = GrantTable::new();
    let mut tx = frames(0);
    tx[17] = MachineFrameNumber(1usize << 40);
    let r = Device::new([0; 6], 1, 9, MachineFrameNumber(10), MachineFrameNumber(11), tx, frames(0), &mut gt);
    assert!(matches!(r, Err(NetError::BadFrame)));
}

#[test]
fn receive_buffers_are_posted_and_recycled() {
    let mut gt = GrantTable::new();
    let mut d = device(&mut gt);
    assert!(d.init_rx_buffers(&mut gt).unwrap());
    assert_eq!(d.rx.sring.req_prod, 256);
    for i in 0..256usize {
        let g = d.rx_grefs[i];
        assert_eq!(d.rx.sring.ring[i], RxSlot::Request(RxRequest { id: i as u16, gref: g }));
        assert_eq!(gt.table[g as usize].flags, GTF_PERMIT_ACCESS);
        assert_eq!(gt.table[g as usize].domid, 1);
        assert_eq!(gt.table[g as usize].frame, 2000 + i as u32);
    }
    assert_eq!(d.rx(&mut gt).unwrap(), (None, false));

    // the back end fills buffer 7 with a packet of 3 bytes at offset 10
    d.rx_pages[7][10] = 0xde;
    d.rx_pages[7][11] = 0xad;
    d.rx_pages[7][12] = 0xbe;
    d.rx.sring.ring[0] = RxSlot::Response(RxResponse { id: 7, offset: 10, flags: 0, status: 3 });
    d.rx.sring.rsp_prod = 1;
    let old_gref = d.rx_grefs[7];
    let (packet, _) = d.rx(&mut gt).unwrap();
    assert_eq!(packet, Some(vec![0xde, 0xad, 0xbe]));
    assert_eq!(d.rx.rsp_cons, 1);
    assert_eq!(d.rx_grefs[7], old_gref);
    assert_eq!(d.rx.sring.ring[0], RxSlot::Request(RxRequest { id: 7, gref: old_gref }));
    assert_eq!(d.rx.sring.req_prod, 257);
}

#[test]
fn failed_receive_gives_no_packet() {
    let mut gt = GrantTable::new();
    let mut d = device(&mut gt);
    d.init_rx_buffers(&mut gt).unwrap();
    d.rx.sring.ring[0] = RxSlot::Response(RxResponse { id: 2, offset: 0, flags: 0, status: -1 });
    d.rx.sring.rsp_prod = 1;
    assert_eq!(d.rx(&mut gt).unwrap().0, None);
    d.rx.sring.ring[1] = RxSlot::Response(RxResponse { id: 300, offset: 0, flags: 0, status: 1 });
    d.rx.sring.rsp_prod = 2;
    assert!(matches!(d.rx(&mut gt), Err(NetError::BadId)));
}

#[test]
fn transmit_then_reclaim() {
    let mut gt = GrantTable::new();
    let mut d = device(&mut gt);
    d.tx(&mut gt, b"ping").unwrap();
    assert_eq!(d.tx_freelist.ids.len(), 255);
    assert_eq!(&d.tx_pages[255][..4], b"ping");
    let g = d.tx_grefs[255];
    assert_eq!(gt.table[g as usize].flags, GTF_PERMIT_ACCESS | GTF_READONLY);
    assert_eq!(gt.table[g as usize].frame, 1255);
    match d.tx.sring.ring[0] {
        TxSlot::Request(r) => {
            assert_eq!(r.id, 255);
            assert_eq!(r.size, 4);
            assert_eq!(r.offset, 0);
            assert_eq!(r.gref, g);
        }
        _ => panic!("no request posted"),
    }
    assert_eq!(d.tx.sring.req_prod, 1);
    assert_eq!(d.process_transmissions(&mut gt).unwrap(), 0);

    d.tx.sring.ring[0] = TxSlot::Response(TxResponse { id: 255, status: NETIF_RSP_OKAY });
    d.tx.sring.rsp_prod = 1;
    assert_eq!(d.process_transmissions(&mut gt).unwrap(), 1);
    assert_eq!(d.tx_freelist.ids.len(), 256);
    assert_eq!(gt.table[g as usize].flags, 0);
}

#[test]
fn empty_transmit_response_is_passed_over() {
    let mut gt = GrantTable::new();
    let mut d = device(&mut gt);
    d.tx(&mut gt, b"a").unwrap();
    d.tx.sring.ring[0] = TxSlot::Response(TxResponse { id: 255, status: NETIF_RSP_NULL });
    d.tx.sring.rsp_prod = 1;
    assert_eq!(d.process_transmissions(&mut gt).unwrap(), 0);
    assert_eq!(d.tx_freelist.ids.len(), 255);
    assert_eq!(d.tx.rsp_cons, 1);
}

#[test]
fn transmit_limits() {
    let mut gt = GrantTable::new();
    let mut d = device(&mut gt);
    let big = vec![0u8; 4097];
    assert!(matches!(d.tx(&mut gt, &big), Err(NetError::TooLong)));
    for _ in 0..256 {
        d.tx(&mut gt, b"x").unwrap();
    }
    assert!(matches!(d.tx(&mut gt, b"x"), Err(NetError::NoFreeBuffer)));
}

#[test]
fn mac_addresses() {
    assert_eq!(parse_mac(b"00:16:3e:5a:0C:ff"), Some([0x00, 0x16, 0x3e, 0x5a, 0x0c, 0xff]));
    assert_eq!(parse_mac(b"00:16:3e:5a:0c"), None);
    assert_eq!(parse_mac(b"00-16-3e-5a-0c-01"), None);
    assert_eq!(parse_mac(b"00:16:3g:5a:0c:01"), None);
}

#[test]
fn handshake_requests_and_answers() {
    let mut gt = GrantTable::new();
    let d = device(&mut gt);
    let mut bus = XenBus::new();

    d.send_connect_request(&mut bus, ConnectStep::Start, 0).unwrap();
    let n = bus.req.available();
    let msg = bus.req.peek(0, n);
    assert_eq!(get_u32(&msg, 0), 6);
    assert_eq!(&msg[16..], b"\0");
    bus.req.consume(n);
    assert_eq!(connect_advance(ConnectStep::Start, 0, b"12"), Ok((ConnectStep::TxRingRef, 12, None)));
    assert_eq!(connect_advance(ConnectStep::Start, 0, b"x"), Err(ConnectError::BadTransaction));

    d.send_connect_request(&mut bus, ConnectStep::TxRingRef, 12).unwrap();
    let n = bus.req.available();
    let msg = bus.req.peek(0, n);
    assert_eq!(get_u32(&msg, 0), 11);
    assert_eq!(get_u32(&msg, 8), 12);
    let mut expect = b"device/vif/0/tx-ring-ref\0".to_vec();
    expect.extend_from_slice(format!("{}", d.tx_ring_ref).as_bytes());
    assert_eq!(&msg[16..], &expect[..]);
    bus.req.consume(n);

    d.send_connect_request(&mut bus, ConnectStep::SetConnected, 12).unwrap();
    let n = bus.req.available();
    let msg = bus.req.peek(0, n);
    assert_eq!(&msg[16..], b"device/vif/0/state\x004");
    bus.req.consume(n);

    assert_eq!(
        connect_advance(ConnectStep::ReadState, 12, b"2"),
        Ok((ConnectStep::SetConnected, 12, Some(State::InitWait)))
    );
    assert_eq!(connect_advance(ConnectStep::CheckState, 12, b"9"), Err(ConnectError::BadState));
    assert_eq!(connect_advance(ConnectStep::End, 12, b"OK"), Ok((ConnectStep::Done, 12, None)));
    assert_eq!(
        d.send_connect_request(&mut bus, ConnectStep::Done, 12),
        Err(ConnectError::Finished)
    );
}

#[test]
fn whole_handshake_walks_every_step() {
    let mut step = ConnectStep::Start;
    let mut txn = 0;
    let mut seen = Vec::new();
    while step != ConnectStep::Done {
        seen.push(step);
        let answer: &[u8] = match step {
            ConnectStep::Start => b"3",
            ConnectStep::ReadState | ConnectStep::CheckState => b"4",
            _ => b"OK",
        };
        let (next, t, _) = connect_advance(step, txn, answer).unwrap();
        step = next;
        txn = t;
    }
    assert_eq!(txn, 3);
    assert_eq!(seen.len(), 9);
}

#[test]
fn backend_domain_ids() {
    assert_eq!(stardust::netfront::get_backend_domain(b"0"), Some(0));
    assert_eq!(stardust::netfront::get_backend_domain(b"65535"), Some(65535));
    assert_eq!(stardust::netfront::get_backend_domain(b"65536"), None);
    assert_eq!(stardust::netfront::get_backend_domain(b"dom0"), None);
}

#[test]
fn transmit_fills_the_last_slot_then_wraps() {
    let mut gt = GrantTable::new();
    let mut d = device(&mut gt);
    for _ in 0..255 {
        d.tx(&mut gt, b"x").unwrap();
        let k = d.tx.rsp_cons;
        d.tx.sring.ring[(k & 255) as usize] = TxSlot::Response(TxResponse { id: match d.tx.sring.ring[(k & 255) as usize] { TxSlot::Request(r) => r.id, _ => 0 }, status: NETIF_RSP_OKAY });
        d.tx.sring.rsp_prod = k + 1;
        assert_eq!(d.process_transmissions(&mut gt).unwrap(), 1);
    }
    assert_eq!(d.tx.req_prod_pvt, 255);
    let (ev, rp, re) = (d.tx.sring.req_event, d.tx.sring.rsp_prod, d.tx.sring.rsp_event);
    d.tx(&mut gt, b"last").unwrap();
    assert!(matches!(d.tx.get(255), TxSlot::Request(r) if r.size == 4));
    assert_eq!(d.tx.req_prod_pvt, 256);
    assert_eq!(d.tx.sring.req_prod, 256);
    assert_eq!((d.tx.sring.req_event, d.tx.sring.rsp_prod, d.tx.sring.rsp_event), (ev, rp, re));
    assert_eq!(d.tx.slot(d.tx.req_prod_pvt), 0);
}

#[test]
fn receive_with_a_stale_grant_consumes_without_reposting() {
    let mut gt = GrantTable::new();
    let mut d = device(&mut gt);
    d.init_rx_buffers(&mut gt).unwrap();
    gt.grant_end(d.rx_grefs[4]).unwrap();
    d.rx.sring.ring[0] = RxSlot::Response(RxResponse { id: 4, offset: 0, flags: 0, status: 1 });
    d.rx.sring.rsp_prod = 1;
    assert!(matches!(d.rx(&mut gt), Err(NetError::Grant(_))));
    assert_eq!(d.rx.rsp_cons, 1);
    assert_eq!(d.rx.req_prod_pvt, 256);
}

#[test]
fn receive_buffers_get_distinct_references() {
    let mut gt = GrantTable::new();
    let mut d = device(&mut gt);
    assert!(d.init_rx_buffers(&mut gt).unwrap());
    let mut refs = d.rx_grefs.clone();
    refs.sort();
    refs.dedup();
    assert_eq!(refs.len(), 256);
    assert_eq!(d.rx.sring.rsp_event, 1);
}
