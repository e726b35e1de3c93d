use stardust::xenbus::{
    get_u32, put_u32, ByteRing, MessageHeader, MessageKind, State, XenBus, XenbusError,
};
use stardust::xenstore;
use stardust::xenstore::XenStore;
use std::collections::HashMap;

fn frame(kind: u32, request_id: u32, tx: u32, payload: &[u8]) -> Vec<u8> {
    let mut msg = Vec::new();
    put_u32(&mut msg, kind);
    put_u32(&mut msg, request_id);
    put_u32(&mut msg, tx);
    put_u32(&mut msg, payload.len() as u32);
    msg.extend_from_slice(payload);
    msg
}

fn strip(b: &[u8]) -> Vec<u8> {
    match b.last() {
        Some(0) => b[..b.len() - 1].to_vec(),
        _ => b.to_vec(),
    }
}

/// Answers every whole request waiting on the ring, as the store would.
fn serve(bus: &mut XenBus, store: &mut HashMap<Vec<u8>, Vec<u8>>, domid: u32) {
    loop {
        let avail = bus.req.available();
        if avail < 16 {
            break;
        }
        let hdr = bus.req.peek(0, 16);
        let kind = get_u32(&hdr, 0);
        let rid = get_u32(&hdr, 4);
        let tx = get_u32(&hdr, 8);
        let len = get_u32(&hdr, 12);
        if avail < 16 + len {
            break;
        }
        let body = bus.req.peek(16, len);
        bus.req.consume(16 + len);
        let reply: Vec<u8> = match MessageKind::from_u32(kind) {
            MessageKind::Read => {
                let key = strip(&body);
                if key == b"domid" {
                    format!("{}", domid).into_bytes()
                } else {
                    store.get(&key).cloned().unwrap_or_default()
                }
            }
            MessageKind::Write => {
                let nul = body.iter().position(|b| *b == 0).unwrap();
                store.insert(body[..nul].to_vec(), body[nul + 1..].to_vec());
                b"OK\0".to_vec()
            }
            MessageKind::Directory => {
                let mut out = Vec::new();
                for k in store.keys() {
                    out.extend_from_slice(k);
                    out.push(0);
                }
                out
            }
            MessageKind::TransactionStart => b"5\0".to_vec(),
            _ => b"OK\0".to_vec(),
        };
        bus.rsp.write(&frame(kind, rid, tx, &reply));
    }
}

#[test]
fn message_kinds_round_trip() {
    assert_eq!(MessageKind::from_u32(0), MessageKind::Control);
    assert_eq!(MessageKind::from_u32(2), MessageKind::Read);
    assert_eq!(MessageKind::from_u32(11), MessageKind::Write);
    assert_eq!(MessageKind::from_u32(15), MessageKind::WatchEvent);
    assert_eq!(MessageKind::from_u32(21), MessageKind::ResetWatches);
    assert_eq!(MessageKind::from_u32(22), MessageKind::DirectoryPart);
    assert_eq!(MessageKind::from_u32(23), MessageKind::TypeCount);
    assert_eq!(MessageKind::from_u32(20), MessageKind::Invalid);
    assert_eq!(MessageKind::from_u32(0xffff), MessageKind::Invalid);
    assert_eq!(MessageKind::Debug.to_u32(), 0);
    assert_eq!(MessageKind::Invalid.to_u32(), 0xffff);
    assert_eq!(MessageKind::TransactionEnd.to_u32(), 7);
}

#[test]
fn states_round_trip() {
    assert_eq!(State::from_u32(4), Some(State::Connected));
    assert_eq!(State::Connected.to_u32(), 4);
    assert_eq!(State::from_u32(0), Some(State::Unknown));
    assert_eq!(State::from_u32(8), Some(State::Reconfigured));
    assert_eq!(State::from_u32(9), None);
}

#[test]
fn little_endian_words() {
    let mut v = Vec::new();
    put_u32(&mut v, 0x0403_0201);
    assert_eq!(v, vec![1, 2, 3, 4]);
    assert_eq!(get_u32(&v, 0), 0x0403_0201);
}

#[test]
fn byte_ring_wraps() {
    let mut r = ByteRing::new();
    assert_eq!(r.space(), 1024);
    let first: Vec<u8> = (0..1000u32).map(|i| i as u8).collect();
    r.write(&first);
    assert_eq!(r.available(), 1000);
    r.consume(1000);
    let second: Vec<u8> = (0..50u8).collect();
    r.write(&second);
    assert_eq!(r.peek(0, 50), second);
    assert_eq!(r.buf[1000], 0);
    assert_eq!(r.buf[1023], 23);
    assert_eq!(r.buf[0], 24);
    assert_eq!(r.peek(20, 10), (20..30u8).collect::<Vec<u8>>());
}

#[test]
fn request_is_framed_header_then_segments() {
    let mut bus = XenBus::new();
    let h = MessageHeader { kind: MessageKind::Write, request_id: 0, transaction_id: 9 };
    bus.write(h, &[&b"a/b\0"[..], &b"xy"[..]]).unwrap();
    let n = bus.req.available();
    assert_eq!(n, 22);
    let bytes = bus.req.peek(0, n);
    assert_eq!(bytes, frame(11, 0, 9, b"a/b\0xy"));
}

#[test]
fn oversized_or_blocked_requests() {
    let mut bus = XenBus::new();
    let h = MessageHeader { kind: MessageKind::Write, request_id: 0, transaction_id: 0 };
    let big = vec![1u8; 1008];
    assert_eq!(bus.write(h, &[&big[..]]), Err(XenbusError::TooLarge));
    let ok = vec![1u8; 1007];
    assert_eq!(bus.write(h, &[&ok[..500], &ok[500..]]), Ok(()));
    assert_eq!(bus.req.available(), 1023);
    assert_eq!(bus.write(h, &[&b""[..]]), Err(XenbusError::Busy));
    assert_eq!(bus.req.available(), 1023);
}

#[test]
fn partial_message_stays_invisible() {
    let mut bus = XenBus::new();
    let msg = frame(2, 0, 0, b"hello\0");
    bus.rsp.write(&msg[..10]);
    assert_eq!(bus.receive(), Ok(false));
    assert_eq!(bus.poll_response(0), Ok(None));
    bus.rsp.write(&msg[10..]);
    let r = bus.poll_response(0).unwrap().unwrap();
    assert_eq!(r.payload, b"hello".to_vec());
    assert_eq!(r.header.kind, MessageKind::Read);
    assert_eq!(bus.rsp.available(), 0);
}

#[test]
fn watch_events_are_kept_apart() {
    let mut bus = XenBus::new();
    bus.rsp.write(&frame(15, 0, 0, b"path\0token\0"));
    bus.rsp.write(&frame(2, 0, 0, b"v"));
    assert_eq!(bus.receive(), Ok(true));
    assert_eq!(bus.watch_events.len(), 1);
    assert!(bus.responses.is_empty());
    assert_eq!(bus.take_response(0), None);
    assert_eq!(bus.receive(), Ok(true));
    let r = bus.take_response(0).unwrap();
    assert_eq!(r.payload, b"v".to_vec());
}

#[test]
fn impossible_length_is_malformed() {
    let mut bus = XenBus::new();
    let mut msg = Vec::new();
    put_u32(&mut msg, 2);
    put_u32(&mut msg, 0);
    put_u32(&mut msg, 0);
    put_u32(&mut msg, 5000);
    bus.rsp.write(&msg);
    assert_eq!(bus.receive(), Err(XenbusError::Malformed));
    assert_eq!(bus.rsp.available(), 16);
}

#[test]
fn responses_are_matched_by_request_id() {
    let mut bus = XenBus::new();
    bus.rsp.write(&frame(2, 4, 0, b"four"));
    bus.rsp.write(&frame(2, 3, 0, b"three"));
    let r = bus.poll_response(3).unwrap().unwrap();
    assert_eq!(r.payload, b"three".to_vec());
    assert_eq!(r.header.request_id, 3);
    let r = bus.take_response(4).unwrap();
    assert_eq!(r.payload, b"four".to_vec());
}

#[test]
fn domid_then_write_and_read_in_one_transaction() {
    let mut bus = XenBus::new();
    let mut store = HashMap::new();

    xenstore::read(&mut bus, 0, 0, b"domid\0").unwrap();
    serve(&mut bus, &mut store, 7);
    let r = bus.poll_response(0).unwrap().unwrap();
    assert_eq!(xenstore::domain_id(&r.payload), Some(7));

    let h = MessageHeader { kind: MessageKind::TransactionStart, request_id: 0, transaction_id: 0 };
    bus.write(h, &[&b"\0"[..]]).unwrap();
    serve(&mut bus, &mut store, 7);
    let r = bus.poll_response(0).unwrap().unwrap();
    let tx = xenstore::parse_u32(&r.payload).unwrap();
    assert_eq!(tx, 5);

    xenstore::write(&mut bus, 0, tx, b"data/greeting\0", b"hello").unwrap();
    serve(&mut bus, &mut store, 7);
    let r = bus.poll_response(0).unwrap().unwrap();
    assert_eq!(r.payload, b"OK".to_vec());
    assert_eq!(r.header.transaction_id, tx);

    xenstore::read(&mut bus, 0, tx, b"data/greeting\0").unwrap();
    serve(&mut bus, &mut store, 7);
    let r = bus.poll_response(0).unwrap().unwrap();
    assert_eq!(xenstore::read_value(&r.payload), Some("hello".to_string()));

    xenstore::ls(&mut bus, 0, tx, b"data\0").unwrap();
    serve(&mut bus, &mut store, 7);
    let r = bus.poll_response(0).unwrap().unwrap();
    assert_eq!(xenstore::ls_entries(&r.payload), vec!["data/greeting".to_string()]);
}

#[test]
fn client_numbers_its_requests() {
    let mut client = XenStore::new();
    let mut store = HashMap::new();
    assert_eq!(client.write(0, b"a\0", b"1"), Ok(0));
    assert_eq!(client.read(0, b"a\0"), Ok(1));
    assert_eq!(client.req_id, 2);
    serve(&mut client.bus, &mut store, 7);
    let second = client.response(1).unwrap().unwrap();
    assert_eq!(second.header.request_id, 1);
    assert_eq!(second.payload, b"1".to_vec());
    let first = client.response(0).unwrap().unwrap();
    assert_eq!(first.header.request_id, 0);
    assert_eq!(first.payload, b"OK".to_vec());
    assert_eq!(client.response(5), Ok(None));
    assert_eq!(client.ls(0, b"\0"), Ok(2));
}

#[test]
fn later_answer_with_the_same_id_replaces_the_first() {
    let mut bus = XenBus::new();
    bus.rsp.write(&frame(2, 6, 0, b"old"));
    bus.rsp.write(&frame(2, 6, 0, b"new"));
    assert_eq!(bus.receive(), Ok(true));
    assert_eq!(bus.receive(), Ok(true));
    assert_eq!(bus.responses.len(), 1);
    assert_eq!(bus.take_response(6).unwrap().payload, b"new".to_vec());
    assert_eq!(bus.take_response(6), None);
}
