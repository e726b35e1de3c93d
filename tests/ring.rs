use stardust::ring::{rd32, ring_capacity, Ring, RingError, PAGE_SIZE, RING_HEADER_SIZE};

fn respond(r: &mut Ring<u32>, idx: u32, value: u32) {
    let slot = r.slot(idx);
    r.sring.ring[slot] = value;
}

#[test]
fn rounds_down_to_powers_of_two() {
    assert_eq!(rd32(0), 0);
    assert_eq!(rd32(1), 1);
    assert_eq!(rd32(3), 2);
    assert_eq!(rd32(336), 256);
    assert_eq!(rd32(504), 256);
    assert_eq!(rd32(4096), 4096);
    assert_eq!(rd32(0xffff_ffff), 0x8000_0000);
}

#[test]
fn capacity_from_page_geometry() {
    assert_eq!(ring_capacity(12), 256);
    assert_eq!(ring_capacity(8), 256);
    assert_eq!(ring_capacity(1), 2048);
    assert_eq!(ring_capacity(PAGE_SIZE - RING_HEADER_SIZE), 1);
}

#[test]
fn fresh_ring_counters() {
    let r = Ring::new(8, 0u32);
    assert_eq!(r.size(), 256);
    assert_eq!(r.req_prod_pvt, 0);
    assert_eq!(r.rsp_cons, 0);
    assert_eq!(r.sring.req_prod, 0);
    assert_eq!(r.sring.req_event, 1);
    assert_eq!(r.sring.rsp_event, 1);
    assert_eq!(r.sring.ring.len(), 256);
}

#[test]
fn single_request_single_response() {
    let mut r = Ring::new(8, 0u32);
    assert_eq!(r.sring.req_prod, 0);
    r.push_request(11).unwrap();
    assert!(r.push_requests());
    assert_eq!(r.sring.req_prod, 1);
    respond(&mut r, 0, 42);
    r.sring.rsp_prod = 1;
    let got = r.drain_responses().unwrap();
    assert_eq!(got, vec![42]);
    assert_eq!(got.len(), 1);
    assert_eq!(r.rsp_cons, 1);
    assert_eq!(r.sring.rsp_event, 2);
}

#[test]
fn draining_nothing_only_arms_the_event() {
    let mut r = Ring::new(8, 0u32);
    r.push_request(1).unwrap();
    r.push_requests();
    let before = (r.req_prod_pvt, r.rsp_cons, r.sring.req_prod, r.sring.req_event, r.sring.rsp_prod);
    let got = r.drain_responses().unwrap();
    assert!(got.is_empty());
    assert_eq!(r.sring.rsp_event, r.rsp_cons + 1);
    let after = (r.req_prod_pvt, r.rsp_cons, r.sring.req_prod, r.sring.req_event, r.sring.rsp_prod);
    assert_eq!(before, after);
    let again = r.drain_responses().unwrap();
    assert!(again.is_empty());
    assert_eq!(r.sring.rsp_event, 1);
    assert_eq!(r.check_for_responses(), 0);
}

#[test]
fn wraps_from_last_slot_to_first() {
    let mut r = Ring::new(12, 0u32);
    assert_eq!(r.size(), 256);
    assert_eq!(r.slot(255), 255);
    assert_eq!(r.slot(256), 0);
    assert_eq!(r.slot(u32::MAX), 255);
    r.set(255, 0xaaaa);
    r.set(256, 0xbbbb);
    assert_eq!(r.get(255), 0xaaaa);
    assert_eq!(r.get(0), 0xbbbb);
    assert_eq!(r.get(256), 0xbbbb);
    assert_eq!(r.get(1), 0);
    assert_eq!(r.sring.req_prod, 0);
    assert_eq!(r.sring.req_event, 1);
    assert_eq!(r.sring.rsp_prod, 0);
    assert_eq!(r.sring.rsp_event, 1);
}

#[test]
fn requests_and_responses_straddle_the_end() {
    let mut r = Ring::new(12, 0u32);
    let mut published: u64 = 0;
    let mut drained: u64 = 0;
    for round in 0..3u32 {
        for k in 0..200u32 {
            r.push_request(round * 1000 + k).unwrap();
        }
        r.push_requests();
        published += 200;
        let start = r.sring.rsp_prod;
        for k in 0..200u32 {
            let v = r.get(start.wrapping_add(k));
            respond(&mut r, start.wrapping_add(k), v + 1);
        }
        r.sring.rsp_prod = start.wrapping_add(200);
        let prev = r.rsp_cons;
        let got = r.drain_responses().unwrap();
        drained += got.len() as u64;
        assert!(drained <= published);
        assert!(r.rsp_cons >= prev);
        for (k, v) in got.iter().enumerate() {
            assert_eq!(*v, round * 1000 + k as u32 + 1);
        }
    }
    assert_eq!(r.rsp_cons, 600);
    assert_eq!(drained, published);
}

#[test]
fn full_ring_refuses_a_request() {
    let mut r = Ring::new(12, 0u32);
    for k in 0..256u32 {
        assert_eq!(r.push_request(k), Ok(()));
    }
    assert_eq!(r.push_request(999), Err(RingError::Full));
    assert_eq!(r.req_prod_pvt, 256);
}

#[test]
fn peer_overrun_is_refused() {
    let mut r = Ring::new(8, 0u32);
    r.push_request(1).unwrap();
    r.push_requests();
    r.sring.rsp_prod = 5;
    assert_eq!(r.take_response(), Err(RingError::PeerOverrun));
    assert_eq!(r.drain_responses(), Err(RingError::PeerOverrun));
    assert_eq!(r.rsp_cons, 0);
}

#[test]
fn notification_only_when_threshold_crossed() {
    let mut r = Ring::new(8, 0u32);
    r.sring.req_event = 10;
    r.push_request(1).unwrap();
    assert!(!r.push_requests());
    for k in 0..9u32 {
        r.push_request(k).unwrap();
    }
    assert!(r.push_requests());
    assert_eq!(r.sring.req_prod, 10);
}

#[test]
fn take_response_one_at_a_time() {
    let mut r = Ring::new(8, 0u32);
    r.push_request(1).unwrap();
    r.push_request(2).unwrap();
    r.push_requests();
    assert_eq!(r.take_response(), Ok(None));
    respond(&mut r, 0, 10);
    respond(&mut r, 1, 20);
    r.sring.rsp_prod = 2;
    assert_eq!(r.unconsumed_responses(), 2);
    assert_eq!(r.take_response(), Ok(Some(10)));
    assert_eq!(r.take_response(), Ok(Some(20)));
    assert_eq!(r.take_response(), Ok(None));
    assert_eq!(r.rsp_cons, 2);
}
