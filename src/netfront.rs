//! The network front end: buffers granted to the back end and exchanged
//! over a transmit ring and a receive ring.
use vstd::prelude::*;

use crate::grant_table::{valid_ref, GrantEntry, GrantError, GrantTable, GTF_PERMIT_ACCESS, GTF_READONLY};
use crate::memory::MachineFrameNumber;
use crate::ring::{distance, is_floor_pow2, Ring, RingError, PAGE_SIZE, RING_HEADER_SIZE};
use crate::xenbus::{
    concat, header_bytes, MessageHeader, MessageKind, State, XenBus, XenbusError, HEADER_SIZE, MAX_PAYLOAD,
    XENSTORE_RING_SIZE,
};
use crate::xenstore::{decimal_bytes, digits, parse_u32, parsed_u32};
use vstd::string::StringSliceAdditionalSpecFns;

verus! {

/// Slots in each ring and buffers on each side.
pub const RING_SIZE: usize = 256;

/// Bytes of one transmit slot.
pub const TX_ENTRY_SIZE: usize = 12;

/// Bytes of one receive slot.
pub const RX_ENTRY_SIZE: usize = 8;

/// Status of a transmit response the back end has not filled in.
pub const NETIF_RSP_NULL: i16 = 1;

/// Status of a failed transmission.
pub const NETIF_RSP_ERROR: i16 = -1;

/// Status of a successful transmission.
pub const NETIF_RSP_OKAY: i16 = 0;

/// A free buffer ids stack.
pub struct Freelist {
    pub ids: Vec<usize>,
}

impl Freelist {
    /// An empty list.
    pub fn new() -> (r: Self)
        ensures
            r.ids@ == Seq::<usize>::empty(),
    {
        Freelist { ids: Vec::new() }
    }

    /// Makes `id` the next one handed out.
    pub fn add(&mut self, id: usize)
        ensures
            final(self).ids@ == old(self).ids@.push(id),
    {
        self.ids.push(id);
    }

    /// The id added last and not handed out since; `None` when empty.
    pub fn get(&mut self) -> (r: Option<usize>)
        ensures
            old(self).ids@.len() == 0 ==> r is None && final(self).ids@ == old(self).ids@,
            old(self).ids@.len() > 0 ==> r == Some(old(self).ids@.last()) && final(self).ids@
                == old(self).ids@.drop_last(),
    {
        self.ids.pop()
    }
}

/// A receive request: a buffer the back end may fill.
#[derive(Debug, Clone, Copy, PartialEq, Eq, Structural)]
pub struct RxRequest {
    pub id: u16,
    pub gref: u32,
}

/// A receive response: which buffer was filled, where, and how many bytes
/// (a negative status is an error).
#[derive(Debug, Clone, Copy, PartialEq, Eq, Structural)]
pub struct RxResponse {
    pub id: u16,
    pub offset: u16,
    pub flags: u16,
    pub status: i16,
}

/// A receive slot holds a request or, once answered, a response.
#[derive(Debug, Clone, Copy, PartialEq, Eq, Structural)]
pub enum RxSlot {
    Request(RxRequest),
    Response(RxResponse),
}

/// A transmit request: a granted buffer holding `size` bytes from `offset`.
#[derive(Debug, Clone, Copy, PartialEq, Eq, Structural)]
pub struct TxRequest {
    pub gref: u32,
    pub offset: u16,
    pub flags: u16,
    pub id: u16,
    pub size: u16,
}

/// A transmit response: the buffer that was sent and the outcome.
#[derive(Debug, Clone, Copy, PartialEq, Eq, Structural)]
pub struct TxResponse {
    pub id: u16,
    pub status: i16,
}

/// A transmit slot holds a request or, once answered, a response.
#[derive(Debug, Clone, Copy, PartialEq, Eq, Structural)]
pub enum TxSlot {
    Request(TxRequest),
    Response(TxResponse),
}

/// Errors of the network front end.
#[derive(Debug, Clone, Copy, PartialEq, Eq, Structural)]
pub enum NetError {
    Grant(GrantError),
    Ring(RingError),
    /// Every transmit buffer is in flight.
    NoFreeBuffer,
    /// A packet larger than a buffer.
    TooLong,
    /// A response names a buffer that does not exist.
    BadId,
    /// A receive response whose bytes do not lie within its buffer.
    BadResponse,
    /// A frame number that a grant entry cannot hold.
    BadFrame,
}

/// A ring page with room for 256 to 511 slots holds 256 of them.
proof fn lemma_ring_size(fit: u32, r: u32)
    requires
        256 <= fit < 512,
        is_floor_pow2(fit, r),
    ensures
        r == RING_SIZE,
{
    assert(r & vstd::prelude::sub(r, 1) == 0 && r < 512 && 128 < r ==> r == 256) by (bit_vector);
}

/// Whether every frame number fits a grant entry.
fn frames_fit(frames: &Vec<MachineFrameNumber>) -> (r: bool)
    ensures
        r == forall|i: int| 0 <= i < frames@.len() ==> (#[trigger] frames@[i]).0 <= u32::MAX,
{
    let mut i: usize = 0;
    while i < frames.len()
        invariant
            i <= frames@.len(),
            forall|j: int| 0 <= j < i ==> (#[trigger] frames@[j]).0 <= u32::MAX,
        decreases frames@.len() - i,
    {
        if frames[i].0 > 0xffff_ffff {
            return false;
        }
        i = i + 1;
    }
    true
}

fn zero_page() -> (r: Vec<u8>)
    ensures
        r@.len() == PAGE_SIZE,
{
    let mut page: Vec<u8> = Vec::new();
    let mut k: usize = 0;
    while k < PAGE_SIZE
        invariant
            k <= PAGE_SIZE,
            page@.len() == k,
        decreases PAGE_SIZE - k,
    {
        page.push(0);
        k = k + 1;
    }
    page
}

/// `n` zeroed pages and as many zero grant references.
fn make_buffers(n: usize) -> (r: (Vec<Vec<u8>>, Vec<u32>))
    ensures
        r.0@.len() == n,
        r.1@.len() == n,
        forall|i: int| 0 <= i < n ==> (#[trigger] r.0@[i])@.len() == PAGE_SIZE,
{
    let mut pages: Vec<Vec<u8>> = Vec::new();
    let mut grefs: Vec<u32> = Vec::new();
    let mut i: usize = 0;
    while i < n
        invariant
            i <= n,
            pages@.len() == i,
            grefs@.len() == i,
            forall|j: int| 0 <= j < i ==> (#[trigger] pages@[j])@.len() == PAGE_SIZE,
        decreases n - i,
    {
        pages.push(zero_page());
        grefs.push(0);
        i = i + 1;
    }
    (pages, grefs)
}

/// The front end of one network device. Buffer `i` of a side is the page
/// `*_pages[i]` on machine frame `*_frames[i]`, granted under `*_grefs[i]`.
pub struct Device {
    pub mac: [u8; 6],
    pub backend_domain: u16,
    pub event_channel_port: u32,
    pub tx: Ring<TxSlot>,
    pub tx_ring_ref: u32,
    pub tx_pages: Vec<Vec<u8>>,
    pub tx_frames: Vec<MachineFrameNumber>,
    pub tx_grefs: Vec<u32>,
    pub tx_freelist: Freelist,
    pub rx: Ring<RxSlot>,
    pub rx_ring_ref: u32,
    pub rx_pages: Vec<Vec<u8>>,
    pub rx_frames: Vec<MachineFrameNumber>,
    pub rx_grefs: Vec<u32>,
}

impl Device {
    pub open spec fn wf(&self) -> bool {
        &&& self.tx.wf()
        &&& self.rx.wf()
        &&& self.tx.nr_ents == RING_SIZE
        &&& self.rx.nr_ents == RING_SIZE
        &&& self.tx_pages@.len() == RING_SIZE
        &&& self.tx_frames@.len() == RING_SIZE
        &&& self.tx_grefs@.len() == RING_SIZE
        &&& self.rx_pages@.len() == RING_SIZE
        &&& self.rx_frames@.len() == RING_SIZE
        &&& self.rx_grefs@.len() == RING_SIZE
        &&& forall|i: int| 0 <= i < RING_SIZE ==> (#[trigger] self.tx_pages@[i])@.len() == PAGE_SIZE
        &&& forall|i: int| 0 <= i < RING_SIZE ==> (#[trigger] self.rx_pages@[i])@.len() == PAGE_SIZE
        &&& forall|i: int| 0 <= i < RING_SIZE ==> (#[trigger] self.tx_frames@[i]).0 <= u32::MAX
        &&& forall|i: int| 0 <= i < RING_SIZE ==> (#[trigger] self.rx_frames@[i]).0 <= u32::MAX
        &&& forall|i: int| 0 <= i < self.tx_freelist.ids@.len() ==> #[trigger] self.tx_freelist.ids@[i] < RING_SIZE
    }

    /// Sets up a device: both rings, every transmit buffer free, and the two
    /// ring pages granted to domain 0, where the back end runs. Fails when a
    /// frame number does not fit a grant entry or no grant reference is left.
    pub fn new(
        mac: [u8; 6],
        backend_domain: u16,
        event_channel_port: u32,
        tx_ring_frame: MachineFrameNumber,
        rx_ring_frame: MachineFrameNumber,
        tx_frames: Vec<MachineFrameNumber>,
        rx_frames: Vec<MachineFrameNumber>,
        gt: &mut GrantTable,
    ) -> (r: Result<Device, NetError>)
        requires
            old(gt).wf(),
            tx_frames@.len() == RING_SIZE,
            rx_frames@.len() == RING_SIZE,
        ensures
            final(gt).wf(),
            r matches Ok(d) ==> {
                &&& d.wf()
                &&& d.tx.written() == 0 && d.rx.written() == 0
                &&& d.tx.consumed() == 0 && d.rx.consumed() == 0
                &&& d.tx_freelist.ids@.len() == RING_SIZE
                &&& d.mac == mac && d.backend_domain == backend_domain
                &&& d.event_channel_port == event_channel_port
                &&& d.tx_frames@ == tx_frames@ && d.rx_frames@ == rx_frames@
                &&& final(gt).granted(d.tx_ring_ref) && final(gt).granted(d.rx_ring_ref)
                &&& d.tx_ring_ref != d.rx_ring_ref
            },
            (forall|i: int| 0 <= i < RING_SIZE ==> (#[trigger] tx_frames@[i]).0 <= u32::MAX) && (forall|i: int|
                0 <= i < RING_SIZE ==> (#[trigger] rx_frames@[i]).0 <= u32::MAX) && tx_ring_frame.0 <= u32::MAX
                && rx_ring_frame.0 <= u32::MAX ==> (r is Ok <==> old(gt).free@.len() >= 2),
            (exists|i: int| 0 <= i < RING_SIZE && (#[trigger] tx_frames@[i]).0 > u32::MAX)
                || (exists|i: int| 0 <= i < RING_SIZE && (#[trigger] rx_frames@[i]).0 > u32::MAX)
                || tx_ring_frame.0 > u32::MAX || rx_ring_frame.0 > u32::MAX
                ==> r == Err::<Device, NetError>(NetError::BadFrame),
    {
        if !frames_fit(&tx_frames) || !frames_fit(&rx_frames) {
            return Err(NetError::BadFrame);
        }
        if tx_ring_frame.0 > 0xffff_ffff || rx_ring_frame.0 > 0xffff_ffff {
            return Err(NetError::BadFrame);
        }
        let tx = Ring::new(TX_ENTRY_SIZE, TxSlot::Response(TxResponse { id: 0, status: 0 }));
        let rx = Ring::new(
            RX_ENTRY_SIZE,
            RxSlot::Response(RxResponse { id: 0, offset: 0, flags: 0, status: 0 }),
        );
        proof {
            lemma_ring_size(((PAGE_SIZE - RING_HEADER_SIZE) / TX_ENTRY_SIZE as int) as u32, tx.nr_ents);
            lemma_ring_size(((PAGE_SIZE - RING_HEADER_SIZE) / RX_ENTRY_SIZE as int) as u32, rx.nr_ents);
        }
        let mut tx_freelist = Freelist::new();
        let mut k: usize = 0;
        while k < RING_SIZE
            invariant
                *gt == *old(gt),
                gt.wf(),
                tx_frames@.len() == RING_SIZE,
                rx_frames@.len() == RING_SIZE,
                forall|j: int| 0 <= j < RING_SIZE ==> (#[trigger] tx_frames@[j]).0 <= u32::MAX,
                forall|j: int| 0 <= j < RING_SIZE ==> (#[trigger] rx_frames@[j]).0 <= u32::MAX,
                k <= RING_SIZE,
                tx_freelist.ids@.len() == k,
                forall|j: int| 0 <= j < k ==> #[trigger] tx_freelist.ids@[j] == j,
            decreases RING_SIZE - k,
        {
            tx_freelist.add(k);
            k = k + 1;
        }
        let tx_ring_ref = match gt.grant_access(0, tx_ring_frame, false) {
            Ok(g) => g,
            Err(e) => {
                return Err(NetError::Grant(e));
            },
        };
        let ghost gt1 = *gt;
        let rx_ring_ref = match gt.grant_access(0, rx_ring_frame, false) {
            Ok(g) => g,
            Err(e) => {
                return Err(NetError::Grant(e));
            },
        };
        proof {
            crate::grant_table::lemma_grant_is_fresh(*old(gt), gt1, 0, tx_ring_frame.0 as u32, 1, tx_ring_ref);
            crate::grant_table::lemma_grant_is_fresh(gt1, *gt, 0, rx_ring_frame.0 as u32, 1, rx_ring_ref);
        }
        let (tx_pages, tx_grefs) = make_buffers(RING_SIZE);
        let (rx_pages, rx_grefs) = make_buffers(RING_SIZE);
        Ok(Device {
            mac,
            backend_domain,
            event_channel_port,
            tx,
            tx_ring_ref,
            tx_pages,
            tx_frames,
            tx_grefs,
            tx_freelist,
            rx,
            rx_ring_ref,
            rx_pages,
            rx_frames,
            rx_grefs,
        })
    }

    /// Grants every receive buffer to the back end for writing and posts
    /// request `i` for buffer `i` in slot `i`, publishes them, and asks for a
    /// notification at the first response. Returns whether the back end is
    /// to be notified. Fails when fewer than 256 grant references are free.
    #[verifier::rlimit(100)]
    pub fn init_rx_buffers(&mut self, gt: &mut GrantTable) -> (r: Result<bool, NetError>)
        requires
            old(self).wf(),
            old(gt).wf(),
            old(self).rx.written() == 0,
        ensures
            final(self).wf(),
            final(gt).wf(),
            r is Err <==> old(gt).free@.len() < RING_SIZE,
            r matches Ok(n) ==> n == (distance(RING_SIZE as u32, old(self).rx.sring.req_event) < RING_SIZE),
            r is Ok ==> forall|i: int, j: int| 0 <= i < j < RING_SIZE ==> final(self).rx_grefs@[i]
                != final(self).rx_grefs@[j],
            r is Ok ==> {
                &&& final(self).rx.published() == RING_SIZE
                &&& final(self).rx.written() == RING_SIZE
                &&& final(self).rx.sring.rsp_event == vstd::wrapping::u32_specs::wrapping_add(final(self).rx.rsp_cons, 1)
                &&& forall|i: int| 0 <= i < RING_SIZE ==> #[trigger] final(self).rx.sring.ring@[i] == RxSlot::Request(
                    RxRequest { id: i as u16, gref: final(self).rx_grefs@[i] },
                )
                &&& forall|i: int| 0 <= i < RING_SIZE ==> final(gt).granted(#[trigger] final(self).rx_grefs@[i])
                &&& forall|i: int| 0 <= i < RING_SIZE ==> final(gt).table@[#[trigger] final(self).rx_grefs@[i] as int]
                    == (GrantEntry {
                    flags: GTF_PERMIT_ACCESS,
                    domid: old(self).backend_domain,
                    frame: old(self).rx_frames@[i].0 as u32,
                })
            },
    {
        let mut i: usize = 0;
        while i < RING_SIZE
            invariant
                self.wf(),
                gt.wf(),
                i <= RING_SIZE,
                self.backend_domain == old(self).backend_domain,
                self.rx_frames == old(self).rx_frames,
                self.rx.written() == i,
                self.rx.consumed() == old(self).rx.consumed(),
                old(self).rx.written() == 0,
                self.rx.published() == 0,
                self.rx.sring.req_event == old(self).rx.sring.req_event,
                forall|a: int, b: int| 0 <= a < b < i ==> self.rx_grefs@[a] != self.rx_grefs@[b],
                gt.free@.len() + i == old(gt).free@.len(),
                forall|j: int| 0 <= j < i ==> #[trigger] self.rx.sring.ring@[j] == RxSlot::Request(
                    RxRequest { id: j as u16, gref: self.rx_grefs@[j] },
                ),
                forall|j: int| 0 <= j < i ==> gt.granted(#[trigger] self.rx_grefs@[j]),
                forall|j: int| 0 <= j < i ==> gt.table@[#[trigger] self.rx_grefs@[j] as int] == (GrantEntry {
                    flags: GTF_PERMIT_ACCESS,
                    domid: self.backend_domain,
                    frame: self.rx_frames@[j].0 as u32,
                }),
            decreases RING_SIZE - i,
        {
            let ghost g0 = *gt;
            let g = match gt.grant_access(self.backend_domain, self.rx_frames[i], false) {
                Ok(g) => g,
                Err(e) => {
                    return Err(NetError::Grant(e));
                },
            };
            proof {
                crate::grant_table::lemma_grant_is_fresh(
                    g0,
                    *gt,
                    self.backend_domain,
                    self.rx_frames@[i as int].0 as u32,
                    GTF_PERMIT_ACCESS,
                    g,
                );
            }
            self.rx_grefs.set(i, g);
            proof {
                assert forall|j: int| 0 <= j < i implies gt.table@[#[trigger] self.rx_grefs@[j] as int] == (GrantEntry {
                    flags: GTF_PERMIT_ACCESS,
                    domid: self.backend_domain,
                    frame: self.rx_frames@[j].0 as u32,
                }) by {
                    assert(g0.granted(self.rx_grefs@[j]));
                }
            }
            let pushed = self.rx.push_request(RxSlot::Request(RxRequest { id: i as u16, gref: g }));
            match pushed {
                Ok(()) => {},
                Err(e) => {
                    return Err(NetError::Ring(e));
                },
            }
            i = i + 1;
        }
        proof {
            assert(self.rx.sring.req_prod == 0);
            assert(self.rx.req_prod_pvt == RING_SIZE);
            assert(distance(RING_SIZE as u32, 0) == RING_SIZE);
        }
        let notify = self.rx.push_requests();
        let next = self.rx.rsp_cons.wrapping_add(1);
        self.rx.set_rsp_event(next);
        Ok(notify)
    }

    /// The receive slot of the oldest unconsumed response.
    pub open spec fn rx_front(&self) -> RxSlot {
        self.rx.sring.ring@[self.rx.consumed() as int % RING_SIZE as int]
    }

    /// `self` is `old` with one receive response consumed and nothing else
    /// changed.
    pub open spec fn rx_skipped(&self, old: &Device) -> bool {
        &&& self.rx == (Ring {
            rsp_cons: vstd::wrapping::u32_specs::wrapping_add(old.rx.rsp_cons, 1),
            consumed: Ghost(old.rx.consumed() + 1),
            ..old.rx
        })
        &&& self.rx_grefs == old.rx_grefs
    }

    /// Takes at most one receive response. With none waiting, asks for a
    /// notification at the next one and returns `(None, false)`. Otherwise
    /// the response is consumed, and when it names a buffer whose grant is
    /// live: the bytes it reports are copied out (none for a negative status
    /// or bytes outside the page), the grant is ended and the buffer granted
    /// again (which hands back the same reference), a request for it is
    /// posted in the next slot and published. Returns the packet and whether
    /// to notify the back end. A response that is no response, names no
    /// buffer, or names a buffer not granted is consumed without reposting.
    #[verifier::rlimit(80)]
    pub fn rx(&mut self, gt: &mut GrantTable) -> (r: Result<(Option<Vec<u8>>, bool), NetError>)
        requires
            old(self).wf(),
            old(gt).wf(),
        ensures
            final(self).wf(),
            final(gt).wf(),
            final(self).tx == old(self).tx,
            final(self).tx_grefs == old(self).tx_grefs,
            final(self).tx_pages == old(self).tx_pages,
            final(self).tx_freelist == old(self).tx_freelist,
            final(self).rx_pages == old(self).rx_pages,
            final(self).rx_frames == old(self).rx_frames,
            final(self).backend_domain == old(self).backend_domain,
            old(self).rx.unconsumed() > old(self).rx.outstanding() ==> r == Err::<(Option<Vec<u8>>, bool), NetError>(
                NetError::Ring(RingError::PeerOverrun)) && *final(self) == *old(self) && *final(gt) == *old(gt),
            old(self).rx.unconsumed() == 0 ==> r == Ok::<(Option<Vec<u8>>, bool), NetError>((None, false))
                && final(self).rx == old(self).rx.armed() && final(self).rx_grefs == old(self).rx_grefs
                && *final(gt) == *old(gt),
            0 < old(self).rx.unconsumed() <= old(self).rx.outstanding() ==> {
                &&& final(self).rx.consumed() == old(self).rx.consumed() + 1
                &&& final(self).rx.rsp_cons == vstd::wrapping::u32_specs::wrapping_add(old(self).rx.rsp_cons, 1)
                &&& final(self).rx.sring.rsp_prod == old(self).rx.sring.rsp_prod
                &&& match old(self).rx_front() {
                    RxSlot::Request(_) => r == Err::<(Option<Vec<u8>>, bool), NetError>(NetError::BadResponse)
                        && final(self).rx_skipped(old(self)) && *final(gt) == *old(gt),
                    RxSlot::Response(resp) => if resp.id >= RING_SIZE {
                        r == Err::<(Option<Vec<u8>>, bool), NetError>(NetError::BadId) && final(self).rx_skipped(
                            old(self),
                        ) && *final(gt) == *old(gt)
                    } else if !old(gt).granted(old(self).rx_grefs@[resp.id as int]) {
                        r == Err::<(Option<Vec<u8>>, bool), NetError>(NetError::Grant(
                            if valid_ref(old(self).rx_grefs@[resp.id as int]) {
                                GrantError::NotGranted
                            } else {
                                GrantError::InvalidReference
                            },
                        ))
                            && final(self).rx_skipped(old(self)) && *final(gt) == *old(gt)
                    } else {
                        let gref = old(self).rx_grefs@[resp.id as int];
                        &&& r matches Ok((p, n)) && {
                            &&& p is Some <==> (resp.status >= 0 && resp.offset + resp.status <= PAGE_SIZE)
                            &&& p matches Some(v) ==> v@ == old(self).rx_pages@[resp.id as int]@.subrange(
                                resp.offset as int,
                                resp.offset + resp.status,
                            )
                            &&& n == (distance(final(self).rx.req_prod_pvt, old(self).rx.sring.req_event) < distance(
                                final(self).rx.req_prod_pvt,
                                old(self).rx.sring.req_prod,
                            ))
                        }
                        &&& final(self).rx_grefs@ == old(self).rx_grefs@
                        &&& final(gt).free@ == old(gt).free@
                        &&& final(gt).table@ == old(gt).table@.update(
                            gref as int,
                            GrantEntry {
                                flags: GTF_PERMIT_ACCESS,
                                domid: old(self).backend_domain,
                                frame: old(self).rx_frames@[resp.id as int].0 as u32,
                            },
                        )
                        &&& final(self).rx.written() == old(self).rx.written() + 1
                        &&& final(self).rx.published() == final(self).rx.written()
                        &&& final(self).rx.req_prod_pvt == vstd::wrapping::u32_specs::wrapping_add(
                            old(self).rx.req_prod_pvt,
                            1,
                        )
                        &&& final(self).rx.sring.req_prod == final(self).rx.req_prod_pvt
                        &&& final(self).rx.sring.ring@ == old(self).rx.sring.ring@.update(
                            old(self).rx.written() as int % RING_SIZE as int,
                            RxSlot::Request(RxRequest { id: resp.id, gref }),
                        )
                    },
                }
            },
    {
        let taken = self.rx.take_response();
        let slot = match taken {
            Err(e) => {
                return Err(NetError::Ring(e));
            },
            Ok(None) => {
                self.rx.check_for_responses();
                return Ok((None, false));
            },
            Ok(Some(s)) => s,
        };
        proof {
            assert(old(self).rx_front() == slot);
        }
        let resp = match slot {
            RxSlot::Response(resp) => resp,
            RxSlot::Request(_) => {
                return Err(NetError::BadResponse);
            },
        };
        let id = resp.id as usize;
        if id >= RING_SIZE {
            return Err(NetError::BadId);
        }
        let gref = self.rx_grefs[id];
        let packet = if resp.status >= 0 && resp.offset as usize + resp.status as usize <= PAGE_SIZE {
            Some(copy_out(&self.rx_pages[id], resp.offset as usize, resp.status as usize))
        } else {
            None
        };
        let ghost gt0 = *gt;
        match gt.grant_end(gref) {
            Ok(()) => {},
            Err(e) => {
                return Err(NetError::Grant(e));
            },
        }
        let g = match gt.grant_access(self.backend_domain, self.rx_frames[id], false) {
            Ok(g) => g,
            Err(e) => {
                return Err(NetError::Grant(e));
            },
        };
        proof {
            assert(g == gref);
            assert(gt.free@ =~= gt0.free@);
            assert(gt.table@ =~= gt0.table@.update(
                gref as int,
                GrantEntry {
                    flags: GTF_PERMIT_ACCESS,
                    domid: self.backend_domain,
                    frame: self.rx_frames@[id as int].0 as u32,
                },
            ));
        }
        self.rx_grefs.set(id, g);
        proof {
            assert(self.rx_grefs@ =~= old(self).rx_grefs@);
        }
        match self.rx.push_request(RxSlot::Request(RxRequest { id: id as u16, gref: g })) {
            Ok(()) => {},
            Err(e) => {
                return Err(NetError::Ring(e));
            },
        }
        let notify = self.rx.push_requests();
        proof {
            assert(old(self).rx_front() == RxSlot::Response(resp));
            assert(self.rx.sring.ring@ == old(self).rx.sring.ring@.update(
                old(self).rx.written() as int % RING_SIZE as int,
                RxSlot::Request(RxRequest { id: resp.id, gref }),
            ));
            assert(self.rx.consumed() == old(self).rx.consumed() + 1);
            assert(self.rx.written() == old(self).rx.written() + 1);
            assert(self.rx.published() == self.rx.written());
            assert(self.rx.req_prod_pvt == vstd::wrapping::u32_specs::wrapping_add(old(self).rx.req_prod_pvt, 1));
            assert(self.rx.sring.req_prod == self.rx.req_prod_pvt);
            assert(notify == (distance(self.rx.req_prod_pvt, old(self).rx.sring.req_event) < distance(
                self.rx.req_prod_pvt,
                old(self).rx.sring.req_prod,
            )));
            assert(packet is Some <==> (resp.status >= 0 && resp.offset + resp.status <= PAGE_SIZE));
            assert(self.rx.rsp_cons == vstd::wrapping::u32_specs::wrapping_add(old(self).rx.rsp_cons, 1));
        }
        Ok((packet, notify))
    }

    /// Sends a packet: takes a free transmit buffer, copies the packet to the
    /// start of its page, grants the page read-only to the back end and
    /// publishes a request for it. The back end is then to be notified.
    pub fn tx(&mut self, gt: &mut GrantTable, data: &[u8]) -> (r: Result<(), NetError>)
        requires
            old(self).wf(),
            old(gt).wf(),
        ensures
            final(self).wf(),
            final(gt).wf(),
            data@.len() > PAGE_SIZE ==> r == Err::<(), NetError>(NetError::TooLong),
            data@.len() <= PAGE_SIZE && old(self).tx_freelist.ids@.len() == 0 ==> r == Err::<(), NetError>(
                NetError::NoFreeBuffer),
            data@.len() <= PAGE_SIZE && old(self).tx_freelist.ids@.len() > 0 && old(self).tx.written()
                == old(self).tx.consumed() + RING_SIZE ==> r == Err::<(), NetError>(NetError::Ring(RingError::Full)),
            data@.len() <= PAGE_SIZE && old(self).tx_freelist.ids@.len() > 0 && old(self).tx.written()
                < old(self).tx.consumed() + RING_SIZE ==> (r is Ok <==> old(gt).free@.len() > 0),
            r is Err ==> *final(self) == *old(self) || r == Err::<(), NetError>(NetError::Grant(GrantError::Exhausted)),
            r is Ok ==> {
                let id = old(self).tx_freelist.ids@.last() as int;
                &&& final(self).tx.written() == old(self).tx.written() + 1
                &&& final(self).tx.published() == final(self).tx.written()
                &&& final(self).tx.consumed() == old(self).tx.consumed()
                &&& final(self).tx.req_prod_pvt == vstd::wrapping::u32_specs::wrapping_add(old(self).tx.req_prod_pvt, 1)
                &&& final(self).tx.sring.req_prod == final(self).tx.req_prod_pvt
                &&& final(self).tx.rsp_cons == old(self).tx.rsp_cons
                &&& final(self).tx.sring.req_event == old(self).tx.sring.req_event
                &&& final(self).tx.sring.rsp_prod == old(self).tx.sring.rsp_prod
                &&& final(self).tx.sring.rsp_event == old(self).tx.sring.rsp_event
                &&& final(self).tx.sring.ring@ == old(self).tx.sring.ring@.update(
                    old(self).tx.written() as int % RING_SIZE as int,
                    final(self).tx.sring.ring@[old(self).tx.written() as int % RING_SIZE as int],
                )
                &&& final(gt).free@ == old(gt).free@.drop_first()
                &&& final(self).tx_grefs@[old(self).tx_freelist.ids@.last() as int] == old(gt).free@[0]
                &&& old(self).tx_freelist.ids@.len() > 0
                &&& final(self).tx_freelist.ids@ == old(self).tx_freelist.ids@.drop_last()
                &&& final(self).tx_pages@[id]@ == data@ + old(self).tx_pages@[id]@.skip(data@.len() as int)
                &&& final(self).tx.published() == old(self).tx.written() + 1
                &&& final(self).tx.sring.ring@[old(self).tx.written() as int % RING_SIZE as int] == TxSlot::Request(
                    TxRequest {
                        gref: final(self).tx_grefs@[id],
                        offset: 0,
                        flags: 0,
                        id: id as u16,
                        size: data@.len() as u16,
                    },
                )
                &&& final(gt).granted(final(self).tx_grefs@[id])
                &&& final(gt).table@[final(self).tx_grefs@[id] as int] == (GrantEntry {
                    flags: GTF_PERMIT_ACCESS | GTF_READONLY,
                    domid: old(self).backend_domain,
                    frame: old(self).tx_frames@[id].0 as u32,
                })
            },
    {
        if data.len() > PAGE_SIZE {
            return Err(NetError::TooLong);
        }
        if self.tx_freelist.ids.len() == 0 {
            return Err(NetError::NoFreeBuffer);
        }
        if !self.tx.has_room() {
            return Err(NetError::Ring(RingError::Full));
        }
        let id = match self.tx_freelist.get() {
            Some(id) => id,
            None => {
                return Err(NetError::NoFreeBuffer);
            },
        };
        let page = overwrite_prefix(&self.tx_pages[id], data);
        self.tx_pages.set(id, page);
        let ghost g0 = *gt;
        let g = match gt.grant_access(self.backend_domain, self.tx_frames[id], true) {
            Ok(g) => g,
            Err(e) => {
                return Err(NetError::Grant(e));
            },
        };
        proof {
            crate::grant_table::lemma_grant_is_fresh(
                g0,
                *gt,
                self.backend_domain,
                self.tx_frames@[id as int].0 as u32,
                GTF_PERMIT_ACCESS | GTF_READONLY,
                g,
            );
        }
        self.tx_grefs.set(id, g);
        let req = TxRequest { gref: g, offset: 0, flags: 0, id: id as u16, size: data.len() as u16 };
        match self.tx.push_request(TxSlot::Request(req)) {
            Ok(()) => {},
            Err(e) => {
                return Err(NetError::Ring(e));
            },
        }
        self.tx.push_requests();
        Ok(())
    }

    /// The transmit slots of the responses waiting, oldest first.
    pub open spec fn tx_pending(&self) -> Seq<TxSlot> {
        Seq::new(
            self.tx.unconsumed() as nat,
            |k: int| self.tx.sring.ring@[(self.tx.consumed() + k) % RING_SIZE as int],
        )
    }

    /// The waiting transmit responses can all be taken: the peer announced
    /// no more than was published, each slot holds a response, and each
    /// response that is not empty names a buffer whose grant is live, no two
    /// the same grant.
    pub open spec fn tx_answers_ok(&self, gt: &GrantTable) -> bool {
        let ids = reclaimed(self.tx_pending());
        &&& self.tx.unconsumed() <= self.tx.outstanding()
        &&& forall|k: int| 0 <= k < self.tx_pending().len() ==> #[trigger] self.tx_pending()[k] is Response
        &&& forall|j: int| 0 <= j < ids.len() ==> #[trigger] ids[j] < RING_SIZE
        &&& forall|j: int| 0 <= j < ids.len() ==> gt.granted(self.tx_grefs@[#[trigger] ids[j] as int])
        &&& forall|a: int, b: int| 0 <= a < b < ids.len() ==> self.tx_grefs@[ids[a] as int] != self.tx_grefs@[ids[b] as int]
    }

    /// Reclaims transmitted buffers: for each transmit response, one the back
    /// end left empty is passed over; any other ends the grant of the buffer
    /// it names and returns the buffer to the free list, whatever the status.
    /// Returns how many buffers came back. When every waiting response can
    /// be taken, all are, in order. Otherwise the pass stops at the first
    /// response that cannot: that response has been consumed and the buffer
    /// it names, if any, stays out of the free list.
    #[verifier::rlimit(100)]
    pub fn process_transmissions(&mut self, gt: &mut GrantTable) -> (r: Result<usize, NetError>)
        requires
            old(self).wf(),
            old(gt).wf(),
        ensures
            final(self).wf(),
            final(gt).wf(),
            r matches Ok(n) ==> final(self).tx_freelist.ids@.len() == old(self).tx_freelist.ids@.len() + n,
            r is Ok ==> final(self).tx.unconsumed() == 0,
            old(self).tx.unconsumed() == 0 ==> r == Ok::<usize, NetError>(0) && *final(self) == *old(self),
            old(self).tx_answers_ok(old(gt)) ==> {
                let ids = reclaimed(old(self).tx_pending());
                &&& r == Ok::<usize, NetError>(ids.len() as usize)
                &&& final(self).tx_freelist.ids@ == old(self).tx_freelist.ids@ + ids
                &&& forall|j: int| 0 <= j < ids.len() ==> !final(gt).granted(old(self).tx_grefs@[#[trigger] ids[j] as int])
                &&& final(self).tx.consumed() == old(self).tx.consumed() + old(self).tx.unconsumed()
                &&& final(self).tx_grefs == old(self).tx_grefs
            },
    {
        let ghost ok = old(self).tx_answers_ok(old(gt));
        let ghost pending = old(self).tx_pending();
        let ghost ids = reclaimed(pending);
        let avail = self.tx.unconsumed_responses();
        let mut freed: usize = 0;
        let mut k: u32 = 0;
        while k < avail
            invariant
                self.wf(),
                gt.wf(),
                avail == old(self).tx.unconsumed(),
                k <= avail,
                self.tx.unconsumed() == avail - k,
                self.tx.outstanding() + k == old(self).tx.outstanding(),
                self.tx.consumed() == old(self).tx.consumed() + k,
                self.tx.sring == old(self).tx.sring,
                self.tx_grefs == old(self).tx_grefs,
                pending == old(self).tx_pending(),
                ids == reclaimed(pending),
                ok == old(self).tx_answers_ok(old(gt)),
                self.tx_freelist.ids@.len() == old(self).tx_freelist.ids@.len() + freed,
                freed <= k,
                ok ==> {
                    let done = reclaimed(pending.take(k as int));
                    &&& freed == done.len()
                    &&& done == ids.take(done.len() as int)
                    &&& done.len() <= ids.len()
                    &&& self.tx_freelist.ids@ == old(self).tx_freelist.ids@ + done
                    &&& forall|j: int| 0 <= j < done.len() ==> !gt.granted(self.tx_grefs@[#[trigger] ids[j] as int])
                    &&& forall|j: int| done.len() <= j < ids.len() ==> gt.granted(self.tx_grefs@[#[trigger] ids[j] as int])
                },
                old(self).tx.unconsumed() == 0 ==> *self == *old(self) && freed == 0,
            decreases avail - k,
        {
            proof {
                if ok {
                    lemma_reclaimed_prefix(pending, k as int);
                    lemma_reclaimed_prefix(pending, k as int + 1);
                    assert(pending.take(k as int + 1).drop_last() =~= pending.take(k as int));
                    assert(pending.take(k as int + 1).last() == pending[k as int]);
                    assert(pending[k as int] is Response);
                }
            }
            let taken = self.tx.take_response();
            let slot = match taken {
                Err(e) => {
                    return Err(NetError::Ring(e));
                },
                Ok(None) => {
                    return Err(NetError::BadResponse);
                },
                Ok(Some(s)) => s,
            };
            proof {
                assert(slot == pending[k as int]);
            }
            let resp = match slot {
                TxSlot::Response(resp) => resp,
                TxSlot::Request(_) => {
                    return Err(NetError::BadResponse);
                },
            };
            let ghost c: int = reclaimed(pending.take(k as int)).len() as int;
            if resp.status != NETIF_RSP_NULL {
                let id = resp.id as usize;
                proof {
                    if ok {
                        assert(reclaimed(pending.take(k as int + 1)) == reclaimed(pending.take(k as int)).push(id));
                        let nxt = reclaimed(pending.take(k as int + 1));
                        assert(nxt.len() == c + 1);
                        assert(nxt == ids.take(c + 1));
                        assert(nxt[c] == id);
                        assert(ids.take(c + 1)[c] == ids[c]);
                        assert(ids[c] == id);
                        assert(gt.granted(self.tx_grefs@[ids[c] as int]));
                    }
                }
                if id >= RING_SIZE {
                    return Err(NetError::BadId);
                }
                let ghost gt0 = *gt;
                match gt.grant_end(self.tx_grefs[id]) {
                    Ok(()) => {},
                    Err(e) => {
                        return Err(NetError::Grant(e));
                    },
                }
                self.tx_freelist.add(id);
                freed = freed + 1;
                proof {
                    if ok {
                        assert(ids[c] == id);
                        let g = self.tx_grefs@[id as int];
                        assert forall|x: u32| x != g implies gt.granted(x) == gt0.granted(x) by {
                            if gt.free@.contains(x) {
                                let q = choose|q: int| 0 <= q < gt.free@.len() && gt.free@[q] == x;
                                assert(gt0.free@[q - 1] == x);
                            }
                            if gt0.free@.contains(x) {
                                let q = choose|q: int| 0 <= q < gt0.free@.len() && gt0.free@[q] == x;
                                assert(gt.free@[q + 1] == x);
                            }
                        }
                        assert(gt.free@[0] == g);
                        let done = reclaimed(pending.take(k as int + 1));
                        assert(done =~= ids.take(c + 1));
                        assert(self.tx_freelist.ids@ =~= old(self).tx_freelist.ids@ + done);
                        assert forall|j: int| 0 <= j < done.len() implies !gt.granted(
                            self.tx_grefs@[#[trigger] ids[j] as int],
                        ) by {
                            if j < c {
                                assert(self.tx_grefs@[ids[j] as int] != g);
                            }
                        }
                        assert forall|j: int| done.len() <= j < ids.len() implies gt.granted(
                            self.tx_grefs@[#[trigger] ids[j] as int],
                        ) by {
                            assert(self.tx_grefs@[ids[j] as int] != g);
                        }
                    }
                }
            } else {
                proof {
                    if ok {
                        assert(reclaimed(pending.take(k as int + 1)) == reclaimed(pending.take(k as int)));
                    }
                }
            }
            k = k + 1;
        }
        proof {
            if ok {
                assert(pending.take(k as int) =~= pending);
                assert(ids.take(ids.len() as int) =~= ids);
            }
        }
        Ok(freed)
    }
}

/// The buffer ids that the non-empty transmit responses among `slots` hand
/// back, in order.
pub open spec fn reclaimed(slots: Seq<TxSlot>) -> Seq<usize>
    decreases slots.len(),
{
    if slots.len() == 0 {
        seq![]
    } else {
        let prev = reclaimed(slots.drop_last());
        match slots.last() {
            TxSlot::Response(r) => if r.status == NETIF_RSP_NULL {
                prev
            } else {
                prev.push(r.id as usize)
            },
            TxSlot::Request(_) => prev,
        }
    }
}

proof fn lemma_reclaimed_prefix(s: Seq<TxSlot>, k: int)
    requires
        0 <= k <= s.len(),
    ensures
        reclaimed(s.take(k)).len() <= reclaimed(s).len(),
        reclaimed(s.take(k)) == reclaimed(s).take(reclaimed(s.take(k)).len() as int),
    decreases s.len(),
{
    if k == s.len() {
        assert(s.take(k) =~= s);
        assert(reclaimed(s).take(reclaimed(s).len() as int) =~= reclaimed(s));
    } else {
        lemma_reclaimed_prefix(s.drop_last(), k);
        assert(s.drop_last().take(k) =~= s.take(k));
        let a = reclaimed(s.take(k));
        let b = reclaimed(s.drop_last());
        assert(reclaimed(s).take(b.len() as int) =~= b);
        assert(reclaimed(s).take(a.len() as int) =~= b.take(a.len() as int));
    }
}

/// A copy of `len` bytes of `page` from `offset` on.
fn copy_out(page: &Vec<u8>, offset: usize, len: usize) -> (r: Vec<u8>)
    requires
        offset + len <= page@.len(),
    ensures
        r@ == page@.subrange(offset as int, offset + len),
{
    let mut out: Vec<u8> = Vec::new();
    let mut i: usize = 0;
    let n = page.len();
    while i < len
        invariant
            n == page@.len(),
            offset + len <= page@.len(),
            i <= len,
            out@ == page@.subrange(offset as int, offset + i),
        decreases len - i,
    {
        assert(offset + i < page@.len());
        out.push(page[offset + i]);
        i = i + 1;
        assert(out@ =~= page@.subrange(offset as int, offset + i));
    }
    out
}

/// `page` with its first bytes replaced by `data`.
fn overwrite_prefix(page: &Vec<u8>, data: &[u8]) -> (r: Vec<u8>)
    requires
        data@.len() <= page@.len(),
    ensures
        r@ == data@ + page@.skip(data@.len() as int),
        r@.len() == page@.len(),
{
    let mut out: Vec<u8> = Vec::new();
    let mut i: usize = 0;
    while i < page.len()
        invariant
            data@.len() <= page@.len(),
            i <= page@.len(),
            out@.len() == i,
            forall|j: int| 0 <= j < i ==> #[trigger] out@[j] == if j < data@.len() {
                data@[j]
            } else {
                page@[j]
            },
        decreases page@.len() - i,
    {
        if i < data.len() {
            out.push(data[i]);
        } else {
            out.push(page[i]);
        }
        i = i + 1;
    }
    assert(out@ =~= data@ + page@.skip(data@.len() as int));
    out
}

/// Steps of the connection handshake with the back end, in order: within a
/// transaction, publish both ring references, the event channel and the
/// copy mode, read the back end's state, switch this end to connected, read
/// the state again, and end the transaction.
#[derive(Debug, Clone, Copy, PartialEq, Eq, Structural)]
pub enum ConnectStep {
    Start,
    TxRingRef,
    RxRingRef,
    EventChannel,
    RxCopy,
    ReadState,
    SetConnected,
    CheckState,
    End,
    Done,
}

/// Errors of the handshake.
#[derive(Debug, Clone, Copy, PartialEq, Eq, Structural)]
pub enum ConnectError {
    Channel(XenbusError),
    /// The transaction id in the answer is no number.
    BadTransaction,
    /// The state in the answer names no state.
    BadState,
    /// The handshake is over.
    Finished,
}

impl ConnectStep {
    /// The step after this one.
    pub open spec fn next(self) -> ConnectStep {
        match self {
            ConnectStep::Start => ConnectStep::TxRingRef,
            ConnectStep::TxRingRef => ConnectStep::RxRingRef,
            ConnectStep::RxRingRef => ConnectStep::EventChannel,
            ConnectStep::EventChannel => ConnectStep::RxCopy,
            ConnectStep::RxCopy => ConnectStep::ReadState,
            ConnectStep::ReadState => ConnectStep::SetConnected,
            ConnectStep::SetConnected => ConnectStep::CheckState,
            ConnectStep::CheckState => ConnectStep::End,
            ConnectStep::End => ConnectStep::Done,
            ConnectStep::Done => ConnectStep::Done,
        }
    }

    /// Kind of the request of this step.
    pub open spec fn kind(self) -> MessageKind {
        match self {
            ConnectStep::Start => MessageKind::TransactionStart,
            ConnectStep::ReadState | ConnectStep::CheckState => MessageKind::Read,
            ConnectStep::End => MessageKind::TransactionEnd,
            _ => MessageKind::Write,
        }
    }

    /// First segment of the request of this step: the key, or the argument
    /// of a transaction request.
    pub open spec fn key(self) -> Seq<u8> {
        match self {
            ConnectStep::Start => "\0".spec_bytes(),
            ConnectStep::TxRingRef => "device/vif/0/tx-ring-ref\0".spec_bytes(),
            ConnectStep::RxRingRef => "device/vif/0/rx-ring-ref\0".spec_bytes(),
            ConnectStep::EventChannel => "device/vif/0/event-channel\0".spec_bytes(),
            ConnectStep::RxCopy => "device/vif/0/request-rx-copy\0".spec_bytes(),
            ConnectStep::End => "T\0".spec_bytes(),
            _ => "device/vif/0/state\0".spec_bytes(),
        }
    }

    /// The first segment of this step's request.
    pub fn key_bytes(self) -> (r: &'static [u8])
        ensures
            r@ == self.key(),
    {
        match self {
            ConnectStep::Start => "\0".as_bytes(),
            ConnectStep::TxRingRef => "device/vif/0/tx-ring-ref\0".as_bytes(),
            ConnectStep::RxRingRef => "device/vif/0/rx-ring-ref\0".as_bytes(),
            ConnectStep::EventChannel => "device/vif/0/event-channel\0".as_bytes(),
            ConnectStep::RxCopy => "device/vif/0/request-rx-copy\0".as_bytes(),
            ConnectStep::End => "T\0".as_bytes(),
            _ => "device/vif/0/state\0".as_bytes(),
        }
    }
}

impl Device {
    /// Second segment of the request of `step`: the value written, if any.
    pub open spec fn connect_value(&self, step: ConnectStep) -> Seq<u8> {
        match step {
            ConnectStep::TxRingRef => digits(self.tx_ring_ref as nat),
            ConnectStep::RxRingRef => digits(self.rx_ring_ref as nat),
            ConnectStep::EventChannel => digits(self.event_channel_port as nat),
            ConnectStep::RxCopy => digits(1),
            ConnectStep::SetConnected => digits(State::Connected.code() as nat),
            _ => Seq::empty(),
        }
    }

    /// Sends the request of `step` of the handshake under transaction `txn`
    /// (none for the request that starts it). The caller then notifies the
    /// store and, once the answer is in, hands it to `connect_advance`.
    pub fn send_connect_request(&self, bus: &mut XenBus, step: ConnectStep, txn: u32) -> (r: Result<
        (),
        ConnectError,
    >)
        requires
            old(bus).wf(),
        ensures
            final(bus).wf(),
            step == ConnectStep::Done ==> r == Err::<(), ConnectError>(ConnectError::Finished),
            r is Ok <==> (step != ConnectStep::Done && step.key().len() + self.connect_value(step).len()
                <= MAX_PAYLOAD && HEADER_SIZE + step.key().len() + self.connect_value(step).len()
                <= XENSTORE_RING_SIZE - old(bus).req.contents().len()),
            r is Err ==> *final(bus) == *old(bus),
            r is Ok ==> final(bus).req.contents() == old(bus).req.contents() + header_bytes(
                step.kind().code(),
                0,
                if step == ConnectStep::Start {
                    0
                } else {
                    txn
                },
                (step.key().len() + self.connect_value(step).len()) as u32,
            ) + step.key() + self.connect_value(step),
    {
        if step == ConnectStep::Done {
            return Err(ConnectError::Finished);
        }
        let kind = match step {
            ConnectStep::Start => MessageKind::TransactionStart,
            ConnectStep::ReadState | ConnectStep::CheckState => MessageKind::Read,
            ConnectStep::End => MessageKind::TransactionEnd,
            _ => MessageKind::Write,
        };
        let value: Vec<u8> = match step {
            ConnectStep::TxRingRef => decimal_bytes(self.tx_ring_ref),
            ConnectStep::RxRingRef => decimal_bytes(self.rx_ring_ref),
            ConnectStep::EventChannel => decimal_bytes(self.event_channel_port),
            ConnectStep::RxCopy => decimal_bytes(1),
            ConnectStep::SetConnected => decimal_bytes(State::Connected.to_u32()),
            _ => Vec::new(),
        };
        let tx_id = if step == ConnectStep::Start {
            0
        } else {
            txn
        };
        let header = MessageHeader { kind, request_id: 0, transaction_id: tx_id };
        let key = step.key_bytes();
        let vs = value.as_slice();
        let data: [&[u8]; 2] = [key, vs];
        let r = bus.write(header, data.as_slice());
        proof {
            reveal_with_fuel(concat, 3);
            assert(data@ =~= seq![key, vs]);
            assert(seq![key, vs].drop_last() =~= seq![key]);
            assert(seq![key].drop_last() =~= Seq::<&[u8]>::empty());
            assert(concat(data@) =~= step.key() + self.connect_value(step));
        }
        match r {
            Ok(()) => {
                assert(old(bus).req.contents() + header_bytes(
                    step.kind().code(),
                    0,
                    tx_id,
                    (step.key().len() + self.connect_value(step).len()) as u32,
                ) + (step.key() + self.connect_value(step)) =~= old(bus).req.contents() + header_bytes(
                    step.kind().code(),
                    0,
                    tx_id,
                    (step.key().len() + self.connect_value(step).len()) as u32,
                ) + step.key() + self.connect_value(step));
                Ok(())
            },
            Err(e) => Err(ConnectError::Channel(e)),
        }
    }
}

/// Takes the answer to the request of `step`: the transaction id from the
/// answer that starts it, the back end's state from a read of the state.
/// Returns the next step, the transaction to use from then on, and the state
/// read, if any.
pub fn connect_advance(step: ConnectStep, txn: u32, payload: &[u8]) -> (r: Result<
    (ConnectStep, u32, Option<State>),
    ConnectError,
>)
    ensures
        step == ConnectStep::Done ==> r == Err::<(ConnectStep, u32, Option<State>), ConnectError>(
            ConnectError::Finished),
        step == ConnectStep::Start ==> match parsed_u32(payload@) {
            Some(t) => r == Ok::<(ConnectStep, u32, Option<State>), ConnectError>((step.next(), t, None)),
            None => r == Err::<(ConnectStep, u32, Option<State>), ConnectError>(ConnectError::BadTransaction),
        },
        step == ConnectStep::ReadState || step == ConnectStep::CheckState ==> match parsed_u32(payload@) {
            Some(v) => if v <= 8 {
                r matches Ok((next, t, Some(st))) && next == step.next() && t == txn && st.code() == v
            } else {
                r == Err::<(ConnectStep, u32, Option<State>), ConnectError>(ConnectError::BadState)
            },
            None => r == Err::<(ConnectStep, u32, Option<State>), ConnectError>(ConnectError::BadState),
        },
        step != ConnectStep::Done && step != ConnectStep::Start && step != ConnectStep::ReadState && step
            != ConnectStep::CheckState ==> r == Ok::<(ConnectStep, u32, Option<State>), ConnectError>(
            (step.next(), txn, None),
        ),
{
    match step {
        ConnectStep::Done => Err(ConnectError::Finished),
        ConnectStep::Start => match parse_u32(payload) {
            Some(t) => Ok((ConnectStep::TxRingRef, t, None)),
            None => Err(ConnectError::BadTransaction),
        },
        ConnectStep::ReadState | ConnectStep::CheckState => {
            let next = if step == ConnectStep::ReadState {
                ConnectStep::SetConnected
            } else {
                ConnectStep::End
            };
            match parse_u32(payload) {
                Some(v) => match State::from_u32(v) {
                    Some(st) => Ok((next, txn, Some(st))),
                    None => Err(ConnectError::BadState),
                },
                None => Err(ConnectError::BadState),
            }
        },
        ConnectStep::TxRingRef => Ok((ConnectStep::RxRingRef, txn, None)),
        ConnectStep::RxRingRef => Ok((ConnectStep::EventChannel, txn, None)),
        ConnectStep::EventChannel => Ok((ConnectStep::RxCopy, txn, None)),
        ConnectStep::RxCopy => Ok((ConnectStep::ReadState, txn, None)),
        ConnectStep::SetConnected => Ok((ConnectStep::CheckState, txn, None)),
        ConnectStep::End => Ok((ConnectStep::Done, txn, None)),
    }
}

/// The back end's domain id from the answer to a read of its `backend-id`;
/// `None` when it is no number or too large for a domain id.
pub fn get_backend_domain(payload: &[u8]) -> (r: Option<u16>)
    ensures
        r == match parsed_u32(payload@) {
            Some(v) => if v <= u16::MAX {
                Some(v as u16)
            } else {
                None
            },
            None => None,
        },
{
    match parse_u32(payload) {
        Some(v) => if v <= 0xffff {
            Some(v as u16)
        } else {
            None
        },
        None => None,
    }
}

/// The value of a hexadecimal digit, either case; `None` for other bytes.
pub open spec fn hex_val(b: u8) -> Option<u8> {
    if 48 <= b <= 57 {
        Some((b - 48) as u8)
    } else if 97 <= b <= 102 {
        Some((b - 87) as u8)
    } else if 65 <= b <= 70 {
        Some((b - 55) as u8)
    } else {
        None
    }
}

/// `s` is a MAC address in the usual text form: six two-digit hexadecimal
/// bytes separated by colons.
pub open spec fn mac_form(s: Seq<u8>) -> bool {
    &&& s.len() == 17
    &&& forall|i: int| 0 <= i < 6 ==> hex_val(#[trigger] s[3 * i]) is Some && hex_val(s[3 * i + 1]) is Some
    &&& forall|i: int| 0 <= i < 5 ==> #[trigger] s[3 * i + 2] == 58
}

/// Byte `i` of the MAC address that `s` writes.
pub open spec fn mac_byte(s: Seq<u8>, i: int) -> int {
    16 * hex_val(s[3 * i])->0 + hex_val(s[3 * i + 1])->0
}

fn hex_digit(b: u8) -> (r: Option<u8>)
    ensures
        r == hex_val(b),
{
    if 48 <= b && b <= 57 {
        Some(b - 48)
    } else if 97 <= b && b <= 102 {
        Some(b - 87)
    } else if 65 <= b && b <= 70 {
        Some(b - 55)
    } else {
        None
    }
}

fn hex_pair(s: &[u8], i: usize) -> (r: Option<u8>)
    requires
        i < 6,
        s@.len() == 17,
    ensures
        r is Some <==> (hex_val(s@[3 * i]) is Some && hex_val(s@[3 * i + 1]) is Some),
        r matches Some(v) ==> v == mac_byte(s@, i as int),
{
    match (hex_digit(s[3 * i]), hex_digit(s[3 * i + 1])) {
        (Some(h), Some(l)) => Some(h * 16 + l),
        _ => None,
    }
}

/// The MAC address that the store gives for the device, such as
/// `00:16:3e:5a:0c:01`; `None` for text of any other form.
pub fn parse_mac(s: &[u8]) -> (r: Option<[u8; 6]>)
    ensures
        r is Some <==> mac_form(s@),
        r matches Some(m) ==> forall|i: int| 0 <= i < 6 ==> #[trigger] m@[i] == mac_byte(s@, i),
{
    if s.len() != 17 {
        return None;
    }
    let mut k: usize = 0;
    while k < 5
        invariant
            k <= 5,
            s@.len() == 17,
            forall|i: int| 0 <= i < k ==> #[trigger] s@[3 * i + 2] == 58,
        decreases 5 - k,
    {
        if s[3 * k + 2] != 58 {
            return None;
        }
        k = k + 1;
    }
    let b0 = hex_pair(s, 0);
    let b1 = hex_pair(s, 1);
    let b2 = hex_pair(s, 2);
    let b3 = hex_pair(s, 3);
    let b4 = hex_pair(s, 4);
    let b5 = hex_pair(s, 5);
    match (b0, b1, b2, b3, b4, b5) {
        (Some(x0), Some(x1), Some(x2), Some(x3), Some(x4), Some(x5)) => {
            let m = [x0, x1, x2, x3, x4, x5];
            proof {
                assert forall|i: int| 0 <= i < 6 implies hex_val(#[trigger] s@[3 * i]) is Some && hex_val(
                    s@[3 * i + 1],
                ) is Some by {
                    if i == 0 {
                    } else if i == 1 {
                    } else if i == 2 {
                    } else if i == 3 {
                    } else if i == 4 {
                    } else {
                    }
                }
                assert forall|i: int| 0 <= i < 6 implies #[trigger] m@[i] == mac_byte(s@, i) by {
                    if i == 0 {
                    } else if i == 1 {
                    } else if i == 2 {
                    } else if i == 3 {
                    } else if i == 4 {
                    } else {
                    }
                }
            }
            Some(m)
        },
        _ => {
            proof {
                if b0 is None {
                    assert(!(hex_val(s@[0int]) is Some && hex_val(s@[1int]) is Some));
                } else if b1 is None {
                    assert(!(hex_val(s@[3int]) is Some && hex_val(s@[4int]) is Some));
                } else if b2 is None {
                    assert(!(hex_val(s@[6int]) is Some && hex_val(s@[7int]) is Some));
                } else if b3 is None {
                    assert(!(hex_val(s@[9int]) is Some && hex_val(s@[10int]) is Some));
                } else if b4 is None {
                    assert(!(hex_val(s@[12int]) is Some && hex_val(s@[13int]) is Some));
                } else {
                    assert(!(hex_val(s@[15int]) is Some && hex_val(s@[16int]) is Some));
                }
            }
            None
        },
    }
}

} // verus!
