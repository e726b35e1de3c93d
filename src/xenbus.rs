//! Messages of the configuration store protocol and the byte rings that
//! carry them between this domain and the store.
use vstd::prelude::*;

use crate::full_fence;
use crate::ring::distance;

verus! {

/// Bytes in each direction of the store's shared page.
pub const XENSTORE_RING_SIZE: u32 = 1024;

/// Bytes of a message header: type, request id, transaction id, length.
pub const HEADER_SIZE: u32 = 16;

/// Type of a store message.
#[derive(Debug, Clone, Copy, PartialEq, Eq, Structural)]
pub enum MessageKind {
    Control,
    Debug,
    Directory,
    DirectoryPart,
    Read,
    GetPerms,
    Watch,
    Unwatch,
    TransactionStart,
    TransactionEnd,
    Introduce,
    Release,
    GetDomainPath,
    Write,
    MakeDirectory,
    Remove,
    SetPerms,
    WatchEvent,
    Error,
    IsDomainIntroduced,
    Resume,
    SetTarget,
    ResetWatches,
    /// Number of valid types.
    TypeCount,
    /// Guaranteed to remain an invalid type.
    Invalid,
}

impl MessageKind {
    /// The number that stands for this kind on the wire.
    pub open spec fn code(self) -> u32 {
        match self {
            MessageKind::Control => 0,
            MessageKind::Debug => 0,
            MessageKind::Directory => 1,
            MessageKind::DirectoryPart => 22,
            MessageKind::Read => 2,
            MessageKind::GetPerms => 3,
            MessageKind::Watch => 4,
            MessageKind::Unwatch => 5,
            MessageKind::TransactionStart => 6,
            MessageKind::TransactionEnd => 7,
            MessageKind::Introduce => 8,
            MessageKind::Release => 9,
            MessageKind::GetDomainPath => 10,
            MessageKind::Write => 11,
            MessageKind::MakeDirectory => 12,
            MessageKind::Remove => 13,
            MessageKind::SetPerms => 14,
            MessageKind::WatchEvent => 15,
            MessageKind::Error => 16,
            MessageKind::IsDomainIntroduced => 17,
            MessageKind::Resume => 18,
            MessageKind::SetTarget => 19,
            MessageKind::ResetWatches => 21,
            MessageKind::TypeCount => 23,
            MessageKind::Invalid => 0xffff,
        }
    }

    /// `self` is what the wire number `value` decodes to: the kind whose
    /// number it is (`Control` for 0, which `Debug` shares), `Invalid` for
    /// any other number.
    pub open spec fn decodes(self, value: u32) -> bool {
        &&& self != MessageKind::Debug
        &&& self.code() == value || (self == MessageKind::Invalid && forall|k: MessageKind|
            #[trigger] k.code() == value ==> k == MessageKind::Invalid)
    }

    /// The kind of a wire number.
    pub fn from_u32(value: u32) -> (r: MessageKind)
        ensures
            r.decodes(value),
    {
        match value {
            0 => MessageKind::Control,
            1 => MessageKind::Directory,
            22 => MessageKind::DirectoryPart,
            2 => MessageKind::Read,
            3 => MessageKind::GetPerms,
            4 => MessageKind::Watch,
            5 => MessageKind::Unwatch,
            6 => MessageKind::TransactionStart,
            7 => MessageKind::TransactionEnd,
            8 => MessageKind::Introduce,
            9 => MessageKind::Release,
            10 => MessageKind::GetDomainPath,
            11 => MessageKind::Write,
            12 => MessageKind::MakeDirectory,
            13 => MessageKind::Remove,
            14 => MessageKind::SetPerms,
            15 => MessageKind::WatchEvent,
            16 => MessageKind::Error,
            17 => MessageKind::IsDomainIntroduced,
            18 => MessageKind::Resume,
            19 => MessageKind::SetTarget,
            21 => MessageKind::ResetWatches,
            23 => MessageKind::TypeCount,
            _ => MessageKind::Invalid,
        }
    }

    /// The wire number of this kind.
    pub fn to_u32(self) -> (r: u32)
        ensures
            r == self.code(),
    {
        match self {
            MessageKind::Control => 0,
            MessageKind::Debug => 0,
            MessageKind::Directory => 1,
            MessageKind::DirectoryPart => 22,
            MessageKind::Read => 2,
            MessageKind::GetPerms => 3,
            MessageKind::Watch => 4,
            MessageKind::Unwatch => 5,
            MessageKind::TransactionStart => 6,
            MessageKind::TransactionEnd => 7,
            MessageKind::Introduce => 8,
            MessageKind::Release => 9,
            MessageKind::GetDomainPath => 10,
            MessageKind::Write => 11,
            MessageKind::MakeDirectory => 12,
            MessageKind::Remove => 13,
            MessageKind::SetPerms => 14,
            MessageKind::WatchEvent => 15,
            MessageKind::Error => 16,
            MessageKind::IsDomainIntroduced => 17,
            MessageKind::Resume => 18,
            MessageKind::SetTarget => 19,
            MessageKind::ResetWatches => 21,
            MessageKind::TypeCount => 23,
            MessageKind::Invalid => 0xffff,
        }
    }
}

/// State of a device connection on the bus.
#[derive(Debug, Clone, Copy, PartialEq, Eq, Structural)]
pub enum State {
    /// Initial state of the device on the bus, before either end has been connected
    Unknown,
    /// Backend is in process of initializing itself
    Initialising,
    /// Entered by the back end while it is waiting for information before completing initialization
    InitWait,
    /// Backend is now ready for connection
    Initialised,
    /// Normal state of the bus
    Connected,
    /// Device has become unavailable, backend is no longer doing useful work
    Closing,
    /// Both halves of driver have disconnected
    Closed,
    /// Device is being reconfigured
    Reconfiguring,
    /// Device reconfiguring has finished
    Reconfigured,
}

impl State {
    /// The number that stands for this state in the store.
    pub open spec fn code(self) -> u32 {
        match self {
            State::Unknown => 0,
            State::Initialising => 1,
            State::InitWait => 2,
            State::Initialised => 3,
            State::Connected => 4,
            State::Closing => 5,
            State::Closed => 6,
            State::Reconfiguring => 7,
            State::Reconfigured => 8,
        }
    }

    /// The state of a number from the store; `None` for a number that names
    /// no state.
    pub fn from_u32(value: u32) -> (r: Option<State>)
        ensures
            r matches Some(s) ==> s.code() == value,
            r is None <==> value > 8,
    {
        match value {
            0 => Some(State::Unknown),
            1 => Some(State::Initialising),
            2 => Some(State::InitWait),
            3 => Some(State::Initialised),
            4 => Some(State::Connected),
            5 => Some(State::Closing),
            6 => Some(State::Closed),
            7 => Some(State::Reconfiguring),
            8 => Some(State::Reconfigured),
            _ => None,
        }
    }

    /// The number of this state.
    pub fn to_u32(self) -> (r: u32)
        ensures
            r == self.code(),
    {
        match self {
            State::Unknown => 0,
            State::Initialising => 1,
            State::InitWait => 2,
            State::Initialised => 3,
            State::Connected => 4,
            State::Closing => 5,
            State::Closed => 6,
            State::Reconfiguring => 7,
            State::Reconfigured => 8,
        }
    }
}

/// Little-endian bytes of a 32-bit value.
pub open spec fn le32(x: u32) -> Seq<u8> {
    seq![(x % 256) as u8, ((x / 256) % 256) as u8, ((x / 65536) % 256) as u8, (x / 16777216) as u8]
}

/// The value of four little-endian bytes.
pub open spec fn u32_le(b: Seq<u8>) -> u32 {
    (b[0] + 256 * b[1] + 65536 * b[2] + 16777216 * b[3]) as u32
}

/// Appends the little-endian bytes of `x`.
pub fn put_u32(out: &mut Vec<u8>, x: u32)
    ensures
        final(out)@ == old(out)@ + le32(x),
{
    assert(x & 0xff == x % 256 && (x >> 8) & 0xff == (x / 256) % 256 && (x >> 16) & 0xff == (x / 65536)
        % 256 && x >> 24 == x / 16777216) by (bit_vector);
    out.push((x & 0xff) as u8);
    out.push(((x >> 8) & 0xff) as u8);
    out.push(((x >> 16) & 0xff) as u8);
    out.push((x >> 24) as u8);
    assert(final(out)@ =~= old(out)@ + le32(x));
}

/// The 32-bit value whose little-endian bytes start at `off`.
pub fn get_u32(b: &[u8], off: usize) -> (r: u32)
    requires
        off + 4 <= b@.len(),
    ensures
        le32(r) == b@.subrange(off as int, off + 4),
        r == u32_le(b@.subrange(off as int, off + 4)),
{
    let b0 = b[off];
    let b1 = b[off + 1];
    let b2 = b[off + 2];
    let b3 = b[off + 3];
    let r = (b0 as u32) | ((b1 as u32) << 8) | ((b2 as u32) << 16) | ((b3 as u32) << 24);
    assert(r % 256 == b0 as u32 && (r / 256) % 256 == b1 as u32 && (r / 65536) % 256 == b2 as u32 && r
        / 16777216 == b3 as u32) by (bit_vector)
        requires
            r == (b0 as u32) | ((b1 as u32) << 8) | ((b2 as u32) << 16) | ((b3 as u32) << 24),
    ;
    assert(r == b0 as u32 + 256 * (b1 as u32) + 65536 * (b2 as u32) + 16777216 * (b3 as u32)) by (bit_vector)
        requires
            r == (b0 as u32) | ((b1 as u32) << 8) | ((b2 as u32) << 16) | ((b3 as u32) << 24),
    ;
    assert(le32(r) =~= b@.subrange(off as int, off + 4));
    r
}

/// Header of a store message.
#[derive(Debug, Clone, Copy, PartialEq, Eq, Structural)]
pub struct MessageHeader {
    pub kind: MessageKind,
    pub request_id: u32,
    pub transaction_id: u32,
}

/// The wire form of a header: type, request id, transaction id and payload
/// length, each little-endian.
pub open spec fn header_bytes(kind: u32, request_id: u32, transaction_id: u32, len: u32) -> Seq<u8> {
    le32(kind) + le32(request_id) + le32(transaction_id) + le32(len)
}

proof fn lemma_positions_distinct(c: int, j: int, m: int)
    requires
        0 <= j < m < XENSTORE_RING_SIZE,
    ensures
        (c + j) % 1024 != (c + m) % 1024,
{
    vstd::arithmetic::div_mod::lemma_fundamental_div_mod(c + j, 1024);
    vstd::arithmetic::div_mod::lemma_fundamental_div_mod(c + m, 1024);
    let q1 = (c + j) / 1024;
    let q2 = (c + m) / 1024;
    if (c + j) % 1024 == (c + m) % 1024 {
        assert(false) by (nonlinear_arith)
            requires
                1024 * q1 + (c + j) % 1024 == c + j,
                1024 * q2 + (c + m) % 1024 == c + m,
                (c + j) % 1024 == (c + m) % 1024,
                0 < m - j < 1024,
        ;
    }
}

/// A counter `d` ahead of `c` names the same positions as `c + d`.
proof fn lemma_same_position(p: u32, c: u32, i: int)
    ensures
        (p as int + i) % 1024 == (c as int + distance(p, c) + i) % 1024,
{
    if p < c {
        assert(c as int + distance(p, c) + i == 1024 * 0x40_0000 + (p as int + i));
        vstd::arithmetic::div_mod::lemma_mod_multiples_vanish(0x40_0000, p as int + i, 1024);
    }
}

/// One direction of the store's shared page: a byte ring with a consumer
/// and a producer counter.
pub struct ByteRing {
    pub buf: Vec<u8>,
    pub cons: u32,
    pub prod: u32,
}

impl ByteRing {
    pub open spec fn wf(&self) -> bool {
        &&& self.buf@.len() == XENSTORE_RING_SIZE
        &&& distance(self.prod, self.cons) <= XENSTORE_RING_SIZE
    }

    /// The bytes written and not yet consumed, oldest first.
    pub open spec fn contents(&self) -> Seq<u8> {
        Seq::new(distance(self.prod, self.cons) as nat, |i: int| self.buf@[(self.cons as int + i) % 1024])
    }

    /// An empty ring.
    pub fn new() -> (r: Self)
        ensures
            r.wf(),
            r.contents() == Seq::<u8>::empty(),
            r.cons == 0 && r.prod == 0,
    {
        let mut buf: Vec<u8> = Vec::new();
        let mut i: u32 = 0;
        while i < XENSTORE_RING_SIZE
            invariant
                i <= XENSTORE_RING_SIZE,
                buf@.len() == i,
            decreases XENSTORE_RING_SIZE - i,
        {
            buf.push(0);
            i = i + 1;
        }
        let r = ByteRing { buf, cons: 0, prod: 0 };
        assert(r.contents() =~= Seq::<u8>::empty());
        r
    }

    /// Bytes written and not consumed.
    pub fn available(&self) -> (r: u32)
        requires
            self.wf(),
        ensures
            r == self.contents().len(),
    {
        self.prod.wrapping_sub(self.cons)
    }

    /// Room left for bytes.
    pub fn space(&self) -> (r: u32)
        requires
            self.wf(),
        ensures
            r == XENSTORE_RING_SIZE - self.contents().len(),
    {
        XENSTORE_RING_SIZE - self.prod.wrapping_sub(self.cons)
    }

    fn position(c: u32, i: u32) -> (r: usize)
        ensures
            r == (c as int + i as int) % 1024,
            r < 1024,
    {
        let x = c.wrapping_add(i);
        assert(x & 1023 == x % 1024) by (bit_vector);
        proof {
            if c as int + i as int >= 0x1_0000_0000 {
                assert(c as int + i as int == 1024 * 0x40_0000 + x as int);
                vstd::arithmetic::div_mod::lemma_mod_multiples_vanish(0x40_0000, x as int, 1024);
            }
        }
        (x & 1023) as usize
    }

    /// Appends `data`, byte by byte at the producer's position modulo the
    /// ring size, then publishes the new producer counter behind a barrier.
    pub fn write(&mut self, data: &[u8])
        requires
            old(self).wf(),
            data@.len() <= XENSTORE_RING_SIZE - old(self).contents().len(),
        ensures
            final(self).wf(),
            final(self).contents() == old(self).contents() + data@,
            final(self).cons == old(self).cons,
            final(self).prod == vstd::wrapping::u32_specs::wrapping_add(old(self).prod, data@.len() as u32),
    {
        let ghost start = self.contents();
        let len = data.len() as u32;
        let base = self.prod;
        let mut i: u32 = 0;
        while i < len
            invariant
                self.buf@.len() == XENSTORE_RING_SIZE,
                self.cons == old(self).cons,
                self.prod == base,
                base == old(self).prod,
                len == data@.len(),
                start == old(self).contents(),
                start.len() + len <= XENSTORE_RING_SIZE,
                i <= len,
                forall|j: int| 0 <= j < start.len() ==> #[trigger] self.buf@[(self.cons as int + j) % 1024] == start[j],
                forall|j: int| 0 <= j < i ==> #[trigger] self.buf@[(self.cons as int + start.len() + j) % 1024] == data@[j],
            decreases len - i,
        {
            let pos = Self::position(base, i);
            proof {
                lemma_same_position(base, self.cons, i as int);
            }
            let ghost before = self.buf@;
            self.buf.set(pos, data[i as usize]);
            proof {
                assert forall|j: int| 0 <= j < start.len() implies #[trigger] self.buf@[(self.cons as int + j) % 1024]
                    == start[j] by {
                    lemma_positions_distinct(self.cons as int, j, start.len() + i);
                }
                assert forall|j: int| 0 <= j < i + 1 implies #[trigger] self.buf@[(self.cons as int + start.len() + j)
                    % 1024] == data@[j] by {
                    if j < i {
                        lemma_positions_distinct(self.cons as int, start.len() + j, start.len() + i);
                    }
                }
            }
            i = i + 1;
        }
        full_fence();
        self.prod = base.wrapping_add(len);
        proof {
            assert(distance(self.prod, self.cons) == start.len() + len);
            assert forall|j: int| 0 <= j < start.len() + len implies #[trigger] self.contents()[j] == (start + data@)[j] by {
                if j >= start.len() {
                    let k = j - start.len();
                    assert(self.buf@[(self.cons as int + start.len() + k) % 1024] == data@[k]);
                }
            }
            assert(self.contents() =~= start + data@);
        }
    }

    /// A copy of `len` unconsumed bytes from `offset` on, read across the end
    /// of the ring where they wrap.
    pub fn peek(&self, offset: u32, len: u32) -> (r: Vec<u8>)
        requires
            self.wf(),
            offset + len <= self.contents().len(),
        ensures
            r@ == self.contents().subrange(offset as int, offset + len),
    {
        let mut out: Vec<u8> = Vec::new();
        let mut i: u32 = 0;
        while i < len
            invariant
                self.wf(),
                offset + len <= self.contents().len(),
                i <= len,
                out@ == self.contents().subrange(offset as int, offset + i),
            decreases len - i,
        {
            let pos = Self::position(self.cons, offset + i);
            out.push(self.buf[pos]);
            i = i + 1;
            assert(out@ =~= self.contents().subrange(offset as int, offset + i));
        }
        out
    }

    /// Drops the `n` oldest bytes.
    pub fn consume(&mut self, n: u32)
        requires
            old(self).wf(),
            n <= old(self).contents().len(),
        ensures
            final(self).wf(),
            final(self).contents() == old(self).contents().skip(n as int),
            final(self).prod == old(self).prod,
            final(self).buf == old(self).buf,
            final(self).cons == vstd::wrapping::u32_specs::wrapping_add(old(self).cons, n),
    {
        let ghost start = self.contents();
        full_fence();
        self.cons = self.cons.wrapping_add(n);
        proof {
            assert(distance(self.prod, self.cons) == start.len() - n);
            assert forall|j: int| 0 <= j < start.len() - n implies #[trigger] self.contents()[j] == start[j + n] by {
                let c0 = old(self).cons as int;
                if c0 + n >= 0x1_0000_0000 {
                    assert(c0 + n + j == 1024 * 0x40_0000 + (self.cons as int + j));
                    vstd::arithmetic::div_mod::lemma_mod_multiples_vanish(0x40_0000, self.cons as int + j, 1024);
                }
            }
            assert(self.contents() =~= start.skip(n as int));
        }
    }
}

/// Largest payload of a message: with its header it must stay below the
/// ring size.
pub const MAX_PAYLOAD: u32 = 1007;

/// The bytes of all segments, in order.
pub open spec fn concat(segments: Seq<&[u8]>) -> Seq<u8>
    decreases segments.len(),
{
    if segments.len() == 0 {
        Seq::empty()
    } else {
        concat(segments.drop_last()) + segments.last()@
    }
}

/// A payload with one trailing NUL removed, if it has one.
pub open spec fn strip_nul(p: Seq<u8>) -> Seq<u8> {
    if p.len() > 0 && p.last() == 0 {
        p.drop_last()
    } else {
        p
    }
}

/// Errors of the store protocol.
#[derive(Debug, Clone, Copy, PartialEq, Eq, Structural)]
pub enum XenbusError {
    /// Header and payload together do not fit below the ring size.
    TooLarge,
    /// The ring has no room for the message now; try again later.
    Busy,
    /// The store announced a payload that can never fit in the ring.
    Malformed,
}

/// A message from the store, with the trailing NUL of its payload removed.
#[derive(Debug, PartialEq, Eq)]
pub struct Response {
    pub header: MessageHeader,
    pub payload: Vec<u8>,
}

/// The client side of the store channel: requests go out on `req`, answers
/// and watch events come in on `rsp`. Answers wait in `responses` until the
/// request that they answer collects them.
pub struct XenBus {
    pub req: ByteRing,
    pub rsp: ByteRing,
    pub responses: Vec<Response>,
    pub watch_events: Vec<Response>,
}

/// The header that the complete message at the front of `c` carries.
pub open spec fn front_header(c: Seq<u8>, h: MessageHeader) -> bool {
    &&& h.kind.decodes(u32_le(c.subrange(0, 4)))
    &&& h.request_id == u32_le(c.subrange(4, 8))
    &&& h.transaction_id == u32_le(c.subrange(8, 12))
}

/// `c` begins with a whole message of a length that can fit in the ring.
pub open spec fn whole_message(c: Seq<u8>) -> bool {
    c.len() >= HEADER_SIZE && front_len(c) <= MAX_PAYLOAD && c.len() >= HEADER_SIZE + front_len(c)
}

/// Payload length that the header at the front of `c` announces.
pub open spec fn front_len(c: Seq<u8>) -> u32 {
    u32_le(c.subrange(12, 16))
}

impl XenBus {
    pub open spec fn wf(&self) -> bool {
        &&& self.req.wf()
        &&& self.rsp.wf()
        &&& ids_unique(self.responses@)
    }

    /// Index of the waiting response to `id`, if there is one.
    fn find_response(&self, id: u32) -> (r: Option<usize>)
        ensures
            r is None <==> !has_answer(self.responses@, id),
            r matches Some(k) ==> k < self.responses@.len() && self.responses@[k as int].header.request_id == id,
    {
        let mut i: usize = 0;
        while i < self.responses.len()
            invariant
                i <= self.responses@.len(),
                forall|j: int| 0 <= j < i ==> #[trigger] self.responses@[j].header.request_id != id,
            decreases self.responses@.len() - i,
        {
            if self.responses[i].header.request_id == id {
                return Some(i);
            }
            i = i + 1;
        }
        None
    }

    /// Files `m` in the response table: it replaces a waiting response with
    /// the same request id, else it goes at the end.
    fn store_response(&mut self, m: Response)
        requires
            ids_unique(old(self).responses@),
        ensures
            ids_unique(final(self).responses@),
            final(self).responses@ == inserted(old(self).responses@, m),
            final(self).req == old(self).req,
            final(self).rsp == old(self).rsp,
            final(self).watch_events == old(self).watch_events,
    {
        let id = m.header.request_id;
        match self.find_response(id) {
            Some(k) => {
                proof {
                    let k2 = choose|k2: int| 0 <= k2 < self.responses@.len() && #[trigger] self.responses@[k2].header.request_id == id;
                    assert(k2 == k as int);
                }
                self.responses.set(k, m);
                proof {
                    assert forall|a: int, b: int| 0 <= a < b < self.responses@.len() implies self.responses@[a].header.request_id
                        != self.responses@[b].header.request_id by {
                        assert(old(self).responses@[k as int].header.request_id == id);
                    }
                }
            },
            None => {
                self.responses.push(m);
                proof {
                    assert forall|a: int, b: int| 0 <= a < b < self.responses@.len() implies self.responses@[a].header.request_id
                        != self.responses@[b].header.request_id by {
                        if b == old(self).responses@.len() {
                            assert(old(self).responses@[a].header.request_id != id);
                        }
                    }
                }
            },
        }
    }

    /// A channel with empty rings and no message waiting.
    pub fn new() -> (r: Self)
        ensures
            r.wf(),
            r.req.contents() == Seq::<u8>::empty(),
            r.rsp.contents() == Seq::<u8>::empty(),
            r.responses@ == Seq::<Response>::empty(),
            r.watch_events@ == Seq::<Response>::empty(),
    {
        XenBus { req: ByteRing::new(), rsp: ByteRing::new(), responses: Vec::new(), watch_events: Vec::new() }
    }

    /// Frames a request, a header then the segments, onto the request ring.
    /// The caller then notifies the store on the channel's event port.
    /// `Busy` when the ring lacks room at present, which changes nothing.
    pub fn write(&mut self, header: MessageHeader, data: &[&[u8]]) -> (r: Result<(), XenbusError>)
        requires
            old(self).wf(),
        ensures
            final(self).wf(),
            r is Err ==> *final(self) == *old(self),
            r is Ok <==> (concat(data@).len() <= MAX_PAYLOAD && HEADER_SIZE + concat(data@).len()
                <= XENSTORE_RING_SIZE - old(self).req.contents().len()),
            r == Err::<(), XenbusError>(XenbusError::TooLarge) <==> concat(data@).len() > MAX_PAYLOAD,
            r == Err::<(), XenbusError>(XenbusError::Busy) <==> (concat(data@).len() <= MAX_PAYLOAD
                && HEADER_SIZE + concat(data@).len() > XENSTORE_RING_SIZE - old(self).req.contents().len()),
            r is Ok ==> {
                &&& final(self).req.cons == old(self).req.cons
                &&& final(self).req.prod == vstd::wrapping::u32_specs::wrapping_add(
                    old(self).req.prod,
                    (HEADER_SIZE + concat(data@).len()) as u32,
                )
                &&& final(self).req.contents() == old(self).req.contents() + header_bytes(
                    header.kind.code(),
                    header.request_id,
                    header.transaction_id,
                    concat(data@).len() as u32,
                ) + concat(data@)
                &&& final(self).rsp == old(self).rsp
                &&& final(self).responses == old(self).responses
                &&& final(self).watch_events == old(self).watch_events
            },
    {
        let mut body: Vec<u8> = Vec::new();
        let mut k: usize = 0;
        while k < data.len()
            invariant
                self.wf(),
                self.req == old(self).req,
                self.rsp == old(self).rsp,
                self.responses == old(self).responses,
                self.watch_events == old(self).watch_events,
                k <= data@.len(),
                body@ == concat(data@.subrange(0, k as int)),
                body@.len() <= MAX_PAYLOAD,
            decreases data@.len() - k,
        {
            let seg: &[u8] = data[k];
            let mut j: usize = 0;
            let ghost before = body@;
            while j < seg.len()
                invariant
                    self.wf(),
                    self.req == old(self).req,
                    self.rsp == old(self).rsp,
                    self.responses == old(self).responses,
                    self.watch_events == old(self).watch_events,
                    k < data@.len(),
                    seg == data@[k as int],
                    before == concat(data@.subrange(0, k as int)),
                    j <= seg@.len(),
                    body@ == before + seg@.subrange(0, j as int),
                    body@.len() <= MAX_PAYLOAD + 1,
                decreases seg@.len() - j,
            {
                if body.len() as u32 >= MAX_PAYLOAD + 1 {
                    proof {
                        lemma_concat_prefix(data@, k as int + 1);
                        assert(data@.subrange(0, k as int + 1).drop_last() =~= data@.subrange(0, k as int));
                        assert(concat(data@.subrange(0, k as int + 1)) == before + seg@);
                    }
                    return Err(XenbusError::TooLarge);
                }
                body.push(seg[j]);
                j = j + 1;
                assert(body@ =~= before + seg@.subrange(0, j as int));
            }
            if body.len() as u32 > MAX_PAYLOAD {
                proof {
                    assert(data@.subrange(0, k as int + 1).drop_last() =~= data@.subrange(0, k as int));
                    assert(seg@.subrange(0, j as int) =~= seg@);
                    lemma_concat_prefix(data@, k as int + 1);
                }
                return Err(XenbusError::TooLarge);
            }
            k = k + 1;
            proof {
                assert(data@.subrange(0, k as int).drop_last() =~= data@.subrange(0, k as int - 1));
                assert(seg@.subrange(0, j as int) =~= seg@);
            }
        }
        assert(data@.subrange(0, k as int) =~= data@);
        let len = body.len() as u32;
        if HEADER_SIZE + len > self.req.space() {
            return Err(XenbusError::Busy);
        }
        let mut msg: Vec<u8> = Vec::new();
        put_u32(&mut msg, header.kind.to_u32());
        put_u32(&mut msg, header.request_id);
        put_u32(&mut msg, header.transaction_id);
        put_u32(&mut msg, len);
        let mut j: usize = 0;
        let ghost head = msg@;
        while j < body.len()
            invariant
                j <= body@.len(),
                msg@ == head + body@.subrange(0, j as int),
            decreases body@.len() - j,
        {
            msg.push(body[j]);
            j = j + 1;
            assert(msg@ =~= head + body@.subrange(0, j as int));
        }
        assert(body@.subrange(0, j as int) =~= body@);
        assert(head =~= header_bytes(header.kind.code(), header.request_id, header.transaction_id, len));
        self.req.write(msg.as_slice());
        assert(old(self).req.contents() + (head + body@) =~= old(self).req.contents() + head + body@);
        Ok(())
    }

    /// Takes one whole message off the response ring, if one has arrived in
    /// full: a watch event goes to `watch_events`, anything else to
    /// `responses`. Returns whether a message was taken; a partial message
    /// stays where it is, unseen. `Malformed` when the header announces a
    /// payload that can never fit, which changes nothing.
    pub fn receive(&mut self) -> (r: Result<bool, XenbusError>)
        requires
            old(self).wf(),
        ensures
            final(self).wf(),
            final(self).req == old(self).req,
            !(r == Ok::<bool, XenbusError>(true)) ==> *final(self) == *old(self),
            r == Ok::<bool, XenbusError>(true) ==> final(self).rsp.contents() == old(self).rsp.contents().skip(
                16 + front_len(old(self).rsp.contents()),
            ),
            r == Ok::<bool, XenbusError>(true) && u32_le(old(self).rsp.contents().subrange(0, 4)) == 15
                ==> final(self).responses == old(self).responses,
            r == Ok::<bool, XenbusError>(true) && u32_le(old(self).rsp.contents().subrange(0, 4)) != 15 ==> forall|x: u32|
                #[trigger] has_answer(final(self).responses@, x) == (has_answer(old(self).responses@, x) || x == u32_le(
                    old(self).rsp.contents().subrange(4, 8),
                )),
            r == Ok::<bool, XenbusError>(true) ==> final(self).rsp.prod == old(self).rsp.prod
                && final(self).rsp.cons == vstd::wrapping::u32_specs::wrapping_add(
                old(self).rsp.cons,
                (HEADER_SIZE + front_len(old(self).rsp.contents())) as u32,
            ),
            ({
                let c = old(self).rsp.contents();
                &&& c.len() < HEADER_SIZE ==> r == Ok::<bool, XenbusError>(false)
                &&& c.len() >= HEADER_SIZE && front_len(c) > MAX_PAYLOAD ==> r == Err::<bool, XenbusError>(
                    XenbusError::Malformed)
                &&& c.len() >= HEADER_SIZE && front_len(c) <= MAX_PAYLOAD && c.len() < HEADER_SIZE
                    + front_len(c) ==> r == Ok::<bool, XenbusError>(false)
                &&& c.len() >= HEADER_SIZE && front_len(c) <= MAX_PAYLOAD && c.len() >= HEADER_SIZE
                    + front_len(c) ==> r == Ok::<bool, XenbusError>(true)
                &&& r == Ok::<bool, XenbusError>(true) ==> exists|m: Response| {
                    &&& front_header(c, m.header)
                    &&& m.payload@ == strip_nul(c.subrange(16, 16 + front_len(c)))
                    &&& final(self).rsp.contents() == c.skip(16 + front_len(c))
                    &&& if m.header.kind == MessageKind::WatchEvent {
                        final(self).watch_events@ == old(self).watch_events@.push(m)
                            && final(self).responses == old(self).responses
                    } else {
                        final(self).watch_events == old(self).watch_events && final(self).responses@ == inserted(
                            old(self).responses@,
                            m,
                        )
                    }
                }
            }),
    {
        let avail = self.rsp.available();
        if avail < HEADER_SIZE {
            return Ok(false);
        }
        let hdr = self.rsp.peek(0, HEADER_SIZE);
        let kind = get_u32(hdr.as_slice(), 0);
        let request_id = get_u32(hdr.as_slice(), 4);
        let transaction_id = get_u32(hdr.as_slice(), 8);
        let len = get_u32(hdr.as_slice(), 12);
        proof {
            let c = self.rsp.contents();
            assert(hdr@.subrange(0, 4) =~= c.subrange(0, 4));
            assert(hdr@.subrange(4, 8) =~= c.subrange(4, 8));
            assert(hdr@.subrange(8, 12) =~= c.subrange(8, 12));
            assert(hdr@.subrange(12, 16) =~= c.subrange(12, 16));
        }
        if len > MAX_PAYLOAD {
            return Err(XenbusError::Malformed);
        }
        if avail < HEADER_SIZE + len {
            return Ok(false);
        }
        let mut payload = self.rsp.peek(HEADER_SIZE, len);
        let n = payload.len();
        if n > 0 && payload[n - 1] == 0 {
            payload.pop();
        }
        let ghost c = self.rsp.contents();
        assert(payload@ =~= strip_nul(c.subrange(16, 16 + len)));
        let header = MessageHeader { kind: MessageKind::from_u32(kind), request_id, transaction_id };
        let m = Response { header, payload };
        let is_watch = header.kind == MessageKind::WatchEvent;
        proof {
            lemma_watch_code(header.kind, kind);
        }
        if is_watch {
            self.watch_events.push(m);
        } else {
            self.store_response(m);
            proof {
                assert forall|x: u32| #[trigger] has_answer(self.responses@, x) == (has_answer(old(self).responses@, x)
                    || x == request_id) by {
                    lemma_inserted_answers(old(self).responses@, m, x);
                }
            }
        }
        self.rsp.consume(HEADER_SIZE + len);
        Ok(true)
    }

    /// Removes and returns the first waiting response to `request_id`.
    pub fn take_response(&mut self, request_id: u32) -> (r: Option<Response>)
        requires
            old(self).wf(),
        ensures
            final(self).wf(),
            final(self).req == old(self).req,
            final(self).rsp == old(self).rsp,
            final(self).watch_events == old(self).watch_events,
            r is None <==> forall|i: int| 0 <= i < old(self).responses@.len()
                ==> #[trigger] old(self).responses@[i].header.request_id != request_id,
            r is None ==> final(self).responses == old(self).responses,
            r matches Some(m) ==> exists|k: int| {
                &&& 0 <= k < old(self).responses@.len()
                &&& m == old(self).responses@[k]
                &&& m.header.request_id == request_id
                &&& forall|i: int| 0 <= i < k ==> #[trigger] old(self).responses@[i].header.request_id != request_id
                &&& final(self).responses@ == old(self).responses@.remove(k)
            },
    {
        let mut i: usize = 0;
        while i < self.responses.len()
            invariant
                self.req == old(self).req,
                self.rsp == old(self).rsp,
                self.watch_events == old(self).watch_events,
                self.responses == old(self).responses,
                self.wf(),
                i <= self.responses@.len(),
                forall|j: int| 0 <= j < i ==> #[trigger] self.responses@[j].header.request_id != request_id,
            decreases self.responses@.len() - i,
        {
            if self.responses[i].header.request_id == request_id {
                let ghost before = self.responses@;
                let m = self.responses.remove(i);
                proof {
                    assert forall|a: int, b: int| 0 <= a < b < self.responses@.len() implies self.responses@[a].header.request_id
                        != self.responses@[b].header.request_id by {
                        let a0 = if a < i { a } else { a + 1 };
                        let b0 = if b < i { b } else { b + 1 };
                        assert(self.responses@[a] == before[a0]);
                        assert(self.responses@[b] == before[b0]);
                    }
                }
                return Some(m);
            }
            i = i + 1;
        }
        None
    }

    /// Takes every whole message that has arrived, then the first response
    /// to `request_id` among those waiting, if any. Fails only when it
    /// reaches a header that announces a payload that can never fit.
    pub fn poll_response(&mut self, request_id: u32) -> (r: Result<Option<Response>, XenbusError>)
        requires
            old(self).wf(),
        ensures
            final(self).wf(),
            final(self).req == old(self).req,
            r matches Ok(Some(m)) ==> m.header.request_id == request_id,
            r is Err <==> stuck(old(self).rsp.contents()),
            r is Err ==> r == Err::<Option<Response>, XenbusError>(XenbusError::Malformed),
            r is Ok ==> !whole_message(final(self).rsp.contents()),
            r is Ok ==> ((r matches Ok(Some(_))) <==> (has_answer(old(self).responses@, request_id)
                || carries_answer(old(self).rsp.contents(), request_id))),
            r == Ok::<Option<Response>, XenbusError>(None) ==> forall|i: int| 0 <= i < final(self).responses@.len()
                ==> #[trigger] final(self).responses@[i].header.request_id != request_id,
    {
        loop
            invariant
                self.wf(),
                self.req == old(self).req,
                stuck(self.rsp.contents()) == stuck(old(self).rsp.contents()),
                has_answer(self.responses@, request_id) || carries_answer(self.rsp.contents(), request_id)
                    <==> has_answer(old(self).responses@, request_id) || carries_answer(
                    old(self).rsp.contents(),
                    request_id,
                ),
            ensures
                self.wf(),
                self.req == old(self).req,
                !whole_message(self.rsp.contents()),
                !stuck(old(self).rsp.contents()),
                has_answer(self.responses@, request_id) <==> has_answer(old(self).responses@, request_id)
                    || carries_answer(old(self).rsp.contents(), request_id),
            decreases self.rsp.contents().len(),
        {
            let ghost c = self.rsp.contents();
            let ghost rs = self.responses@;
            let got = self.receive();
            match got {
                Ok(true) => {
                    proof {
                        if u32_le(c.subrange(0, 4)) != 15 {
                            assert(has_answer(self.responses@, request_id) == (has_answer(rs, request_id) || request_id
                                == u32_le(c.subrange(4, 8))));
                        }
                    }
                },
                Ok(false) => {
                    break;
                },
                Err(e) => {
                    return Err(e);
                },
            }
        }
        let m = self.take_response(request_id);
        Ok(m)
    }
}

/// Some response in `rs` answers `id`.
pub open spec fn has_answer(rs: Seq<Response>, id: u32) -> bool {
    exists|i: int| 0 <= i < rs.len() && #[trigger] rs[i].header.request_id == id
}

/// Reading whole messages from the front of `c` reaches a header whose
/// payload can never fit.
pub open spec fn stuck(c: Seq<u8>) -> bool
    decreases c.len(),
{
    if c.len() >= HEADER_SIZE && front_len(c) > MAX_PAYLOAD {
        true
    } else if whole_message(c) {
        stuck(c.skip(HEADER_SIZE + front_len(c)))
    } else {
        false
    }
}

/// One of the whole messages at the front of `c` answers `id` (a message
/// that is no watch event, with that request id).
pub open spec fn carries_answer(c: Seq<u8>, id: u32) -> bool
    decreases c.len(),
{
    if whole_message(c) {
        (u32_le(c.subrange(0, 4)) != 15 && u32_le(c.subrange(4, 8)) == id) || carries_answer(
            c.skip(HEADER_SIZE + front_len(c)),
            id,
        )
    } else {
        false
    }
}

proof fn lemma_watch_code(k: MessageKind, v: u32)
    requires
        k.decodes(v),
    ensures
        (k == MessageKind::WatchEvent) == (v == 15),
{
    if v == 15 {
        assert(MessageKind::WatchEvent.code() == v);
    }
}

/// `rs` with `m` filed: in place of the response with the same request id,
/// else at the end.
pub open spec fn inserted(rs: Seq<Response>, m: Response) -> Seq<Response> {
    if has_answer(rs, m.header.request_id) {
        rs.update(
            choose|k: int| 0 <= k < rs.len() && #[trigger] rs[k].header.request_id == m.header.request_id,
            m,
        )
    } else {
        rs.push(m)
    }
}

proof fn lemma_inserted_answers(rs: Seq<Response>, m: Response, x: u32)
    ensures
        has_answer(inserted(rs, m), x) == (has_answer(rs, x) || x == m.header.request_id),
{
    if has_answer(rs, m.header.request_id) {
        let k = choose|k: int| 0 <= k < rs.len() && #[trigger] rs[k].header.request_id == m.header.request_id;
        lemma_has_answer_update(rs, k, m, x);
        if x == m.header.request_id {
            assert(rs[k].header.request_id == x);
        }
    } else {
        lemma_has_answer_push(rs, m, x);
    }
}

/// No two responses in `rs` answer the same request.
pub open spec fn ids_unique(rs: Seq<Response>) -> bool {
    forall|a: int, b: int| 0 <= a < b < rs.len() ==> rs[a].header.request_id != rs[b].header.request_id
}

proof fn lemma_has_answer_update(rs: Seq<Response>, k: int, m: Response, id: u32)
    requires
        0 <= k < rs.len(),
        rs[k].header.request_id == m.header.request_id,
    ensures
        has_answer(rs.update(k, m), id) == has_answer(rs, id),
{
    if has_answer(rs, id) {
        let i = choose|i: int| 0 <= i < rs.len() && #[trigger] rs[i].header.request_id == id;
        assert(rs.update(k, m)[i].header.request_id == id);
    }
    if has_answer(rs.update(k, m), id) {
        let i = choose|i: int| 0 <= i < rs.update(k, m).len() && #[trigger] rs.update(k, m)[i].header.request_id == id;
        assert(rs[i].header.request_id == id);
    }
}

proof fn lemma_has_answer_push(rs: Seq<Response>, m: Response, id: u32)
    ensures
        has_answer(rs.push(m), id) == (has_answer(rs, id) || m.header.request_id == id),
{
    if has_answer(rs, id) {
        let i = choose|i: int| 0 <= i < rs.len() && #[trigger] rs[i].header.request_id == id;
        assert(rs.push(m)[i] == rs[i]);
    }
    if m.header.request_id == id {
        assert(rs.push(m)[rs.len() as int] == m);
    }
    if has_answer(rs.push(m), id) {
        let i = choose|i: int| 0 <= i < rs.push(m).len() && #[trigger] rs.push(m)[i].header.request_id == id;
        if i < rs.len() {
            assert(rs[i] == rs.push(m)[i]);
        }
    }
}

proof fn lemma_concat_prefix(segments: Seq<&[u8]>, k: int)
    requires
        0 <= k <= segments.len(),
    ensures
        concat(segments.subrange(0, k)).len() <= concat(segments).len(),
    decreases segments.len() - k,
{
    if k < segments.len() {
        lemma_concat_prefix(segments, k + 1);
        assert(segments.subrange(0, k + 1).drop_last() =~= segments.subrange(0, k));
    } else {
        assert(segments.subrange(0, k) =~= segments);
    }
}

} // verus!
