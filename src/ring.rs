//! Shared request/response rings living on one page.
use vstd::prelude::*;

use crate::full_fence;

verus! {

/// `r` is the largest power of two not above `x`, or zero when `x` is zero.
pub open spec fn is_floor_pow2(x: u32, r: u32) -> bool {
    &&& x == 0 ==> r == 0
    &&& x > 0 ==> r > 0 && r & ((r - 1) as u32) == 0 && r <= x && x < 2 * r
}

/// The same statement in the shape that bit-vector reasoning handles.
spec fn floor_pow2_bits(x: u32, r: u32) -> bool {
    &&& x == 0 ==> r == 0
    &&& x > 0 ==> r > 0 && r & ((r - 1) as u32) == 0 && r <= x && (x >> 1u32) < r
}

proof fn lemma_floor_pow2_bits(x: u32, r: u32)
    requires
        floor_pow2_bits(x, r),
    ensures
        is_floor_pow2(x, r),
{
    assert(x >> 1u32 == x / 2) by (bit_vector);
}

/// Rounds a value below four down to a power of two.
fn rd2(x: u32) -> (r: u32)
    requires
        x < 4,
    ensures
        floor_pow2_bits(x, r),
{
    assert(x < 4 ==> floor_pow2_bits(x, if x & 2 != 0 { 2 } else { x & 1 })) by (bit_vector);
    if x & 0x2 != 0 {
        2
    } else {
        x & 0x1
    }
}

/// Rounds a value below sixteen down to a power of two.
fn rd4(x: u32) -> (r: u32)
    requires
        x < 16,
    ensures
        floor_pow2_bits(x, r),
{
    if x & 0xc != 0 {
        assert(x < 16 ==> x >> 2 < 4) by (bit_vector);
        let r = rd2(x >> 2);
        assert(x < 16 && x & 0xc != 0 && floor_pow2_bits(x >> 2, r) ==> floor_pow2_bits(x, r << 2))
            by (bit_vector);
        r << 2
    } else {
        assert(x < 16 && x & 0xc == 0 ==> x < 4) by (bit_vector);
        rd2(x)
    }
}

/// Rounds a byte value down to a power of two.
fn rd8(x: u32) -> (r: u32)
    requires
        x < 0x100,
    ensures
        floor_pow2_bits(x, r),
{
    if x & 0xf0 != 0 {
        assert(x < 0x100 ==> x >> 4 < 16) by (bit_vector);
        let r = rd4(x >> 4);
        assert(x < 0x100 && x & 0xf0 != 0 && floor_pow2_bits(x >> 4, r) ==> floor_pow2_bits(x, r << 4))
            by (bit_vector);
        r << 4
    } else {
        assert(x < 0x100 && x & 0xf0 == 0 ==> x < 16) by (bit_vector);
        rd4(x)
    }
}

/// Rounds a 16-bit value down to a power of two.
fn rd16(x: u32) -> (r: u32)
    requires
        x < 0x10000,
    ensures
        floor_pow2_bits(x, r),
{
    if x & 0xff00 != 0 {
        assert(x < 0x10000 ==> x >> 8 < 0x100) by (bit_vector);
        let r = rd8(x >> 8);
        assert(x < 0x10000 && x & 0xff00 != 0 && floor_pow2_bits(x >> 8, r) ==> floor_pow2_bits(x, r << 8))
            by (bit_vector);
        r << 8
    } else {
        assert(x < 0x10000 && x & 0xff00 == 0 ==> x < 0x100) by (bit_vector);
        rd8(x)
    }
}

/// Rounds a 32-bit value down to the largest power of two not above it.
pub fn rd32(x: u32) -> (r: u32)
    ensures
        is_floor_pow2(x, r),
{
    let r = if x & 0xffff0000 != 0 {
        assert(x >> 16 < 0x10000) by (bit_vector);
        let r = rd16(x >> 16);
        assert(x & 0xffff0000 != 0 && floor_pow2_bits(x >> 16, r) ==> floor_pow2_bits(x, r << 16))
            by (bit_vector);
        r << 16
    } else {
        assert(x & 0xffff0000 == 0 ==> x < 0x10000) by (bit_vector);
        rd16(x)
    };
    proof {
        lemma_floor_pow2_bits(x, r);
    }
    r
}

} // verus!

verus! {

/// Size in bytes of the page that holds a ring.
pub const PAGE_SIZE: usize = 4096;

/// Bytes at the start of a ring page taken by the four counters and padding.
pub const RING_HEADER_SIZE: usize = 64;

/// Counters live modulo this value.
pub open spec fn modulus() -> nat {
    0x1_0000_0000
}

/// The 32-bit counter value of an unbounded count.
pub open spec fn wrap(n: nat) -> u32 {
    (n % modulus()) as u32
}

/// How far counter `a` is ahead of counter `b`, modulo 2^32.
pub open spec fn distance(a: u32, b: u32) -> u32 {
    vstd::wrapping::u32_specs::wrapping_sub(a, b)
}

proof fn lemma_wrap_distance(a: nat, b: nat)
    requires
        b <= a,
        a - b < modulus(),
    ensures
        distance(wrap(a), wrap(b)) == a - b,
{
    let m = modulus() as int;
    let qa = a as int / m;
    let qb = b as int / m;
    let ra = a as int % m;
    let rb = b as int % m;
    vstd::arithmetic::div_mod::lemma_fundamental_div_mod(a as int, m);
    vstd::arithmetic::div_mod::lemma_fundamental_div_mod(b as int, m);
    assert(qa == qb || qa == qb + 1) by (nonlinear_arith)
        requires
            a == m * qa + ra,
            b == m * qb + rb,
            0 <= ra < m,
            0 <= rb < m,
            b <= a,
            a - b < m,
            m > 0,
    ;
    if qa == qb {
        assert(m * qa == m * qb);
    } else {
        assert(m * qa == m * qb + m) by (nonlinear_arith)
            requires
                qa == qb + 1,
        ;
    }
}

proof fn lemma_wrap_next(n: nat)
    ensures
        wrap(n + 1) == vstd::wrapping::u32_specs::wrapping_add(wrap(n), 1),
{
    let m = modulus() as int;
    vstd::arithmetic::div_mod::lemma_fundamental_div_mod(n as int, m);
    vstd::arithmetic::div_mod::lemma_fundamental_div_mod(n as int + 1, m);
    let q = n as int / m;
    let q1 = (n as int + 1) / m;
    assert(q1 == q || q1 == q + 1) by (nonlinear_arith)
        requires
            n == m * q + n as int % m,
            n + 1 == m * q1 + (n as int + 1) % m,
            0 <= n as int % m < m,
            0 <= (n as int + 1) % m < m,
            m > 0,
    ;
    if q1 == q {
        assert(m * q1 == m * q);
    } else {
        assert(m * q1 == m * q + m) by (nonlinear_arith)
            requires
                q1 == q + 1,
        ;
    }
}

} // verus!

verus! {

proof fn lemma_distance_step(p: u32, c: u32)
    requires
        distance(p, c) > 0,
    ensures
        distance(p, vstd::wrapping::u32_specs::wrapping_add(c, 1)) == distance(p, c) - 1,
{
}

/// Every ring size divides the counter modulus.
proof fn lemma_size_divides_modulus(n: u32)
    requires
        0 < n <= PAGE_SIZE,
        n & ((n - 1) as u32) == 0,
    ensures
        modulus() as int % n as int == 0,
{
    assert(0 < n <= 4096 && n & vstd::prelude::sub(n, 1) == 0 ==> n == 1 || n == 2 || n == 4 || n == 8 || n == 16 || n == 32 || n == 64 || n == 128 || n == 256 || n == 512 || n == 1024 || n == 2048 || n == 4096)
        by (bit_vector);
}

/// Reducing a count to its counter keeps its slot.
proof fn lemma_wrap_slot(c: nat, n: u32)
    requires
        0 < n <= PAGE_SIZE,
        n & ((n - 1) as u32) == 0,
    ensures
        wrap(c) as int % n as int == c as int % n as int,
{
    lemma_size_divides_modulus(n);
    let q = modulus() as int / n as int;
    vstd::arithmetic::div_mod::lemma_fundamental_div_mod(modulus() as int, n as int);
    assert(modulus() == n * q);
    vstd::arithmetic::div_mod::lemma_mod_mod(c as int, n as int, q);
    assert(n as int * q == modulus());
}

proof fn lemma_mask_is_mod(x: u32, n: u32)
    requires
        0 < n <= PAGE_SIZE,
        n & ((n - 1) as u32) == 0,
    ensures
        x & ((n - 1) as u32) == x % n,
        x & ((n - 1) as u32) < n,
{
    assert(0 < n <= 4096 && n & vstd::prelude::sub(n, 1) == 0 ==> n == 1 || n == 2 || n == 4 || n == 8 || n == 16 || n == 32 || n == 64 || n == 128 || n == 256 || n == 512 || n == 1024 || n == 2048 || n == 4096)
        by (bit_vector);
    if n == 1 {
        assert(x & 0 == 0) by (bit_vector);
    } else if n == 2 {
        assert(x & 1 == x % 2) by (bit_vector);
    } else if n == 4 {
        assert(x & 3 == x % 4) by (bit_vector);
    } else if n == 8 {
        assert(x & 7 == x % 8) by (bit_vector);
    } else if n == 16 {
        assert(x & 15 == x % 16) by (bit_vector);
    } else if n == 32 {
        assert(x & 31 == x % 32) by (bit_vector);
    } else if n == 64 {
        assert(x & 63 == x % 64) by (bit_vector);
    } else if n == 128 {
        assert(x & 127 == x % 128) by (bit_vector);
    } else if n == 256 {
        assert(x & 255 == x % 256) by (bit_vector);
    } else if n == 512 {
        assert(x & 511 == x % 512) by (bit_vector);
    } else if n == 1024 {
        assert(x & 1023 == x % 1024) by (bit_vector);
    } else if n == 2048 {
        assert(x & 2047 == x % 2048) by (bit_vector);
    } else if n == 4096 {
        assert(x & 4095 == x % 4096) by (bit_vector);
    }
}

/// Number of slots that a ring page holds for entries of `entry_size` bytes:
/// the largest power of two that fits in the page after the header.
pub fn ring_capacity(entry_size: usize) -> (r: u32)
    requires
        0 < entry_size <= PAGE_SIZE - RING_HEADER_SIZE,
    ensures
        is_floor_pow2(((PAGE_SIZE - RING_HEADER_SIZE) / entry_size as int) as u32, r),
        0 < r <= PAGE_SIZE - RING_HEADER_SIZE,
{
    let fit = (PAGE_SIZE - RING_HEADER_SIZE) / entry_size;
    assert(fit >= 1) by (nonlinear_arith)
        requires
            fit == (PAGE_SIZE - RING_HEADER_SIZE) / entry_size as int,
            0 < entry_size <= PAGE_SIZE - RING_HEADER_SIZE,
    ;
    assert(fit <= PAGE_SIZE - RING_HEADER_SIZE) by (nonlinear_arith)
        requires
            fit == (PAGE_SIZE - RING_HEADER_SIZE) / entry_size as int,
            0 < entry_size,
    ;
    rd32(fit as u32)
}

/// The page shared with the peer: four counters and the slot array.
///
/// This side writes `req_prod` and `rsp_event`; the peer writes `rsp_prod`,
/// `req_event` and the slots that hold its responses.
pub struct SharedRing<E> {
    pub req_prod: u32,
    pub req_event: u32,
    pub rsp_prod: u32,
    pub rsp_event: u32,
    pub ring: Vec<E>,
}

/// Errors of the ring protocol.
#[derive(Debug, PartialEq, Eq, Clone, Copy, Structural)]
pub enum RingError {
    /// Every slot holds a request that has not been answered yet.
    Full,
    /// The peer announced more responses than requests were published.
    PeerOverrun,
}

/// The front end of a shared ring: private cursors next to the shared page.
pub struct Ring<E> {
    /// Requests written locally, not all of them published yet.
    pub req_prod_pvt: u32,
    /// Responses consumed locally.
    pub rsp_cons: u32,
    /// Number of slots, a power of two.
    pub nr_ents: u32,
    pub sring: SharedRing<E>,
    /// Requests written since the ring was made, without wrapping.
    pub written: Ghost<nat>,
    /// Requests published since the ring was made, without wrapping.
    pub published: Ghost<nat>,
    /// Responses consumed since the ring was made, without wrapping.
    pub consumed: Ghost<nat>,
}

impl<E: Copy> Ring<E> {
    /// Total requests written since the ring was made.
    pub open spec fn written(&self) -> nat {
        self.written@
    }

    /// Total requests published to the peer since the ring was made.
    pub open spec fn published(&self) -> nat {
        self.published@
    }

    /// Total responses consumed since the ring was made.
    pub open spec fn consumed(&self) -> nat {
        self.consumed@
    }

    pub open spec fn wf(&self) -> bool {
        &&& self.nr_ents > 0
        &&& self.nr_ents & ((self.nr_ents - 1) as u32) == 0
        &&& self.nr_ents <= PAGE_SIZE
        &&& self.sring.ring@.len() == self.nr_ents
        &&& self.req_prod_pvt == wrap(self.written@)
        &&& self.sring.req_prod == wrap(self.published@)
        &&& self.rsp_cons == wrap(self.consumed@)
        &&& self.consumed@ <= self.published@ <= self.written@
        &&& self.written@ <= self.consumed@ + self.nr_ents
    }

    /// Slot that holds logical index `idx`.
    pub open spec fn slot_of(&self, idx: u32) -> int {
        idx as int % self.nr_ents as int
    }

    /// The ring after asking the peer to notify at the next response.
    pub open spec fn armed(self) -> Ring<E> {
        Ring {
            sring: SharedRing {
                rsp_event: vstd::wrapping::u32_specs::wrapping_add(self.rsp_cons, 1),
                ..self.sring
            },
            ..self
        }
    }

    /// Responses the peer has announced and this side has not consumed.
    pub open spec fn unconsumed(&self) -> u32 {
        distance(self.sring.rsp_prod, self.rsp_cons)
    }

    /// Requests published and not answered by a consumed response.
    pub open spec fn outstanding(&self) -> u32 {
        distance(self.sring.req_prod, self.rsp_cons)
    }

    /// A fresh ring for entries of `entry_size` bytes, every slot holding `fill`.
    pub fn new(entry_size: usize, fill: E) -> (r: Self)
        requires
            0 < entry_size <= PAGE_SIZE - RING_HEADER_SIZE,
        ensures
            r.wf(),
            is_floor_pow2(((PAGE_SIZE - RING_HEADER_SIZE) / entry_size as int) as u32, r.nr_ents),
            r.sring.ring@ == Seq::new(r.nr_ents as nat, |_i: int| fill),
            r.req_prod_pvt == 0 && r.rsp_cons == 0,
            r.sring.req_prod == 0 && r.sring.rsp_prod == 0,
            r.sring.req_event == 1 && r.sring.rsp_event == 1,
            r.written() == 0 && r.published() == 0 && r.consumed() == 0,
    {
        let n = ring_capacity(entry_size);
        let mut slots: Vec<E> = Vec::new();
        let mut i: u32 = 0;
        while i < n
            invariant
                i <= n,
                slots@ == Seq::new(i as nat, |_i: int| fill),
            decreases n - i,
        {
            slots.push(fill);
            i = i + 1;
            assert(slots@ =~= Seq::new(i as nat, |_i: int| fill));
        }
        proof {
            assert(n & vstd::prelude::sub(n, 1) == 0 ==> n & ((n - 1) as u32) == 0);
        }
        Ring {
            req_prod_pvt: 0,
            rsp_cons: 0,
            nr_ents: n,
            sring: SharedRing { req_prod: 0, req_event: 1, rsp_prod: 0, rsp_event: 1, ring: slots },
            written: Ghost(0),
            published: Ghost(0),
            consumed: Ghost(0),
        }
    }

    /// Number of slots.
    pub fn size(&self) -> (r: usize)
        requires
            self.wf(),
        ensures
            r == self.nr_ents,
    {
        self.nr_ents as usize
    }

    /// Physical slot of a logical index: `idx & (size - 1)`.
    pub fn slot(&self, idx: u32) -> (r: usize)
        requires
            self.wf(),
        ensures
            r == self.slot_of(idx),
            r < self.nr_ents,
    {
        proof {
            lemma_mask_is_mod(idx, self.nr_ents);
        }
        (idx & (self.nr_ents - 1)) as usize
    }

    /// The entry at logical index `idx`.
    pub fn get(&self, idx: u32) -> (r: E)
        requires
            self.wf(),
        ensures
            r == self.sring.ring@[self.slot_of(idx)],
    {
        let s = self.slot(idx);
        self.sring.ring[s]
    }

    /// Writes the entry at logical index `idx`; counters are left alone.
    pub fn set(&mut self, idx: u32, e: E)
        requires
            old(self).wf(),
        ensures
            final(self).wf(),
            final(self).sring.ring@ == old(self).sring.ring@.update(old(self).slot_of(idx), e),
            final(self).req_prod_pvt == old(self).req_prod_pvt,
            final(self).rsp_cons == old(self).rsp_cons,
            final(self).nr_ents == old(self).nr_ents,
            final(self).sring.req_prod == old(self).sring.req_prod,
            final(self).sring.req_event == old(self).sring.req_event,
            final(self).sring.rsp_prod == old(self).sring.rsp_prod,
            final(self).sring.rsp_event == old(self).sring.rsp_event,
            final(self).written() == old(self).written(),
            final(self).published() == old(self).published(),
            final(self).consumed() == old(self).consumed(),
    {
        let s = self.slot(idx);
        self.sring.ring.set(s, e);
    }

    /// Whether a slot is free for another request.
    pub fn has_room(&self) -> (r: bool)
        requires
            self.wf(),
        ensures
            r == (self.written() < self.consumed() + self.nr_ents),
    {
        proof {
            lemma_wrap_distance(self.written@, self.consumed@);
        }
        self.req_prod_pvt.wrapping_sub(self.rsp_cons) < self.nr_ents
    }

    /// Writes a request into the next free slot and advances the private
    /// producer; fails when every slot holds an unanswered request.
    pub fn push_request(&mut self, e: E) -> (r: Result<(), RingError>)
        requires
            old(self).wf(),
        ensures
            final(self).wf(),
            r is Err <==> old(self).written() == old(self).consumed() + old(self).nr_ents,
            r is Err ==> *final(self) == *old(self),
            r is Ok ==> {
                &&& final(self).sring.ring@ == old(self).sring.ring@.update(
                    old(self).slot_of(old(self).req_prod_pvt),
                    e,
                )
                &&& old(self).slot_of(old(self).req_prod_pvt) == old(self).written() as int % old(self).nr_ents as int
                &&& final(self).req_prod_pvt == vstd::wrapping::u32_specs::wrapping_add(
                    old(self).req_prod_pvt,
                    1,
                )
                &&& final(self).written() == old(self).written() + 1
                &&& final(self).rsp_cons == old(self).rsp_cons
                &&& final(self).nr_ents == old(self).nr_ents
                &&& final(self).sring.req_prod == old(self).sring.req_prod
                &&& final(self).sring.req_event == old(self).sring.req_event
                &&& final(self).sring.rsp_prod == old(self).sring.rsp_prod
                &&& final(self).sring.rsp_event == old(self).sring.rsp_event
                &&& final(self).published() == old(self).published()
                &&& final(self).consumed() == old(self).consumed()
            },
    {
        proof {
            lemma_wrap_distance(self.written@, self.consumed@);
            lemma_wrap_slot(self.written@, self.nr_ents);
        }
        if self.req_prod_pvt.wrapping_sub(self.rsp_cons) >= self.nr_ents {
            return Err(RingError::Full);
        }
        let i = self.req_prod_pvt;
        self.set(i, e);
        self.req_prod_pvt = i.wrapping_add(1);
        proof {
            lemma_wrap_next(self.written@);
            self.written = Ghost(self.written@ + 1);
        }
        Ok(())
    }

    /// Publishes every written request to the peer. Returns whether the peer
    /// asked to be notified: its `req_event` threshold lies in the range of
    /// counters just published.
    pub fn push_requests(&mut self) -> (notify: bool)
        requires
            old(self).wf(),
        ensures
            final(self).wf(),
            final(self).sring.req_prod == old(self).req_prod_pvt,
            final(self).published() == old(self).written(),
            notify == (distance(old(self).req_prod_pvt, old(self).sring.req_event) < distance(
                old(self).req_prod_pvt,
                old(self).sring.req_prod,
            )),
            final(self).sring.ring@ == old(self).sring.ring@,
            final(self).req_prod_pvt == old(self).req_prod_pvt,
            final(self).rsp_cons == old(self).rsp_cons,
            final(self).nr_ents == old(self).nr_ents,
            final(self).sring.req_event == old(self).sring.req_event,
            final(self).sring.rsp_prod == old(self).sring.rsp_prod,
            final(self).sring.rsp_event == old(self).sring.rsp_event,
            final(self).written() == old(self).written(),
            final(self).consumed() == old(self).consumed(),
    {
        let old_prod = self.sring.req_prod;
        let new_prod = self.req_prod_pvt;
        full_fence();
        self.sring.req_prod = new_prod;
        proof {
            self.published = Ghost(self.written@);
        }
        full_fence();
        new_prod.wrapping_sub(self.sring.req_event) < new_prod.wrapping_sub(old_prod)
    }

    /// Sets the response counter at which the peer is to notify this side.
    pub fn set_rsp_event(&mut self, val: u32)
        requires
            old(self).wf(),
        ensures
            final(self).wf(),
            *final(self) == (Ring { sring: SharedRing { rsp_event: val, ..old(self).sring }, ..*old(self) }),
    {
        self.sring.rsp_event = val;
    }

    /// Responses announced by the peer and not consumed yet.
    pub fn unconsumed_responses(&self) -> (r: u32)
        requires
            self.wf(),
        ensures
            r == self.unconsumed(),
    {
        self.sring.rsp_prod.wrapping_sub(self.rsp_cons)
    }

    /// Number of unconsumed responses. When there are none, first asks the
    /// peer to notify at the next response (`rsp_event = rsp_cons + 1`), then
    /// looks again, so that a response published meanwhile is not missed.
    pub fn check_for_responses(&mut self) -> (r: u32)
        requires
            old(self).wf(),
        ensures
            final(self).wf(),
            r == old(self).unconsumed(),
            r > 0 ==> *final(self) == *old(self),
            r == 0 ==> *final(self) == old(self).armed(),
    {
        let todo = self.unconsumed_responses();
        if todo > 0 {
            return todo;
        }
        let next = self.rsp_cons.wrapping_add(1);
        self.set_rsp_event(next);
        full_fence();
        self.unconsumed_responses()
    }

    /// Consumes the oldest unconsumed response. `Ok(None)` when there is none;
    /// an error when the peer announced more responses than requests were
    /// published, which leaves the ring as it was.
    pub fn take_response(&mut self) -> (r: Result<Option<E>, RingError>)
        requires
            old(self).wf(),
        ensures
            final(self).wf(),
            r is Err <==> old(self).unconsumed() > old(self).outstanding(),
            r is Err ==> r == Err::<Option<E>, RingError>(RingError::PeerOverrun),
            r == Ok::<Option<E>, RingError>(None) <==> old(self).unconsumed() == 0,
            !(r matches Ok(Some(_))) ==> *final(self) == *old(self),
            r matches Ok(Some(e)) ==> {
                &&& e == old(self).sring.ring@[old(self).slot_of(old(self).rsp_cons)]
                &&& final(self).unconsumed() == old(self).unconsumed() - 1
                &&& final(self).outstanding() == old(self).outstanding() - 1
                &&& old(self).slot_of(old(self).rsp_cons) == old(self).consumed() as int % old(self).nr_ents as int
                &&& *final(self) == (Ring {
                    rsp_cons: vstd::wrapping::u32_specs::wrapping_add(old(self).rsp_cons, 1),
                    consumed: Ghost(old(self).consumed() + 1),
                    ..*old(self)
                })
            },
    {
        let avail = self.sring.rsp_prod.wrapping_sub(self.rsp_cons);
        let outstanding = self.sring.req_prod.wrapping_sub(self.rsp_cons);
        if avail > outstanding {
            return Err(RingError::PeerOverrun);
        }
        if avail == 0 {
            return Ok(None);
        }
        proof {
            lemma_wrap_distance(self.published@, self.consumed@);
            lemma_distance_step(self.sring.rsp_prod, self.rsp_cons);
            lemma_distance_step(self.sring.req_prod, self.rsp_cons);
            lemma_wrap_slot(self.consumed@, self.nr_ents);
        }
        let e = self.get(self.rsp_cons);
        self.rsp_cons = self.rsp_cons.wrapping_add(1);
        proof {
            lemma_wrap_next(self.consumed@);
            self.consumed = Ghost(self.consumed@ + 1);
        }
        Ok(Some(e))
    }

    /// Consumes every announced response, in order, then asks the peer to
    /// notify at the next one. Fails, changing nothing, when the peer
    /// announced more responses than requests were published.
    pub fn drain_responses(&mut self) -> (r: Result<Vec<E>, RingError>)
        requires
            old(self).wf(),
        ensures
            final(self).wf(),
            r is Err <==> old(self).unconsumed() > old(self).outstanding(),
            r is Err ==> r == Err::<Vec<E>, RingError>(RingError::PeerOverrun) && *final(self) == *old(self),
            old(self).unconsumed() == 0 ==> (r matches Ok(v) && v@.len() == 0) && *final(self) == old(self).armed(),
            r matches Ok(v) ==> {
                &&& v@.len() == old(self).unconsumed()
                &&& forall|i: int| 0 <= i < v@.len() ==>
                    #[trigger] v@[i] == old(self).sring.ring@[(old(self).consumed() + i) % old(self).nr_ents as int]
                &&& final(self).consumed() == old(self).consumed() + v@.len()
                &&& final(self).rsp_cons == wrap(final(self).consumed())
                &&& final(self).sring.rsp_event == vstd::wrapping::u32_specs::wrapping_add(final(self).rsp_cons, 1)
                &&& final(self).unconsumed() == 0
                &&& final(self).sring.ring@ == old(self).sring.ring@
                &&& final(self).req_prod_pvt == old(self).req_prod_pvt
                &&& final(self).nr_ents == old(self).nr_ents
                &&& final(self).sring.req_prod == old(self).sring.req_prod
                &&& final(self).sring.req_event == old(self).sring.req_event
                &&& final(self).sring.rsp_prod == old(self).sring.rsp_prod
                &&& final(self).written() == old(self).written()
                &&& final(self).published() == old(self).published()
            },
    {
        let avail = self.sring.rsp_prod.wrapping_sub(self.rsp_cons);
        let outstanding = self.sring.req_prod.wrapping_sub(self.rsp_cons);
        if avail > outstanding {
            return Err(RingError::PeerOverrun);
        }
        let ghost start = *self;
        let mut out: Vec<E> = Vec::new();
        let mut k: u32 = 0;
        while k < avail
            invariant
                self.wf(),
                start.wf(),
                avail == start.unconsumed(),
                avail <= start.outstanding(),
                k <= avail,
                out@.len() == k,
                self.unconsumed() == avail - k,
                self.outstanding() == start.outstanding() - k,
                self.consumed() == start.consumed() + k,
                forall|i: int| 0 <= i < k ==>
                    #[trigger] out@[i] == start.sring.ring@[(start.consumed() + i) % start.nr_ents as int],
                self.sring == start.sring,
                self.req_prod_pvt == start.req_prod_pvt,
                self.nr_ents == start.nr_ents,
                self.written() == start.written(),
                self.published() == start.published(),
            decreases avail - k,
        {
            proof {
                lemma_distance_step(self.sring.rsp_prod, self.rsp_cons);
                lemma_distance_step(self.sring.req_prod, self.rsp_cons);
                lemma_wrap_slot(self.consumed(), self.nr_ents);
            }
            let t = self.take_response();
            match t {
                Ok(Some(e)) => {
                    out.push(e);
                },
                _ => {
                    assert(false);
                },
            }
            k = k + 1;
        }
        self.check_for_responses();
        Ok(out)
    }
}

/// Consecutive logical indices land in consecutive slots, the one after the
/// last slot being the first, also where the 32-bit counter itself wraps.
pub proof fn lemma_next_slot<E: Copy>(r: Ring<E>, idx: u32)
    requires
        r.wf(),
    ensures
        r.slot_of(vstd::wrapping::u32_specs::wrapping_add(idx, 1)) == (r.slot_of(idx) + 1) % r.nr_ents as int,
        0 <= r.slot_of(idx) < r.nr_ents,
{
    let n = r.nr_ents as int;
    lemma_size_divides_modulus(r.nr_ents);
    vstd::arithmetic::div_mod::lemma_add_mod_noop_right(1, idx as int, n);
    vstd::arithmetic::div_mod::lemma_mod_bound(idx as int, n);
    if idx == 0xffff_ffff {
        assert((idx as int + 1) == modulus());
        assert(vstd::wrapping::u32_specs::wrapping_add(idx, 1) == 0);
        assert(0int % n == 0);
    } else {
        assert(vstd::wrapping::u32_specs::wrapping_add(idx, 1) == idx + 1);
    }
}

/// Draining with nothing new is idempotent: it only arms the peer's event
/// threshold, and arming an armed ring changes nothing.
pub proof fn lemma_idle_drain_idempotent<E: Copy>(r: Ring<E>)
    requires
        r.wf(),
        r.unconsumed() == 0,
    ensures
        r.armed().wf(),
        r.armed().unconsumed() == 0,
        r.armed().armed() == r.armed(),
        r.armed().consumed() == r.consumed(),
        r.armed().rsp_cons == r.rsp_cons,
        r.armed().sring.ring == r.sring.ring,
{
}

/// Responses consumed never exceed requests published, in every well-formed
/// state; the operations above only ever add to the consumed count.
pub proof fn lemma_consumed_within_published<E: Copy>(r: Ring<E>)
    requires
        r.wf(),
    ensures
        r.consumed() <= r.published(),
        r.published() <= r.written(),
        r.outstanding() == r.published() - r.consumed(),
{
    lemma_wrap_distance(r.published(), r.consumed());
}

/// The consumer counter only moves forward: across any run of operations
/// it advances, modulo 2^32, by exactly the number of responses consumed.
pub proof fn lemma_rsp_cons_advances<E: Copy>(a: Ring<E>, b: Ring<E>)
    requires
        a.wf(),
        b.wf(),
        a.consumed() <= b.consumed(),
        b.consumed() - a.consumed() < modulus(),
    ensures
        distance(b.rsp_cons, a.rsp_cons) == b.consumed() - a.consumed(),
{
    lemma_wrap_distance(b.consumed(), a.consumed());
}

/// What the peer writes (its response counter, its event threshold and the
/// slots) keeps the front end well formed and leaves its counts alone.
pub proof fn lemma_peer_writes_keep_ring<E: Copy>(a: Ring<E>, b: Ring<E>)
    requires
        a.wf(),
        b.req_prod_pvt == a.req_prod_pvt,
        b.rsp_cons == a.rsp_cons,
        b.nr_ents == a.nr_ents,
        b.sring.req_prod == a.sring.req_prod,
        b.sring.rsp_event == a.sring.rsp_event,
        b.sring.ring@.len() == a.sring.ring@.len(),
        b.written == a.written,
        b.published == a.published,
        b.consumed == a.consumed,
    ensures
        b.wf(),
        b.consumed() <= b.published(),
{
}

} // verus!
