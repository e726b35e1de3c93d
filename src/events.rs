//! Event channels: the port table of handlers and the pending and mask
//! bitmaps that the hypervisor shares with this domain.
use vstd::prelude::*;

verus! {

/// Number of event channel ports.
pub const NUM_EVENT_PORTS: u32 = 1024;

/// Ports per bitmap word.
pub const PORTS_PER_WORD: u32 = 64;

/// Words in each bitmap.
pub const BITMAP_WORDS: usize = 16;

/// Bit `b` of `w`.
pub open spec fn bit_set(w: u64, b: u64) -> bool {
    (w >> b) & 1 == 1
}

proof fn lemma_set_bit(w: u64, b: u64)
    requires
        b < 64,
    ensures
        forall|i: u64| i < 64 ==> #[trigger] bit_set(w | (1u64 << b), i) == (i == b || bit_set(w, i)),
{
    assert forall|i: u64| i < 64 implies #[trigger] bit_set(w | (1u64 << b), i) == (i == b || bit_set(w, i)) by {
        assert(b < 64 && i < 64 ==> (((w | (1u64 << b)) >> i) & 1 == 1) == (i == b || (w >> i) & 1 == 1))
            by (bit_vector);
    }
}

proof fn lemma_and_not(x: u64, y: u64, b: u64)
    requires
        b < 64,
    ensures
        bit_set(x & !y, b) == (bit_set(x, b) && !bit_set(y, b)),
{
    assert(b < 64 ==> (((x & !y) >> b) & 1 == 1) == ((x >> b) & 1 == 1 && !((y >> b) & 1 == 1)))
        by (bit_vector);
}

proof fn lemma_clear_bit(w: u64, b: u64)
    requires
        b < 64,
    ensures
        forall|i: u64| i < 64 ==> #[trigger] bit_set(w & !(1u64 << b), i) == (i != b && bit_set(w, i)),
{
    assert forall|i: u64| i < 64 implies #[trigger] bit_set(w & !(1u64 << b), i) == (i != b && bit_set(w, i)) by {
        assert(b < 64 && i < 64 ==> (((w & !(1u64 << b)) >> i) & 1 == 1) == (i != b && (w >> i) & 1 == 1))
            by (bit_vector);
    }
}

/// Who handles a port: the default, which only reports the event, or a
/// handler that the caller registered under a number of its own.
#[derive(Debug, Clone, Copy, PartialEq, Eq, Structural)]
pub enum Handler {
    Default,
    Bound(u32),
}

/// The action bound to one port.
#[derive(Debug, Clone, Copy, PartialEq, Eq, Structural)]
pub struct EventAction {
    pub handler: Handler,
    pub data: usize,
    /// Events delivered on the port since it was bound.
    pub count: u32,
}

/// Runs the handler bound to a port when an event is delivered on it.
pub trait EventHandler {
    fn handle(&mut self, port: u32, handler: Handler, data: usize);
}

/// Port table and the two shared bitmaps. `selector` has bit `w` set when
/// word `w` of `pending` may hold new events.
pub struct EventChannels {
    pub actions: Vec<EventAction>,
    pub pending: Vec<u64>,
    pub mask: Vec<u64>,
    pub selector: u64,
}

impl EventChannels {
    pub open spec fn wf(&self) -> bool {
        &&& self.actions@.len() == NUM_EVENT_PORTS
        &&& self.pending@.len() == BITMAP_WORDS
        &&& self.mask@.len() == BITMAP_WORDS
    }

    pub open spec fn is_pending(&self, port: u32) -> bool {
        bit_set(self.pending@[(port / 64) as int], (port % 64) as u64)
    }

    pub open spec fn is_masked(&self, port: u32) -> bool {
        bit_set(self.mask@[(port / 64) as int], (port % 64) as u64)
    }

    /// A port that the next dispatch hands to its handler.
    pub open spec fn eligible(&self, port: u32) -> bool {
        &&& port < NUM_EVENT_PORTS
        &&& bit_set(self.selector, (port / 64) as u64)
        &&& self.is_pending(port)
        &&& !self.is_masked(port)
    }

    /// Every port bound to the default handler, nothing pending, all masked.
    pub fn new() -> (r: Self)
        ensures
            r.wf(),
            r.selector == 0,
            forall|p: u32| p < NUM_EVENT_PORTS ==> #[trigger] r.actions@[p as int] == (EventAction {
                handler: Handler::Default,
                data: 0,
                count: 0,
            }) && !r.is_pending(p) && r.is_masked(p),
    {
        let mut actions: Vec<EventAction> = Vec::new();
        let mut i: u32 = 0;
        while i < NUM_EVENT_PORTS
            invariant
                i <= NUM_EVENT_PORTS,
                actions@.len() == i,
                forall|j: int| 0 <= j < i ==> #[trigger] actions@[j] == (EventAction {
                    handler: Handler::Default,
                    data: 0,
                    count: 0,
                }),
            decreases NUM_EVENT_PORTS - i,
        {
            actions.push(EventAction { handler: Handler::Default, data: 0, count: 0 });
            i = i + 1;
        }
        let mut pending: Vec<u64> = Vec::new();
        let mut mask: Vec<u64> = Vec::new();
        let mut w: usize = 0;
        while w < BITMAP_WORDS
            invariant
                w <= BITMAP_WORDS,
                pending@.len() == w,
                mask@.len() == w,
                forall|j: int| 0 <= j < w ==> #[trigger] pending@[j] == 0 && mask@[j] == 0xffff_ffff_ffff_ffff,
            decreases BITMAP_WORDS - w,
        {
            pending.push(0);
            mask.push(0xffff_ffff_ffff_ffff);
            w = w + 1;
        }
        assert forall|b: u64| b < 64 implies !bit_set(0, b) && bit_set(0xffff_ffff_ffff_ffff, b) by {
            assert(b < 64 ==> (0u64 >> b) & 1 != 1 && (0xffff_ffff_ffff_ffffu64 >> b) & 1 == 1) by (bit_vector);
        }
        EventChannels { actions, pending, mask, selector: 0 }
    }

    fn set_bit(words: &mut Vec<u64>, port: u32)
        requires
            old(words)@.len() == BITMAP_WORDS,
            port < NUM_EVENT_PORTS,
        ensures
            final(words)@ == old(words)@.update(
                (port / 64) as int,
                old(words)@[(port / 64) as int] | (1u64 << (port % 64) as u64),
            ),
    {
        let w = (port / 64) as usize;
        let b = (port % 64) as u64;
        let v = words[w] | (1u64 << b);
        words.set(w, v);
    }

    fn clear_bit(words: &mut Vec<u64>, port: u32)
        requires
            old(words)@.len() == BITMAP_WORDS,
            port < NUM_EVENT_PORTS,
        ensures
            final(words)@ == old(words)@.update(
                (port / 64) as int,
                old(words)@[(port / 64) as int] & !(1u64 << (port % 64) as u64),
            ),
    {
        let w = (port / 64) as usize;
        let b = (port % 64) as u64;
        let v = words[w] & !(1u64 << b);
        words.set(w, v);
    }

    /// Masks `port`: events on it stay pending and are not dispatched.
    pub fn mask_event_channel(&mut self, port: u32)
        requires
            old(self).wf(),
            port < NUM_EVENT_PORTS,
        ensures
            final(self).wf(),
            final(self).is_masked(port),
            forall|p: u32| p < NUM_EVENT_PORTS && p != port ==> #[trigger] final(self).is_masked(p) == old(self).is_masked(p),
            final(self).pending == old(self).pending,
            final(self).actions == old(self).actions,
            final(self).selector == old(self).selector,
    {
        Self::set_bit(&mut self.mask, port);
        proof {
            lemma_set_bit(old(self).mask@[(port / 64) as int], (port % 64) as u64);
        }
    }

    /// Unmasks `port`.
    pub fn unmask_event_channel(&mut self, port: u32)
        requires
            old(self).wf(),
            port < NUM_EVENT_PORTS,
        ensures
            final(self).wf(),
            !final(self).is_masked(port),
            forall|p: u32| p < NUM_EVENT_PORTS && p != port ==> #[trigger] final(self).is_masked(p) == old(self).is_masked(p),
            final(self).pending == old(self).pending,
            final(self).actions == old(self).actions,
            final(self).selector == old(self).selector,
    {
        Self::clear_bit(&mut self.mask, port);
        proof {
            lemma_clear_bit(old(self).mask@[(port / 64) as int], (port % 64) as u64);
        }
    }

    /// Clears the pending bit of `port`.
    pub fn clear_event_channel(&mut self, port: u32)
        requires
            old(self).wf(),
            port < NUM_EVENT_PORTS,
        ensures
            final(self).wf(),
            !final(self).is_pending(port),
            forall|p: u32| p < NUM_EVENT_PORTS && p != port ==> #[trigger] final(self).is_pending(p) == old(self).is_pending(p),
            final(self).pending@ == old(self).pending@.update(
                (port / 64) as int,
                old(self).pending@[(port / 64) as int] & !(1u64 << (port % 64) as u64),
            ),
            final(self).mask == old(self).mask,
            final(self).actions == old(self).actions,
            final(self).selector == old(self).selector,
    {
        Self::clear_bit(&mut self.pending, port);
        proof {
            lemma_clear_bit(old(self).pending@[(port / 64) as int], (port % 64) as u64);
        }
    }

    /// Marks an event on `port` as the hypervisor does: the pending bit, then
    /// the selector bit of its word.
    pub fn raise(&mut self, port: u32)
        requires
            old(self).wf(),
            port < NUM_EVENT_PORTS,
        ensures
            final(self).wf(),
            final(self).is_pending(port),
            bit_set(final(self).selector, (port / 64) as u64),
            forall|p: u32| p < NUM_EVENT_PORTS && p != port ==> #[trigger] final(self).is_pending(p) == old(self).is_pending(p),
            forall|w: u64| w < 64 && w != (port / 64) as u64 ==> #[trigger] bit_set(final(self).selector, w) == bit_set(old(self).selector, w),
            final(self).mask == old(self).mask,
            final(self).actions == old(self).actions,
    {
        Self::set_bit(&mut self.pending, port);
        self.selector = self.selector | (1u64 << (port / 64) as u64);
        proof {
            lemma_set_bit(old(self).pending@[(port / 64) as int], (port % 64) as u64);
            lemma_set_bit(old(self).selector, (port / 64) as u64);
        }
    }

    /// Binds `handler` and `data` to `port`, resets its count and unmasks it.
    /// Returns whether a handler other than the default was replaced.
    pub fn bind_event_channel(&mut self, port: u32, handler: Handler, data: usize) -> (replaced: bool)
        requires
            old(self).wf(),
            port < NUM_EVENT_PORTS,
        ensures
            final(self).wf(),
            replaced == (old(self).actions@[port as int].handler != Handler::Default),
            final(self).actions@ == old(self).actions@.update(
                port as int,
                EventAction { handler, data, count: 0 },
            ),
            !final(self).is_masked(port),
            forall|p: u32| p < NUM_EVENT_PORTS && p != port ==> #[trigger] final(self).is_masked(p) == old(self).is_masked(p),
            final(self).pending == old(self).pending,
            final(self).selector == old(self).selector,
    {
        let replaced = self.actions[port as usize].handler != Handler::Default;
        self.actions.set(port as usize, EventAction { handler, data, count: 0 });
        self.unmask_event_channel(port);
        replaced
    }

    /// Counts an event on `port` and returns the action bound to it.
    pub fn do_event(&mut self, port: u32) -> (r: EventAction)
        requires
            old(self).wf(),
            port < NUM_EVENT_PORTS,
        ensures
            final(self).wf(),
            r == old(self).actions@[port as int],
            final(self).actions@ == old(self).actions@.update(
                port as int,
                EventAction {
                    count: vstd::wrapping::u32_specs::wrapping_add(r.count, 1),
                    ..r
                },
            ),
            final(self).pending == old(self).pending,
            final(self).mask == old(self).mask,
            final(self).selector == old(self).selector,
    {
        let a = self.actions[port as usize];
        self.actions.set(port as usize, EventAction { count: a.count.wrapping_add(1), ..a });
        a
    }

    /// The result of one delivery on `port`: its count goes up by one.
    pub open spec fn counted(a: EventAction) -> EventAction {
        EventAction { count: vstd::wrapping::u32_specs::wrapping_add(a.count, 1), ..a }
    }

    /// Delivers the pending events: takes the selector, and for each word it
    /// names, each unmasked pending port from the lowest up is counted, handed
    /// to `h`, and only then has its pending bit cleared. Returns the ports
    /// delivered, in increasing order; each exactly once.
    pub fn dispatch<H: EventHandler>(&mut self, h: &mut H) -> (handled: Vec<u32>)
        requires
            old(self).wf(),
        ensures
            final(self).wf(),
            forall|i: int, j: int| 0 <= i < j < handled@.len() ==> handled@[i] < handled@[j],
            forall|p: u32| #[trigger] handled@.contains(p) <==> old(self).eligible(p),
            forall|p: u32| p < NUM_EVENT_PORTS ==> #[trigger] final(self).is_pending(p) == (
            old(self).is_pending(p) && !old(self).eligible(p)),
            forall|p: u32| p < NUM_EVENT_PORTS ==> #[trigger] final(self).actions@[p as int] == (
            if old(self).eligible(p) {
                Self::counted(old(self).actions@[p as int])
            } else {
                old(self).actions@[p as int]
            }),
            final(self).mask == old(self).mask,
            final(self).selector == 0,
    {
        let ghost start = *self;
        let sel = self.selector;
        self.selector = 0;
        let mut handled: Vec<u32> = Vec::new();
        let mut w: u32 = 0;
        while w < BITMAP_WORDS as u32
            invariant
                self.wf(),
                start.wf(),
                start.selector == sel,
                self.selector == 0,
                self.mask == start.mask,
                w <= BITMAP_WORDS,
                forall|j: int| w <= j < BITMAP_WORDS ==> #[trigger] self.pending@[j] == start.pending@[j],
                forall|i: int, j: int| 0 <= i < j < handled@.len() ==> handled@[i] < handled@[j],
                forall|i: int| 0 <= i < handled@.len() ==> #[trigger] handled@[i] < w * 64 && start.eligible(handled@[i]),
                forall|p: u32| start.eligible(p) && p < w * 64 ==> #[trigger] handled@.contains(p),
                forall|p: u32| p < NUM_EVENT_PORTS ==> #[trigger] self.is_pending(p) == (start.is_pending(p) && !(
                start.eligible(p) && p < w * 64)),
                forall|p: u32| p < NUM_EVENT_PORTS ==> #[trigger] self.actions@[p as int] == (if start.eligible(p) && p
                    < w * 64 {
                    Self::counted(start.actions@[p as int])
                } else {
                    start.actions@[p as int]
                }),
            decreases BITMAP_WORDS - w,
        {
            if (sel >> w as u64) & 1 == 1 {
                let word = self.pending[w as usize] & !self.mask[w as usize];
                let mut b: u32 = 0;
                while b < PORTS_PER_WORD
                    invariant
                        self.wf(),
                        start.wf(),
                        start.selector == sel,
                        bit_set(sel, w as u64),
                        self.selector == 0,
                        self.mask == start.mask,
                        w < BITMAP_WORDS,
                        b <= 64,
                        word == start.pending@[w as int] & !start.mask@[w as int],
                        forall|j: int| w < j < BITMAP_WORDS ==> #[trigger] self.pending@[j] == start.pending@[j],
                        forall|i: int, j: int| 0 <= i < j < handled@.len() ==> handled@[i] < handled@[j],
                        forall|i: int| 0 <= i < handled@.len() ==> #[trigger] handled@[i] < w * 64 + b && start.eligible(handled@[i]),
                        forall|p: u32| start.eligible(p) && p < w * 64 + b ==> #[trigger] handled@.contains(p),
                        forall|p: u32| p < NUM_EVENT_PORTS ==> #[trigger] self.is_pending(p) == (start.is_pending(p) && !(
                        start.eligible(p) && p < w * 64 + b)),
                        forall|p: u32| p < NUM_EVENT_PORTS ==> #[trigger] self.actions@[p as int] == (if start.eligible(p)
                            && p < w * 64 + b {
                            Self::counted(start.actions@[p as int])
                        } else {
                            start.actions@[p as int]
                        }),
                    decreases 64 - b,
                {
                    let port = w * 64 + b;
                    assert(port / 64 == w && port % 64 == b);
                    proof {
                        lemma_and_not(start.pending@[w as int], start.mask@[w as int], b as u64);
                    }
                    if (word >> b as u64) & 1 == 1 {
                        assert(start.eligible(port));
                        let ghost before = handled@;
                        let ghost pre = *self;
                        let action = self.do_event(port);
                        h.handle(port, action.handler, action.data);
                        self.clear_event_channel(port);
                        handled.push(port);
                        proof {
                            assert forall|p: u32| start.eligible(p) && p < w * 64 + b + 1 implies #[trigger] handled@.contains(p) by {
                                if p == port {
                                    assert(handled@[before.len() as int] == p);
                                } else {
                                    assert(before.contains(p));
                                    let k = choose|k: int| 0 <= k < before.len() && before[k] == p;
                                    assert(handled@[k] == p);
                                }
                            }
                        }
                        assert forall|p: u32| p < NUM_EVENT_PORTS implies #[trigger] self.is_pending(p) == (
                        start.is_pending(p) && !(start.eligible(p) && p < w * 64 + b + 1)) by {
                            if p == port {
                                assert(!self.is_pending(p));
                            } else {
                                assert(pre.is_pending(p) == (start.is_pending(p) && !(start.eligible(p) && p
                                    < w * 64 + b)));
                            }
                        }
                    } else {
                        assert(!start.eligible(port));
                    }
                    b = b + 1;
                }
            } else {
                assert forall|p: u32| w * 64 <= p < w * 64 + 64 implies !start.eligible(p) by {
                    assert(p / 64 == w);
                }
            }
            w = w + 1;
        }
        proof {
            assert forall|p: u32| #[trigger] handled@.contains(p) <==> start.eligible(p) by {
                if handled@.contains(p) {
                    let k = choose|k: int| 0 <= k < handled@.len() && handled@[k] == p;
                    assert(start.eligible(handled@[k]));
                }
            }
        }
        handled
    }
}

} // verus!
