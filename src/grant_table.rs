//! The grant table: entries that let a named foreign domain map or take over
//! one of this domain's frames, and the free list of their references.
use vstd::prelude::*;

use crate::full_fence;
use crate::memory::MachineFrameNumber;

verus! {

/// Flag: the domain named in the entry may map the frame.
pub const GTF_PERMIT_ACCESS: u16 = 1;

/// Flag: the domain named in the entry may take the frame over once.
pub const GTF_ACCEPT_TRANSFER: u16 = 2;

/// Flag: a mapping of the frame is read-only.
pub const GTF_READONLY: u16 = 4;

/// Frames that hold the table.
pub const NUM_GRANT_FRAMES: usize = 4;

/// Entries in the table: four frames of eight-byte entries.
pub const NUM_GRANT_ENTRIES: u32 = 2048;

/// References below this one are kept for the tools and never handed out;
/// reference 0 also serves as the head of the free list.
pub const NUM_RESERVED_ENTRIES: u32 = 8;

/// One entry of the shared table. `flags` is written last: zero means free.
#[derive(Debug, Clone, Copy, PartialEq, Eq, Structural)]
pub struct GrantEntry {
    pub flags: u16,
    pub domid: u16,
    pub frame: u32,
}

/// Errors of the grant table.
#[derive(Debug, Clone, Copy, PartialEq, Eq, Structural)]
pub enum GrantError {
    /// No free reference is left.
    Exhausted,
    /// The reference is reserved or lies outside the table.
    InvalidReference,
    /// The reference is not granted at present.
    NotGranted,
}

/// A reference that the table may hand out.
pub open spec fn valid_ref(r: u32) -> bool {
    NUM_RESERVED_ENTRIES <= r < NUM_GRANT_ENTRIES
}

/// What the free-list slot of the `i`-th free reference holds: the next
/// free reference, or 0 after the last one.
pub open spec fn next_link(free: Seq<u32>, i: int) -> u32 {
    if i + 1 < free.len() {
        free[i + 1]
    } else {
        0
    }
}

/// The grant table and its intrusive free list: `list[0]` is the first free
/// reference and `list[r]` the one after `r`, with 0 ending the list.
pub struct GrantTable {
    pub list: Vec<u32>,
    pub table: Vec<GrantEntry>,
    /// The free references, in the order in which they will be handed out.
    pub free: Ghost<Seq<u32>>,
}

impl GrantTable {
    /// The free list in `list` spells out `free`.
    pub open spec fn links_ok(&self) -> bool {
        &&& self.list@.len() == NUM_GRANT_ENTRIES
        &&& self.free@.no_duplicates()
        &&& forall|i: int| 0 <= i < self.free@.len() ==> valid_ref(#[trigger] self.free@[i])
        &&& self.list@[0] == (if self.free@.len() > 0 { self.free@[0] } else { 0 })
        &&& forall|i: int|
            0 <= i < self.free@.len() ==> self.list@[#[trigger] self.free@[i] as int]
                == next_link(self.free@, i)
    }

    pub open spec fn wf(&self) -> bool {
        &&& self.links_ok()
        &&& self.table@.len() == NUM_GRANT_ENTRIES
        &&& forall|r: u32|
            #![trigger self.free@.contains(r)]
            #![trigger self.table@[r as int]]
            valid_ref(r) ==> (self.free@.contains(r) <==> self.table@[r as int].flags == 0)
    }

    /// `r` is handed out at present.
    pub open spec fn granted(&self, r: u32) -> bool {
        valid_ref(r) && !self.free@.contains(r)
    }

    /// What a grant of `frame` to `domid` with `flags` does.
    pub open spec fn grant_post(
        &self,
        domid: u16,
        frame: u32,
        flags: u16,
        r: Result<u32, GrantError>,
        next: &GrantTable,
    ) -> bool {
        match r {
            Err(e) => e == GrantError::Exhausted && self.free@.len() == 0 && *next == *self,
            Ok(g) => {
                &&& self.free@.len() > 0
                &&& g == self.free@[0]
                &&& next.free@ == self.free@.drop_first()
                &&& next.table@ == self.table@.update(
                    g as int,
                    GrantEntry { flags, domid, frame },
                )
            },
        }
    }

    /// What ending the grant of `reference` does.
    pub open spec fn end_post(&self, reference: u32, r: Result<(), GrantError>, next: &GrantTable) -> bool {
        match r {
            Err(e) => {
                &&& *next == *self
                &&& e == GrantError::InvalidReference <==> !valid_ref(reference)
                &&& e == GrantError::NotGranted <==> (valid_ref(reference) && !self.granted(reference))
            },
            Ok(_) => {
                &&& self.granted(reference)
                &&& next.free@ == seq![reference] + self.free@
                &&& next.table@ == self.table@.update(
                    reference as int,
                    GrantEntry { flags: 0, ..self.table@[reference as int] },
                )
            },
        }
    }

    /// A table whose references from `NUM_RESERVED_ENTRIES` up are all free,
    /// the highest to be handed out first.
    pub fn new() -> (t: Self)
        ensures
            t.wf(),
            t.free@ == Seq::new(
                (NUM_GRANT_ENTRIES - NUM_RESERVED_ENTRIES) as nat,
                |k: int| (NUM_GRANT_ENTRIES - 1 - k) as u32,
            ),
            forall|r: int| 0 <= r < NUM_GRANT_ENTRIES ==> #[trigger] t.table@[r] == (GrantEntry {
                flags: 0,
                domid: 0,
                frame: 0,
            }),
    {
        let ghost free = Seq::new(
            (NUM_GRANT_ENTRIES - NUM_RESERVED_ENTRIES) as nat,
            |k: int| (NUM_GRANT_ENTRIES - 1 - k) as u32,
        );
        let mut list: Vec<u32> = Vec::new();
        let mut table: Vec<GrantEntry> = Vec::new();
        let mut i: u32 = 0;
        while i < NUM_GRANT_ENTRIES
            invariant
                i <= NUM_GRANT_ENTRIES,
                list@.len() == i,
                table@.len() == i,
                forall|j: int| 0 <= j < i ==> #[trigger] list@[j] == (if j == 0 {
                    NUM_GRANT_ENTRIES - 1
                } else if j <= NUM_RESERVED_ENTRIES {
                    0
                } else {
                    j - 1
                }),
                forall|j: int| 0 <= j < i ==> #[trigger] table@[j] == (GrantEntry {
                    flags: 0,
                    domid: 0,
                    frame: 0,
                }),
            decreases NUM_GRANT_ENTRIES - i,
        {
            let link = if i == 0 {
                NUM_GRANT_ENTRIES - 1
            } else if i <= NUM_RESERVED_ENTRIES {
                0
            } else {
                i - 1
            };
            list.push(link);
            table.push(GrantEntry { flags: 0, domid: 0, frame: 0 });
            i = i + 1;
        }
        let t = GrantTable { list, table, free: Ghost(free) };
        proof {
            assert forall|a: int, b: int| 0 <= a < free.len() && 0 <= b < free.len() && a != b
                implies free[a] != free[b] by {}
            assert forall|r: u32| valid_ref(r) implies #[trigger] free.contains(r) by {
                let k = NUM_GRANT_ENTRIES - 1 - r;
                assert(free[k] == r);
            }
        }
        t
    }

    /// Takes the first free reference off the list; 0 when none is left.
    fn get_free_entry(&mut self) -> (r: u32)
        requires
            old(self).links_ok(),
        ensures
            final(self).links_ok(),
            final(self).table == old(self).table,
            r == 0 <==> old(self).free@.len() == 0,
            r == 0 ==> *final(self) == *old(self),
            r != 0 ==> r == old(self).free@[0] && final(self).free@ == old(self).free@.drop_first(),
    {
        let reference = self.list[0];
        if reference == 0 {
            return 0;
        }
        let next = self.list[reference as usize];
        self.list.set(0, next);
        proof {
            let free = self.free@;
            assert(self.list@[free[0] as int] == next_link(free, 0));
            self.free = Ghost(free.drop_first());
            assert forall|i: int| 0 <= i < self.free@.len() implies self.list@[
                #[trigger] self.free@[i] as int] == next_link(self.free@, i) by {
                assert(self.free@[i] == free[i + 1]);
                assert(valid_ref(free[i + 1]));
            }
        }
        reference
    }

    /// Puts `reference` at the head of the free list.
    fn put_free_entry(&mut self, reference: u32)
        requires
            old(self).links_ok(),
            valid_ref(reference),
            !old(self).free@.contains(reference),
        ensures
            final(self).links_ok(),
            final(self).table == old(self).table,
            final(self).free@ == seq![reference] + old(self).free@,
    {
        let head = self.list[0];
        self.list.set(reference as usize, head);
        self.list.set(0, reference);
        proof {
            let free = self.free@;
            let nf = seq![reference] + free;
            self.free = Ghost(nf);
            assert forall|i: int| 0 <= i < nf.len() implies self.list@[#[trigger] nf[i] as int]
                == next_link(nf, i) by {
                if i > 0 {
                    assert(nf[i] == free[i - 1]);
                    assert(valid_ref(free[i - 1]));
                    assert(free[i - 1] != reference);
                }
            }
            assert forall|a: int, b: int| 0 <= a < nf.len() && 0 <= b < nf.len() && a != b
                implies nf[a] != nf[b] by {
                if a > 0 && b > 0 {
                    assert(nf[a] == free[a - 1] && nf[b] == free[b - 1]);
                } else if a == 0 {
                    assert(nf[b] == free[b - 1]);
                } else {
                    assert(nf[a] == free[a - 1]);
                }
            }
        }
    }

    fn grant(&mut self, domain: u16, frame: u32, flags: u16) -> (r: Result<u32, GrantError>)
        requires
            old(self).wf(),
            flags != 0,
        ensures
            final(self).wf(),
            old(self).grant_post(domain, frame, flags, r, final(self)),
    {
        let reference = self.get_free_entry();
        if reference == 0 {
            return Err(GrantError::Exhausted);
        }
        let ghost old_free = old(self).free@;
        let entry = self.table[reference as usize];
        self.table.set(reference as usize, GrantEntry { frame, domid: domain, ..entry });
        full_fence();
        self.table.set(reference as usize, GrantEntry { flags, domid: domain, frame });
        proof {
            assert(self.table@ =~= old(self).table@.update(
                reference as int,
                GrantEntry { flags, domid: domain, frame },
            ));
            assert forall|r: u32| valid_ref(r) implies (#[trigger] self.free@.contains(r)
                <==> self.table@[r as int].flags == 0) by {
                if r == reference {
                    assert(!self.free@.contains(r)) by {
                        if self.free@.contains(r) {
                            let k = choose|k: int| 0 <= k < self.free@.len() && self.free@[k] == r;
                            assert(old_free[k + 1] == old_free[0]);
                        }
                    }
                } else {
                    assert(self.free@.contains(r) <==> old_free.contains(r)) by {
                        if old_free.contains(r) {
                            let k = choose|k: int| 0 <= k < old_free.len() && old_free[k] == r;
                            assert(self.free@[k - 1] == r);
                        }
                    }
                }
            }
        }
        Ok(reference)
    }

    /// Lets `domain` map `frame`, read-only if asked. Writes frame and domain,
    /// then, behind a barrier, the flags. Fails when no reference is free.
    pub fn grant_access(&mut self, domain: u16, frame: MachineFrameNumber, readonly: bool) -> (r:
        Result<u32, GrantError>)
        requires
            old(self).wf(),
            frame.0 <= u32::MAX,
        ensures
            final(self).wf(),
            old(self).grant_post(
                domain,
                frame.0 as u32,
                if readonly {
                    GTF_PERMIT_ACCESS | GTF_READONLY
                } else {
                    GTF_PERMIT_ACCESS
                },
                r,
                final(self),
            ),
    {
        let flags = if readonly {
            GTF_PERMIT_ACCESS | GTF_READONLY
        } else {
            GTF_PERMIT_ACCESS
        };
        assert(GTF_PERMIT_ACCESS | GTF_READONLY == 5u16) by (bit_vector);
        self.grant(domain, frame.0 as u32, flags)
    }

    /// Lets `domain` take `frame` over once. Fails when no reference is free.
    pub fn grant_transfer(&mut self, domain: u16, frame: MachineFrameNumber) -> (r: Result<
        u32,
        GrantError,
    >)
        requires
            old(self).wf(),
            frame.0 <= u32::MAX,
        ensures
            final(self).wf(),
            old(self).grant_post(domain, frame.0 as u32, GTF_ACCEPT_TRANSFER, r, final(self)),
    {
        self.grant(domain, frame.0 as u32, GTF_ACCEPT_TRANSFER)
    }

    /// Ends the grant of `reference`: clears its flags, then puts it back at
    /// the head of the free list. The caller must know that the foreign
    /// domain no longer uses the frame.
    pub fn grant_end(&mut self, reference: u32) -> (r: Result<(), GrantError>)
        requires
            old(self).wf(),
        ensures
            final(self).wf(),
            old(self).end_post(reference, r, final(self)),
            r is Ok <==> old(self).granted(reference),
    {
        if reference < NUM_RESERVED_ENTRIES || reference >= NUM_GRANT_ENTRIES {
            return Err(GrantError::InvalidReference);
        }
        let entry = self.table[reference as usize];
        if entry.flags == 0 {
            return Err(GrantError::NotGranted);
        }
        let ghost old_free = self.free@;
        self.table.set(reference as usize, GrantEntry { flags: 0, ..entry });
        self.put_free_entry(reference);
        proof {
            assert forall|r: u32| valid_ref(r) implies (#[trigger] self.free@.contains(r)
                <==> self.table@[r as int].flags == 0) by {
                if r == reference {
                    assert(self.free@[0] == r);
                } else {
                    assert(self.free@.contains(r) <==> old_free.contains(r)) by {
                        if old_free.contains(r) {
                            let k = choose|k: int| 0 <= k < old_free.len() && old_free[k] == r;
                            assert(self.free@[k + 1] == r);
                        }
                        if self.free@.contains(r) {
                            let k = choose|k: int| 0 <= k < self.free@.len() && self.free@[k] == r;
                            assert(old_free[k - 1] == r);
                        }
                    }
                }
            }
        }
        Ok(())
    }
}

/// A reference whose grant has just been ended is the next one handed out.
pub proof fn lemma_end_then_grant_reuses(
    t0: GrantTable,
    t1: GrantTable,
    t2: GrantTable,
    reference: u32,
    domain: u16,
    frame: u32,
    flags: u16,
    r: Result<u32, GrantError>,
)
    requires
        t0.wf(),
        t0.end_post(reference, Ok(()), &t1),
        t1.grant_post(domain, frame, flags, r, &t2),
    ensures
        r == Ok::<u32, GrantError>(reference),
{
}

/// A grant hands out a reference that was not granted and keeps every
/// reference that was: no reference is granted twice at once.
pub proof fn lemma_grant_is_fresh(
    t0: GrantTable,
    t1: GrantTable,
    domain: u16,
    frame: u32,
    flags: u16,
    g: u32,
)
    requires
        t0.wf(),
        t0.grant_post(domain, frame, flags, Ok(g), &t1),
    ensures
        !t0.granted(g),
        t1.granted(g),
        forall|x: u32| t0.granted(x) ==> #[trigger] t1.granted(x),
{
    assert(t0.free@.contains(g));
    assert forall|x: u32| t0.granted(x) implies #[trigger] t1.granted(x) by {
        if t1.free@.contains(x) {
            let k = choose|k: int| 0 <= k < t1.free@.len() && t1.free@[k] == x;
            assert(t0.free@[k + 1] == x);
        }
    }
    assert(!t1.free@.contains(g)) by {
        if t1.free@.contains(g) {
            let k = choose|k: int| 0 <= k < t1.free@.len() && t1.free@[k] == g;
            assert(t0.free@[k + 1] == t0.free@[0]);
        }
    }
}

} // verus!
