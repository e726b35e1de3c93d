//! The key-value operations of the configuration store over the channel:
//! requests built from keys and values, answers parsed from payloads.
use vstd::prelude::*;

use crate::xenbus::{
    carries_answer, concat, has_answer, header_bytes, stuck, MessageHeader, MessageKind, Response, XenBus,
    XenbusError, HEADER_SIZE, MAX_PAYLOAD, XENSTORE_RING_SIZE,
};
use vstd::utf8::{decode_utf8, valid_utf8};

verus! {

/// Index of the first NUL byte of `p`, or its length when there is none.
pub open spec fn first_nul(p: Seq<u8>) -> nat
    decreases p.len(),
{
    if p.len() == 0 {
        0
    } else if p[0] == 0 {
        0
    } else {
        1 + first_nul(p.skip(1))
    }
}

/// The non-empty NUL-separated entries of a directory listing, in order.
pub open spec fn entries(p: Seq<u8>) -> Seq<Seq<u8>>
    decreases p.len(),
{
    if p.len() == 0 {
        seq![]
    } else {
        let n = first_nul(p);
        let rest = if n < p.len() {
            entries(p.skip(n + 1 as int))
        } else {
            seq![]
        };
        if n == 0 {
            rest
        } else {
            seq![p.take(n as int)] + rest
        }
    }
}

proof fn lemma_first_nul_of_run(cur: Seq<u8>, rest: Seq<u8>)
    requires
        forall|i: int| 0 <= i < cur.len() ==> cur[i] != 0,
    ensures
        first_nul(cur + seq![0u8] + rest) == cur.len(),
        first_nul(cur) == cur.len(),
    decreases cur.len(),
{
    if cur.len() > 0 {
        lemma_first_nul_of_run(cur.skip(1), rest);
        assert((cur + seq![0u8] + rest).skip(1) =~= cur.skip(1) + seq![0u8] + rest);
        assert(cur.skip(1) + seq![0u8] + rest == (cur + seq![0u8] + rest).skip(1));
    } else {
        assert((cur + seq![0u8] + rest)[0] == 0);
    }
}

/// The entries of a directory listing: the runs of bytes between NULs,
/// empty runs left out.
pub fn split_entries(p: &[u8]) -> (r: Vec<Vec<u8>>)
    ensures
        r@.len() == entries(p@).len(),
        forall|i: int| 0 <= i < r@.len() ==> #[trigger] r@[i]@ == entries(p@)[i],
{
    let mut out: Vec<Vec<u8>> = Vec::new();
    let mut cur: Vec<u8> = Vec::new();
    let ghost views: Seq<Seq<u8>> = seq![];
    let mut i: usize = 0;
    assert(cur@ + p@.skip(0) =~= p@);
    assert(views + entries(p@) =~= entries(p@));
    while i < p.len()
        invariant
            i <= p@.len(),
            out@.len() == views.len(),
            forall|k: int| 0 <= k < out@.len() ==> #[trigger] out@[k]@ == views[k],
            forall|k: int| 0 <= k < cur@.len() ==> cur@[k] != 0,
            entries(p@) == views + entries(cur@ + p@.skip(i as int)),
        decreases p@.len() - i,
    {
        let b = p[i];
        if b == 0 {
            proof {
                let rest = p@.skip(i as int + 1);
                assert(cur@ + p@.skip(i as int) =~= cur@ + seq![0u8] + rest);
                lemma_first_nul_of_run(cur@, rest);
                let whole = cur@ + seq![0u8] + rest;
                assert(whole.skip(cur@.len() + 1 as int) =~= rest);
                if cur@.len() > 0 {
                    assert(whole.take(cur@.len() as int) =~= cur@);
                }
            }
            if cur.len() > 0 {
                proof {
                    views = views.push(cur@);
                }
                out.push(cur);
                cur = Vec::new();
                proof {
                    assert(cur@ + p@.skip(i as int + 1) =~= p@.skip(i as int + 1));
                }
            } else {
                proof {
                    assert(cur@ + p@.skip(i as int + 1) =~= p@.skip(i as int + 1));
                }
            }
        } else {
            let ghost before = cur@;
            cur.push(b);
            proof {
                assert(cur@ + p@.skip(i as int + 1) =~= before + p@.skip(i as int));
            }
        }
        i = i + 1;
    }
    proof {
        assert(cur@ + p@.skip(i as int) =~= cur@);
        lemma_first_nul_of_run(cur@, seq![]);
        if cur@.len() > 0 {
            assert(cur@.take(cur@.len() as int) =~= cur@);
        }
    }
    if cur.len() > 0 {
        proof {
            views = views.push(cur@);
        }
        out.push(cur);
    }
    proof {
        assert forall|k: int| 0 <= k < out@.len() implies #[trigger] out@[k]@ == entries(p@)[k] by {}
    }
    out
}

/// The entries that are valid UTF-8, decoded; the others are left out.
pub open spec fn listed(es: Seq<Seq<u8>>) -> Seq<Seq<char>>
    decreases es.len(),
{
    if es.len() == 0 {
        seq![]
    } else if valid_utf8(es.last()) {
        listed(es.drop_last()).push(decode_utf8(es.last()))
    } else {
        listed(es.drop_last())
    }
}

/// Relies on String::from_utf8: it succeeds exactly on valid UTF-8 and then
/// holds the characters that the bytes encode.
#[verifier::external_body]
fn string_from_utf8(bytes: &[u8]) -> (r: Option<String>)
    ensures
        r is Some <==> valid_utf8(bytes@),
        r matches Some(s) ==> s@ == decode_utf8(bytes@),
{
    String::from_utf8(bytes.to_vec()).ok()
}

/// The value of a read answer as text; `None` when it is not valid UTF-8.
pub fn read_value(payload: &[u8]) -> (r: Option<String>)
    ensures
        r is Some <==> valid_utf8(payload@),
        r matches Some(s) ==> s@ == decode_utf8(payload@),
{
    string_from_utf8(payload)
}

/// The names in a directory answer: its non-empty NUL-separated entries,
/// those that are not valid UTF-8 left out.
pub fn ls_entries(payload: &[u8]) -> (r: Vec<String>)
    ensures
        r@.len() == listed(entries(payload@)).len(),
        forall|i: int| 0 <= i < r@.len() ==> #[trigger] r@[i]@ == listed(entries(payload@))[i],
{
    let es = split_entries(payload);
    let ghost ev = entries(payload@);
    let mut out: Vec<String> = Vec::new();
    let mut k: usize = 0;
    while k < es.len()
        invariant
            k <= es@.len(),
            es@.len() == ev.len(),
            forall|j: int| 0 <= j < es@.len() ==> #[trigger] es@[j]@ == ev[j],
            out@.len() == listed(ev.take(k as int)).len(),
            forall|j: int| 0 <= j < out@.len() ==> #[trigger] out@[j]@ == listed(ev.take(k as int))[j],
        decreases es@.len() - k,
    {
        let conv = string_from_utf8(es[k].as_slice());
        proof {
            assert(ev.take(k as int + 1).drop_last() =~= ev.take(k as int));
            assert(ev.take(k as int + 1).last() == ev[k as int]);
        }
        match conv {
            Some(name) => {
                out.push(name);
            },
            None => {},
        }
        k = k + 1;
    }
    assert(ev.take(k as int) =~= ev);
    out
}

/// An ASCII white-space byte.
pub open spec fn is_space(b: u8) -> bool {
    b == 32 || (9 <= b <= 13)
}

/// `s` without its leading white space.
pub open spec fn trim_start(s: Seq<u8>) -> Seq<u8>
    decreases s.len(),
{
    if s.len() > 0 && is_space(s[0]) {
        trim_start(s.skip(1))
    } else {
        s
    }
}

/// `s` without its trailing white space.
pub open spec fn trim_end(s: Seq<u8>) -> Seq<u8>
    decreases s.len(),
{
    if s.len() > 0 && is_space(s.last()) {
        trim_end(s.drop_last())
    } else {
        s
    }
}

/// An ASCII decimal digit.
pub open spec fn is_digit(b: u8) -> bool {
    48 <= b <= 57
}

/// The number that a string of decimal digits writes.
pub open spec fn decimal(s: Seq<u8>) -> nat
    decreases s.len(),
{
    if s.len() == 0 {
        0
    } else {
        decimal(s.drop_last()) * 10 + (s.last() - 48) as nat
    }
}

/// What `parse_u32` makes of `s`: the value of its digits once white space
/// is trimmed from both ends, when there is at least one digit, nothing but
/// digits, and the value fits in 32 bits.
pub open spec fn parsed_u32(s: Seq<u8>) -> Option<u32> {
    let t = trim_end(trim_start(s));
    if t.len() > 0 && (forall|i: int| 0 <= i < t.len() ==> is_digit(#[trigger] t[i])) && decimal(t)
        <= u32::MAX {
        Some(decimal(t) as u32)
    } else {
        None
    }
}

proof fn lemma_decimal_grows(t: Seq<u8>, k: int)
    requires
        0 <= k <= t.len(),
        forall|i: int| 0 <= i < t.len() ==> is_digit(#[trigger] t[i]),
    ensures
        decimal(t.take(k)) <= decimal(t),
    decreases t.len() - k,
{
    if k < t.len() {
        lemma_decimal_grows(t, k + 1);
        assert(t.take(k + 1).drop_last() =~= t.take(k));
    } else {
        assert(t.take(k) =~= t);
    }
}

/// Parses an unsigned decimal number, white space around it allowed.
pub fn parse_u32(s: &[u8]) -> (r: Option<u32>)
    ensures
        r == parsed_u32(s@),
{
    let n = s.len();
    let mut lo: usize = 0;
    assert(s@.skip(0) =~= s@);
    while lo < n && (s[lo] == 32 || (9 <= s[lo] && s[lo] <= 13))
        invariant
            lo <= n == s@.len(),
            trim_start(s@) == trim_start(s@.skip(lo as int)),
        decreases n - lo,
    {
        assert(s@.skip(lo as int).skip(1) =~= s@.skip(lo as int + 1));
        lo = lo + 1;
    }
    assert(trim_start(s@) == s@.skip(lo as int));
    let mut hi: usize = n;
    while hi > lo && (s[hi - 1] == 32 || (9 <= s[hi - 1] && s[hi - 1] <= 13))
        invariant
            lo <= hi <= n == s@.len(),
            trim_end(s@.skip(lo as int)) == trim_end(s@.subrange(lo as int, hi as int)),
        decreases hi,
    {
        assert(s@.subrange(lo as int, hi as int).drop_last() =~= s@.subrange(lo as int, hi - 1));
        hi = hi - 1;
    }
    assert(s@.skip(lo as int) =~= s@.subrange(lo as int, n as int));
    let ghost t = s@.subrange(lo as int, hi as int);
    assert(trim_end(trim_start(s@)) == t);
    if lo == hi {
        return None;
    }
    let mut v: u64 = 0;
    let mut i: usize = lo;
    while i < hi
        invariant
            lo <= i <= hi <= n == s@.len(),
            t == s@.subrange(lo as int, hi as int),
            trim_end(trim_start(s@)) == t,
            forall|j: int| 0 <= j < i - lo ==> is_digit(#[trigger] t[j]),
            v == decimal(t.take(i - lo)),
            v <= u32::MAX,
        decreases hi - i,
    {
        let b = s[i];
        if b < 48 || b > 57 {
            assert(!is_digit(t[i - lo]));
            assert(!(forall|j: int| 0 <= j < t.len() ==> is_digit(#[trigger] t[j])));
            assert(parsed_u32(s@) is None);
            return None;
        }
        assert(t.take(i - lo + 1).drop_last() =~= t.take(i - lo));
        v = v * 10 + (b - 48) as u64;
        i = i + 1;
        if v > 0xffff_ffff {
            proof {
                assert(v == decimal(t.take(i - lo)));
                if forall|j: int| 0 <= j < t.len() ==> is_digit(#[trigger] t[j]) {
                    lemma_decimal_grows(t, i - lo);
                    assert(decimal(t) > u32::MAX);
                }
                assert(parsed_u32(s@) is None);
            }
            return None;
        }
    }
    assert(t.take(i - lo) =~= t);
    Some(v as u32)
}

/// The decimal digits of `n`, most significant first, without leading zeros.
pub open spec fn digits(n: nat) -> Seq<u8>
    decreases n,
{
    if n < 10 {
        seq![(48 + n) as u8]
    } else {
        digits(n / 10).push((48 + n % 10) as u8)
    }
}

proof fn lemma_digits(n: nat)
    ensures
        digits(n).len() > 0,
        forall|i: int| 0 <= i < digits(n).len() ==> is_digit(#[trigger] digits(n)[i]),
        decimal(digits(n)) == n,
    decreases n,
{
    if n >= 10 {
        lemma_digits(n / 10);
        assert(digits(n).drop_last() =~= digits(n / 10));
        assert(digits(n).last() == (48 + n % 10) as u8);
        assert(decimal(digits(n)) == decimal(digits(n / 10)) * 10 + n % 10);
        vstd::arithmetic::div_mod::lemma_fundamental_div_mod(n as int, 10);
        assert forall|i: int| 0 <= i < digits(n).len() implies is_digit(#[trigger] digits(n)[i]) by {
            if i < digits(n / 10).len() {
                assert(digits(n)[i] == digits(n / 10)[i]);
            }
        }
        assert(decimal(digits(n / 10)) == n / 10);
    } else {
        assert(digits(n).drop_last() =~= Seq::<u8>::empty());
        assert(decimal(Seq::<u8>::empty()) == 0);
        assert(digits(n).last() == (48 + n) as u8);
    }
}

fn push_decimal(out: &mut Vec<u8>, n: u32)
    ensures
        final(out)@ == old(out)@ + digits(n as nat),
    decreases n,
{
    if n >= 10 {
        push_decimal(out, n / 10);
    }
    out.push(48 + (n % 10) as u8);
    proof {
        if n >= 10 {
            assert(final(out)@ =~= old(out)@ + digits(n as nat));
        } else {
            assert(final(out)@ =~= old(out)@ + digits(n as nat));
        }
    }
}

/// The decimal form of `n`, as the store keeps numbers.
pub fn decimal_bytes(n: u32) -> (r: Vec<u8>)
    ensures
        r@ == digits(n as nat),
{
    let mut out: Vec<u8> = Vec::new();
    push_decimal(&mut out, n);
    assert(out@ =~= digits(n as nat));
    out
}

/// A number written in decimal reads back as the same number.
pub proof fn lemma_format_then_parse(n: u32)
    ensures
        parsed_u32(digits(n as nat)) == Some(n),
{
    let d = digits(n as nat);
    lemma_digits(n as nat);
    assert(!is_space(d[0]));
    assert(trim_start(d) == d);
    assert(!is_space(d.last()));
    assert(trim_end(d) == d);
}

/// The domain id in the answer to a read of `domid`.
pub fn domain_id(payload: &[u8]) -> (r: Option<u32>)
    ensures
        r == parsed_u32(payload@),
{
    parse_u32(payload)
}

/// Sends a request that sets `key` to `value`, within transaction `tx_id`
/// (0 for none), under `request_id`. The key carries its terminating NUL.
pub fn write(bus: &mut XenBus, request_id: u32, tx_id: u32, key: &[u8], value: &[u8]) -> (r: Result<(), XenbusError>)
    requires
        old(bus).wf(),
    ensures
        final(bus).wf(),
        r is Err ==> *final(bus) == *old(bus),
        r is Ok <==> key@.len() + value@.len() <= MAX_PAYLOAD && HEADER_SIZE + key@.len() + value@.len()
            <= XENSTORE_RING_SIZE - old(bus).req.contents().len(),
        r is Ok ==> final(bus).req.contents() == old(bus).req.contents() + header_bytes(
            MessageKind::Write.code(),
            request_id,
            tx_id,
            (key@.len() + value@.len()) as u32,
        ) + key@ + value@,
{
    let header = MessageHeader { kind: MessageKind::Write, request_id, transaction_id: tx_id };
    let data: [&[u8]; 2] = [key, value];
    let r = bus.write(header, data.as_slice());
    proof {
        reveal_with_fuel(concat, 3);
        assert(data@ =~= seq![key, value]);
        assert(seq![key, value].drop_last() =~= seq![key]);
        assert(seq![key].drop_last() =~= Seq::<&[u8]>::empty());
    }
    r
}

/// Sends a request of `kind` about `key` alone, within transaction `tx_id`.
fn key_request(bus: &mut XenBus, kind: MessageKind, request_id: u32, tx_id: u32, key: &[u8]) -> (r: Result<(), XenbusError>)
    requires
        old(bus).wf(),
    ensures
        final(bus).wf(),
        r is Err ==> *final(bus) == *old(bus),
        r is Ok <==> key@.len() <= MAX_PAYLOAD && HEADER_SIZE + key@.len() <= XENSTORE_RING_SIZE
            - old(bus).req.contents().len(),
        r is Ok ==> final(bus).req.contents() == old(bus).req.contents() + header_bytes(
            kind.code(),
            request_id,
            tx_id,
            key@.len() as u32,
        ) + key@,
{
    let header = MessageHeader { kind, request_id, transaction_id: tx_id };
    let data: [&[u8]; 1] = [key];
    let r = bus.write(header, data.as_slice());
    proof {
        reveal_with_fuel(concat, 2);
        assert(data@ =~= seq![key]);
        assert(seq![key].drop_last() =~= Seq::<&[u8]>::empty());
    }
    r
}

/// Sends a request for the value of `key`; `read_value` reads the answer.
pub fn read(bus: &mut XenBus, request_id: u32, tx_id: u32, key: &[u8]) -> (r: Result<(), XenbusError>)
    requires
        old(bus).wf(),
    ensures
        final(bus).wf(),
        r is Err ==> *final(bus) == *old(bus),
        r is Ok <==> key@.len() <= MAX_PAYLOAD && HEADER_SIZE + key@.len() <= XENSTORE_RING_SIZE
            - old(bus).req.contents().len(),
        r is Ok ==> final(bus).req.contents() == old(bus).req.contents() + header_bytes(
            MessageKind::Read.code(),
            request_id,
            tx_id,
            key@.len() as u32,
        ) + key@,
{
    key_request(bus, MessageKind::Read, request_id, tx_id, key)
}

/// Sends a request for the entries under `key`; `ls_entries` reads the answer.
pub fn ls(bus: &mut XenBus, request_id: u32, tx_id: u32, key: &[u8]) -> (r: Result<(), XenbusError>)
    requires
        old(bus).wf(),
    ensures
        final(bus).wf(),
        r is Err ==> *final(bus) == *old(bus),
        r is Ok <==> key@.len() <= MAX_PAYLOAD && HEADER_SIZE + key@.len() <= XENSTORE_RING_SIZE
            - old(bus).req.contents().len(),
        r is Ok ==> final(bus).req.contents() == old(bus).req.contents() + header_bytes(
            MessageKind::Directory.code(),
            request_id,
            tx_id,
            key@.len() as u32,
        ) + key@,
{
    key_request(bus, MessageKind::Directory, request_id, tx_id, key)
}

/// The store client: the channel and the id of the next request. Each
/// request takes the next id; its answer is collected under that id.
pub struct XenStore {
    pub bus: XenBus,
    pub req_id: u32,
}

impl XenStore {
    pub open spec fn wf(&self) -> bool {
        self.bus.wf()
    }

    /// A client over an empty channel, starting at request id 0.
    pub fn new() -> (r: Self)
        ensures
            r.wf(),
            r.req_id == 0,
            r.bus.req.contents() == Seq::<u8>::empty(),
            r.bus.rsp.contents() == Seq::<u8>::empty(),
    {
        XenStore { bus: XenBus::new(), req_id: 0 }
    }

    /// Sends a write of `value` to `key`. Returns the request id used; the
    /// counter then moves on. Fails, changing nothing, as `write` does.
    pub fn write(&mut self, tx_id: u32, key: &[u8], value: &[u8]) -> (r: Result<u32, XenbusError>)
        requires
            old(self).wf(),
        ensures
            final(self).wf(),
            r is Err ==> *final(self) == *old(self),
            r is Ok <==> key@.len() + value@.len() <= MAX_PAYLOAD && HEADER_SIZE + key@.len() + value@.len()
                <= XENSTORE_RING_SIZE - old(self).bus.req.contents().len(),
            r matches Ok(id) ==> {
                &&& id == old(self).req_id
                &&& final(self).req_id == vstd::wrapping::u32_specs::wrapping_add(old(self).req_id, 1)
                &&& final(self).bus.req.contents() == old(self).bus.req.contents() + header_bytes(
                    MessageKind::Write.code(),
                    id,
                    tx_id,
                    (key@.len() + value@.len()) as u32,
                ) + key@ + value@
            },
    {
        let id = self.req_id;
        match write(&mut self.bus, id, tx_id, key, value) {
            Ok(()) => {
                self.req_id = id.wrapping_add(1);
                Ok(id)
            },
            Err(e) => Err(e),
        }
    }

    /// Sends a read of `key` under the next request id, as `write` does.
    pub fn read(&mut self, tx_id: u32, key: &[u8]) -> (r: Result<u32, XenbusError>)
        requires
            old(self).wf(),
        ensures
            final(self).wf(),
            r is Err ==> *final(self) == *old(self),
            r is Ok <==> key@.len() <= MAX_PAYLOAD && HEADER_SIZE + key@.len() <= XENSTORE_RING_SIZE
                - old(self).bus.req.contents().len(),
            r matches Ok(id) ==> {
                &&& id == old(self).req_id
                &&& final(self).req_id == vstd::wrapping::u32_specs::wrapping_add(old(self).req_id, 1)
                &&& final(self).bus.req.contents() == old(self).bus.req.contents() + header_bytes(
                    MessageKind::Read.code(),
                    id,
                    tx_id,
                    key@.len() as u32,
                ) + key@
            },
    {
        let id = self.req_id;
        match read(&mut self.bus, id, tx_id, key) {
            Ok(()) => {
                self.req_id = id.wrapping_add(1);
                Ok(id)
            },
            Err(e) => Err(e),
        }
    }

    /// Sends a listing of `key` under the next request id, as `write` does.
    pub fn ls(&mut self, tx_id: u32, key: &[u8]) -> (r: Result<u32, XenbusError>)
        requires
            old(self).wf(),
        ensures
            final(self).wf(),
            r is Err ==> *final(self) == *old(self),
            r is Ok <==> key@.len() <= MAX_PAYLOAD && HEADER_SIZE + key@.len() <= XENSTORE_RING_SIZE
                - old(self).bus.req.contents().len(),
            r matches Ok(id) ==> {
                &&& id == old(self).req_id
                &&& final(self).req_id == vstd::wrapping::u32_specs::wrapping_add(old(self).req_id, 1)
                &&& final(self).bus.req.contents() == old(self).bus.req.contents() + header_bytes(
                    MessageKind::Directory.code(),
                    id,
                    tx_id,
                    key@.len() as u32,
                ) + key@
            },
    {
        let id = self.req_id;
        match ls(&mut self.bus, id, tx_id, key) {
            Ok(()) => {
                self.req_id = id.wrapping_add(1);
                Ok(id)
            },
            Err(e) => Err(e),
        }
    }

    /// The answer to request `id`, once it has arrived whole; an answer is
    /// only ever handed to the request whose id it carries.
    pub fn response(&mut self, id: u32) -> (r: Result<Option<Response>, XenbusError>)
        requires
            old(self).wf(),
        ensures
            final(self).wf(),
            final(self).req_id == old(self).req_id,
            r matches Ok(Some(m)) ==> m.header.request_id == id,
            r is Err <==> stuck(old(self).bus.rsp.contents()),
            r is Ok ==> ((r matches Ok(Some(_))) <==> (has_answer(old(self).bus.responses@, id)
                || carries_answer(old(self).bus.rsp.contents(), id))),
    {
        self.bus.poll_response(id)
    }
}

} // verus!
