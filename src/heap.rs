use vstd::prelude::*;
use crate::errno::{ErrorKind, Reent, ENOMEM};

verus! {

/// Width of the length header in front of every payload. It is no less
/// than the width of `usize`, so the recorded length always fits.
pub const HEADER_SIZE: usize = 8;

/// The handle that stands for "no allocation".
pub const NULL: usize = 0;

/// What the model knows of one live allocation: the total length recorded
/// in its header (header and payload) and the payload bytes.
pub struct Region {
    pub header: nat,
    pub bytes: Seq<u8>,
}

/// The heap as a mathematical value. Slot `p - 1` belongs to handle `p`;
/// a freed slot is `None` and its handle is never handed out again.
/// `used` is the number of bytes the live regions take, headers included,
/// and `limit` the most they may take together.
pub struct HeapView {
    pub slots: Seq<Option<Region>>,
    pub used: nat,
    pub limit: nat,
}

/// The bytes a region takes from the heap's budget.
pub open spec fn weight(r: Option<Region>) -> nat {
    match r {
        Some(r) => r.header,
        None => 0,
    }
}

/// The bytes all regions in `s` take together.
pub open spec fn total_weight(s: Seq<Option<Region>>) -> nat
    decreases s.len(),
{
    if s.len() == 0 {
        0
    } else {
        total_weight(s.drop_last()) + weight(s.last())
    }
}

/// `n` zero bytes.
pub open spec fn zeros(n: nat) -> Seq<u8> {
    Seq::new(n, |i: int| 0u8)
}

/// The payload `bytes` after a resize to `n` bytes: cut short, or followed
/// by zeros.
pub open spec fn resized(bytes: Seq<u8>, n: nat) -> Seq<u8> {
    if n <= bytes.len() {
        bytes.take(n as int)
    } else {
        bytes + zeros((n - bytes.len()) as nat)
    }
}

impl HeapView {
    /// Every live region's header is its payload length plus the header
    /// width, and the budget accounts for exactly the live regions.
    pub open spec fn wf(self) -> bool {
        &&& self.used == total_weight(self.slots)
        &&& self.used <= self.limit
        &&& forall|i: int|
            0 <= i < self.slots.len() && #[trigger] self.slots[i] is Some ==> self.slots[i]->Some_0.header
                == self.slots[i]->Some_0.bytes.len() + HEADER_SIZE
    }

    pub open spec fn live(self, p: usize) -> bool {
        1 <= p <= self.slots.len() && self.slots[p - 1] is Some
    }

    /// The payload of the region behind `p`.
    pub open spec fn content(self, p: usize) -> Seq<u8> {
        self.slots[p - 1]->Some_0.bytes
    }

    /// The total length recorded in the header of the region behind `p`.
    pub open spec fn header(self, p: usize) -> nat {
        self.slots[p - 1]->Some_0.header
    }

    /// The handle the next allocation receives.
    pub open spec fn next_handle(self) -> nat {
        self.slots.len() + 1
    }

    /// An allocation of `len` payload bytes fits in the budget, and a
    /// handle is left for it.
    pub open spec fn can_hold(self, len: nat) -> bool {
        &&& self.used + len + HEADER_SIZE <= self.limit
        &&& self.slots.len() < usize::MAX
    }

    /// The heap after a new zeroed region of `len` payload bytes is made.
    pub open spec fn allocate(self, len: nat) -> HeapView {
        HeapView {
            slots: self.slots.push(Some(Region { header: (len + HEADER_SIZE) as nat, bytes: zeros(len) })),
            used: (self.used + len + HEADER_SIZE) as nat,
            limit: self.limit,
        }
    }

    /// The heap after the region behind `p` is released.
    pub open spec fn release(self, p: usize) -> HeapView {
        HeapView {
            slots: self.slots.update(p - 1, None),
            used: (self.used - self.header(p)) as nat,
            limit: self.limit,
        }
    }

    /// The region behind `p` can grow or shrink to `len` payload bytes
    /// within the budget.
    pub open spec fn can_resize(self, p: usize, len: nat) -> bool {
        self.used - self.header(p) + len + HEADER_SIZE <= self.limit
    }

    /// The heap after the region behind `p` is resized to `len` payload
    /// bytes, its header rewritten to the new total.
    pub open spec fn resize(self, p: usize, len: nat) -> HeapView {
        HeapView {
            slots: self.slots.update(
                p - 1,
                Some(Region { header: (len + HEADER_SIZE) as nat, bytes: resized(self.content(p), len) }),
            ),
            used: (self.used - self.header(p) + len + HEADER_SIZE) as nat,
            limit: self.limit,
        }
    }

    /// The heap after byte `i` of the region behind `p` is set to `b`.
    pub open spec fn store(self, p: usize, i: nat, b: u8) -> HeapView {
        HeapView {
            slots: self.slots.update(
                p - 1,
                Some(Region { header: self.header(p), bytes: self.content(p).update(i as int, b) }),
            ),
            used: self.used,
            limit: self.limit,
        }
    }
}

/// Replacing one slot changes the total by the difference of the weights.
pub proof fn lemma_total_weight_update(s: Seq<Option<Region>>, i: int, r: Option<Region>)
    requires
        0 <= i < s.len(),
    ensures
        total_weight(s.update(i, r)) + weight(s[i]) == total_weight(s) + weight(r),
    decreases s.len(),
{
    if i == s.len() - 1 {
        assert(s.update(i, r).drop_last() =~= s.drop_last());
    } else {
        lemma_total_weight_update(s.drop_last(), i, r);
        assert(s.update(i, r).drop_last() =~= s.drop_last().update(i, r));
    }
}

/// The weight of one slot never exceeds the total.
pub proof fn lemma_weight_le_total(s: Seq<Option<Region>>, i: int)
    requires
        0 <= i < s.len(),
    ensures
        weight(s[i]) <= total_weight(s),
    decreases s.len(),
{
    if i < s.len() - 1 {
        lemma_weight_le_total(s.drop_last(), i);
    }
}

/// Allocating `len` bytes and freeing them at once succeeds whenever the
/// budget holds them, and leaves every other region, its header, and the
/// bytes in use exactly as they were, so later allocations see no trace.
pub proof fn lemma_malloc_then_free(h: HeapView, len: nat)
    requires
        h.wf(),
        h.can_hold(len),
    ensures
        ({
            let p = h.next_handle() as usize;
            let after = h.allocate(len).release(p);
            &&& h.allocate(len).wf()
            &&& h.allocate(len).live(p)
            &&& !h.live(p)
            &&& after.wf()
            &&& after.used == h.used
            &&& after.limit == h.limit
            &&& forall|q: usize| #[trigger] after.live(q) == h.live(q)
            &&& forall|q: usize|
                h.live(q) ==> #[trigger] after.content(q) == h.content(q) && after.header(q)
                    == h.header(q)
        }),
{
    let p = h.next_handle() as usize;
    let a = h.allocate(len);
    assert(a.slots.drop_last() =~= h.slots);
    assert forall|i: int| 0 <= i < a.slots.len() && #[trigger] a.slots[i] is Some implies a.slots[i]->Some_0.header
        == a.slots[i]->Some_0.bytes.len() + HEADER_SIZE by {
        if i < h.slots.len() {
            assert(h.slots[i] is Some);
        }
    }
    let after = a.release(p);
    lemma_total_weight_update(a.slots, p - 1, None);
    assert forall|i: int|
        0 <= i < after.slots.len() && #[trigger] after.slots[i] is Some implies after.slots[i]->Some_0.header
            == after.slots[i]->Some_0.bytes.len() + HEADER_SIZE by {
        assert(a.slots[i] is Some);
    }
}

/// Resizing a live region to `len` bytes keeps its first
/// `min(old length, len)` bytes, gives it exactly `len` bytes, rewrites
/// its header to `len + HEADER_SIZE`, and leaves every other region alone.
pub proof fn lemma_realloc_keeps_prefix(h: HeapView, p: usize, len: nat)
    requires
        h.wf(),
        h.live(p),
        h.can_resize(p, len),
    ensures
        ({
            let after = h.resize(p, len);
            let keep = if len <= h.content(p).len() { len as int } else { h.content(p).len() as int };
            &&& after.wf()
            &&& after.live(p)
            &&& after.content(p).len() == len
            &&& after.content(p).take(keep) == h.content(p).take(keep)
            &&& after.header(p) == len + HEADER_SIZE
            &&& forall|q: usize| q != p ==> #[trigger] after.live(q) == h.live(q)
            &&& forall|q: usize|
                q != p && h.live(q) ==> #[trigger] after.content(q) == h.content(q)
                    && after.header(q) == h.header(q)
        }),
{
    let after = h.resize(p, len);
    let keep = if len <= h.content(p).len() { len as int } else { h.content(p).len() as int };
    let r = Some(Region { header: (len + HEADER_SIZE) as nat, bytes: resized(h.content(p), len) });
    lemma_total_weight_update(h.slots, p - 1, r);
    lemma_weight_le_total(h.slots, p - 1);
    assert(after.content(p).take(keep) =~= h.content(p).take(keep));
    assert forall|i: int|
        0 <= i < after.slots.len() && #[trigger] after.slots[i] is Some implies after.slots[i]->Some_0.header
            == after.slots[i]->Some_0.bytes.len() + HEADER_SIZE by {
        if i != p - 1 {
            assert(h.slots[i] is Some);
        }
    }
}

/// The total length of a tagged allocation with `len` payload bytes, or
/// `None` when header and payload together do not fit in `usize`.
pub fn tagged_total(len: usize) -> (r: Option<usize>)
    ensures
        r == (if len + HEADER_SIZE <= usize::MAX {
            Some((len + HEADER_SIZE) as usize)
        } else {
            None::<usize>
        }),
{
    if len > usize::MAX - HEADER_SIZE {
        None
    } else {
        Some(len + HEADER_SIZE)
    }
}

/// The payload length of a zeroed allocation of `count` items of `len`
/// bytes each, or `None` when the product overflows `usize`.
pub fn zeroed_size(count: usize, len: usize) -> (r: Option<usize>)
    ensures
        r == (if count * len <= usize::MAX {
            Some((count * len) as usize)
        } else {
            None::<usize>
        }),
{
    count.checked_mul(len)
}

/// One live allocation as stored: the total length its header records and
/// its payload.
struct Block {
    total: usize,
    payload: Vec<u8>,
}

spec fn region_of(b: Option<Block>) -> Option<Region> {
    match b {
        Some(b) => Some(Region { header: b.total as nat, bytes: b.payload@ }),
        None => None,
    }
}

/// A heap of header-tagged allocations, addressed by opaque handles. Each
/// payload is bounds-checked, so no write can reach a header.
pub struct Heap {
    blocks: Vec<Option<Block>>,
    used: usize,
    limit: usize,
}

impl View for Heap {
    type V = HeapView;

    closed spec fn view(&self) -> HeapView {
        HeapView {
            slots: self.blocks@.map_values(|b: Option<Block>| region_of(b)),
            used: self.used as nat,
            limit: self.limit as nat,
        }
    }
}

impl Heap {
    pub closed spec fn wf(&self) -> bool {
        self@.wf()
    }

    /// An empty heap whose live regions may take at most `limit` bytes.
    pub fn new(limit: usize) -> (h: Heap)
        ensures
            h.wf(),
            h@.slots == Seq::<Option<Region>>::empty(),
            h@.used == 0,
            h@.limit == limit,
    {
        let h = Heap { blocks: Vec::new(), used: 0, limit };
        assert(h@.slots =~= Seq::<Option<Region>>::empty());
        h
    }

    /// Allocates `len` zeroed payload bytes behind a fresh handle. When the
    /// budget or the handles run out it records out-of-memory in `re`,
    /// returns `NULL` and leaves the heap as it was.
    pub fn malloc_r(&mut self, re: &mut Reent, len: usize) -> (p: usize)
        requires
            old(self).wf(),
        ensures
            final(self).wf(),
            (p != NULL) == old(self)@.can_hold(len as nat),
            p != NULL ==> {
                &&& p == old(self)@.next_handle()
                &&& final(self)@ == old(self)@.allocate(len as nat)
                &&& final(re).errno == old(re).errno
            },
            p == NULL ==> final(self)@ == old(self)@ && final(re).errno == ENOMEM,
    {
        let room = self.limit - self.used;
        if len > room || room - len < HEADER_SIZE || self.blocks.len() == usize::MAX {
            re.set_error(ErrorKind::OutOfMemory);
            return NULL;
        }
        let total = len + HEADER_SIZE;
        let mut payload: Vec<u8> = Vec::new();
        while payload.len() < len
            invariant
                payload.len() <= len,
                payload@ =~= zeros(payload.len() as nat),
            decreases len - payload.len(),
        {
            payload.push(0u8);
        }
        let ghost before = self@;
        self.blocks.push(Some(Block { total, payload }));
        self.used = self.used + total;
        proof {
            let s = self@.slots;
            assert(s =~= before.slots.push(
                Some(Region { header: (len + HEADER_SIZE) as nat, bytes: zeros(len as nat) }),
            ));
            assert(s.drop_last() =~= before.slots);
        }
        assert(self@ == before.allocate(len as nat));
        self.blocks.len()
    }
    /// Releases the region behind `p` with the length its header records.
    /// `NULL` is accepted and changes nothing.
    pub fn free_r(&mut self, p: usize)
        requires
            old(self).wf(),
            p == NULL || old(self)@.live(p),
        ensures
            final(self).wf(),
            p == NULL ==> final(self)@ == old(self)@,
            p != NULL ==> final(self)@ == old(self)@.release(p),
    {
        if p == NULL {
            return;
        }
        let ghost before = self@;
        let mut slot: Option<Block> = None;
        self.blocks.set_and_swap(p - 1, &mut slot);
        proof {
            lemma_total_weight_update(before.slots, p - 1, None);
        }
        match slot {
            Some(b) => {
                self.used = self.used - b.total;
            },
            None => {},
        }
        proof {
            assert(self@.slots =~= before.slots.update(p - 1, None));
            assert forall|i: int|
                0 <= i < self@.slots.len() && #[trigger] self@.slots[i] is Some implies self@.slots[i]->Some_0.header
                    == self@.slots[i]->Some_0.bytes.len() + HEADER_SIZE by {
                assert(before.slots[i] is Some);
            }
        }
        assert(self@ == before.release(p));
    }

    /// Resizes the region behind `p` to `len` payload bytes and rewrites
    /// its header; the first bytes are kept, new ones are zero. A `NULL`
    /// handle makes a fresh allocation. When the budget runs out it records
    /// out-of-memory in `re`, returns `NULL` and leaves the heap as it was,
    /// the old region still live.
    pub fn realloc_r(&mut self, re: &mut Reent, p: usize, len: usize) -> (q: usize)
        requires
            old(self).wf(),
            p == NULL || old(self)@.live(p),
        ensures
            final(self).wf(),
            p == NULL ==> {
                &&& (q != NULL) == old(self)@.can_hold(len as nat)
                &&& q != NULL ==> q == old(self)@.next_handle() && final(self)@ == old(self)@.allocate(
                    len as nat,
                ) && final(re).errno == old(re).errno
            },
            p != NULL ==> {
                &&& (q != NULL) == old(self)@.can_resize(p, len as nat)
                &&& q != NULL ==> q == p && final(self)@ == old(self)@.resize(p, len as nat)
                    && final(re).errno == old(re).errno
            },
            q == NULL ==> final(self)@ == old(self)@ && final(re).errno == ENOMEM,
    {
        if p == NULL {
            return self.malloc_r(re, len);
        }
        let ghost before = self@;
        let i = p - 1;
        let mut slot: Option<Block> = None;
        self.blocks.set_and_swap(i, &mut slot);
        assert(slot is Some);
        let mut b = slot.unwrap();
        proof {
            lemma_weight_le_total(before.slots, i as int);
        }
        let room = self.limit - (self.used - b.total);
        if len > room || room - len < HEADER_SIZE {
            self.blocks.set(i, Some(b));
            assert(self.blocks@ =~= old(self).blocks@);
            re.set_error(ErrorKind::OutOfMemory);
            return NULL;
        }
        let old_total = b.total;
        if len <= b.payload.len() {
            b.payload.truncate(len);
        } else {
            let ghost kept = b.payload@;
            while b.payload.len() < len
                invariant
                    kept.len() <= b.payload.len() <= len,
                    b.payload@ =~= kept + zeros((b.payload.len() - kept.len()) as nat),
                decreases len - b.payload.len(),
            {
                b.payload.push(0u8);
            }
        }
        b.total = len + HEADER_SIZE;
        self.used = self.used - old_total + b.total;
        self.blocks.set(i, Some(b));
        proof {
            let r = Some(Region { header: (len + HEADER_SIZE) as nat, bytes: resized(before.content(p), len as nat) });
            assert(self@.slots =~= before.slots.update(i as int, r));
            lemma_total_weight_update(before.slots, i as int, r);
            assert forall|j: int|
                0 <= j < self@.slots.len() && #[trigger] self@.slots[j] is Some implies self@.slots[j]->Some_0.header
                    == self@.slots[j]->Some_0.bytes.len() + HEADER_SIZE by {
                if j != i {
                    assert(before.slots[j] is Some);
                }
            }
        }
        assert(self@ == before.resize(p, len as nat));
        p
    }

    /// Allocates `count * len` zeroed bytes. When the product overflows
    /// `usize` it records out-of-memory without touching the heap;
    /// otherwise it behaves as `malloc_r` of the product, whose payload is
    /// already zero-filled.
    pub fn calloc_r(&mut self, re: &mut Reent, count: usize, len: usize) -> (p: usize)
        requires
            old(self).wf(),
        ensures
            final(self).wf(),
            count * len > usize::MAX ==> p == NULL && final(self)@ == old(self)@ && final(re).errno
                == ENOMEM,
            count * len <= usize::MAX ==> {
                &&& (p != NULL) == old(self)@.can_hold((count * len) as nat)
                &&& p != NULL ==> p == old(self)@.next_handle() && final(self)@ == old(self)@.allocate(
                    (count * len) as nat,
                ) && final(re).errno == old(re).errno
                &&& p == NULL ==> final(self)@ == old(self)@ && final(re).errno == ENOMEM
            },
    {
        match zeroed_size(count, len) {
            Some(n) => self.malloc_r(re, n),
            None => {
                re.set_error(ErrorKind::OutOfMemory);
                NULL
            },
        }
    }

    /// The total length recorded in the header behind `p`, if `p` is live.
    pub fn header(&self, p: usize) -> (r: Option<usize>)
        requires
            self.wf(),
        ensures
            r == (if self@.live(p) { Some(self@.header(p) as usize) } else { None::<usize> }),
    {
        if p == NULL || p > self.blocks.len() {
            return None;
        }
        match &self.blocks[p - 1] {
            Some(b) => Some(b.total),
            None => None,
        }
    }

    /// Byte `i` of the payload behind `p`, if `p` is live and `i` is in
    /// bounds.
    pub fn read_byte(&self, p: usize, i: usize) -> (r: Option<u8>)
        requires
            self.wf(),
        ensures
            r == (if self@.live(p) && i < self@.content(p).len() {
                Some(self@.content(p)[i as int])
            } else {
                None::<u8>
            }),
    {
        if p == NULL || p > self.blocks.len() {
            return None;
        }
        match &self.blocks[p - 1] {
            Some(b) => if i < b.payload.len() {
                Some(b.payload[i])
            } else {
                None
            },
            None => None,
        }
    }

    /// Sets byte `i` of the payload behind `p` to `v`. Returns false, and
    /// changes nothing, when `p` is not live or `i` is out of bounds.
    pub fn write_byte(&mut self, p: usize, i: usize, v: u8) -> (ok: bool)
        requires
            old(self).wf(),
        ensures
            final(self).wf(),
            ok == (old(self)@.live(p) && i < old(self)@.content(p).len()),
            ok ==> final(self)@ == old(self)@.store(p, i as nat, v),
            !ok ==> final(self)@ == old(self)@,
    {
        if p == NULL || p > self.blocks.len() {
            return false;
        }
        let ghost before = self@;
        let mut slot: Option<Block> = None;
        self.blocks.set_and_swap(p - 1, &mut slot);
        match slot {
            Some(mut b) => {
                if i < b.payload.len() {
                    b.payload.set(i, v);
                    self.blocks.set(p - 1, Some(b));
                    proof {
                        let r = Some(Region { header: before.header(p), bytes: before.content(p).update(i as int, v) });
                        assert(self@.slots =~= before.slots.update(p - 1, r));
                        lemma_total_weight_update(before.slots, p - 1, r);
                        assert forall|j: int|
                            0 <= j < self@.slots.len() && #[trigger] self@.slots[j] is Some implies self@.slots[j]->Some_0.header
                                == self@.slots[j]->Some_0.bytes.len() + HEADER_SIZE by {
                            assert(before.slots[j] is Some);
                        }
                    }
                    assert(self@ == before.store(p, i as nat, v));
                    true
                } else {
                    self.blocks.set(p - 1, Some(b));
                    assert(self.blocks@ =~= old(self).blocks@);
                    false
                }
            },
            None => {
                self.blocks.set(p - 1, None);
                assert(self.blocks@ =~= old(self).blocks@);
                false
            },
        }
    }

    /// The bytes the live regions take, headers included.
    pub fn used(&self) -> (r: usize)
        ensures
            r == self@.used,
    {
        self.used
    }

    /// The most bytes the live regions may take together.
    pub fn limit(&self) -> (r: usize)
        ensures
            r == self@.limit,
    {
        self.limit
    }
}

} // verus!
