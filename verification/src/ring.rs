//! Counters of a single-producer, single-consumer ring, as io_uring lays out
//! its submission and completion queues: a free-running `head` and `tail`
//! (wrapping at 2^32), a `size` (a power of two in io_uring), and a `mask`
//! that turns a counter into a slot index.
use vstd::prelude::*;
use crate::uring::UringError;

verus! {

/// The value of the mathematical integer `x` as a `u32` counter.
pub open spec fn wrap_u32(x: int) -> u32 {
    (x % 0x1_0000_0000) as u32
}

/// The slot that the counter value `counter` occupies.
pub open spec fn slot_of(counter: int, mask: u32) -> u32 {
    wrap_u32(counter) & mask
}

/// The slots of `count` consecutive counter values starting at `head`.
pub open spec fn batch_slots(head: u32, count: nat, mask: u32) -> Seq<u32> {
    Seq::new(count, |i: int| slot_of(head + i, mask))
}

/// Whether `n` is a power of two.
pub open spec fn is_pow2(n: u32) -> bool {
    n >= 1 && n & ((n - 1) as u32) == 0
}

pub struct Ring {
    head: u32,
    tail: u32,
    size: u32,
    mask: u32,
}

impl Ring {
    pub closed spec fn head_spec(&self) -> u32 {
        self.head
    }

    pub closed spec fn tail_spec(&self) -> u32 {
        self.tail
    }

    pub closed spec fn size_spec(&self) -> u32 {
        self.size
    }

    pub closed spec fn mask_spec(&self) -> u32 {
        self.mask
    }

    /// Number of entries between `head` and `tail`.
    pub open spec fn occupied(&self) -> nat {
        ((self.tail_spec() - self.head_spec()) % 0x1_0000_0000) as nat
    }

    /// A ring is well formed when its mask is `size - 1` and it holds no more
    /// entries than its size.
    pub open spec fn wf(&self) -> bool {
        &&& self.size_spec() >= 1
        &&& self.mask_spec() == self.size_spec() - 1
        &&& self.occupied() <= self.size_spec()
    }

    /// The slots of the entries between `head` and `tail`, oldest first.
    pub open spec fn pending_slots(&self) -> Seq<u32> {
        batch_slots(self.head_spec(), self.occupied(), self.mask_spec())
    }

    /// The ring after one more entry has been published at `tail`.
    pub closed spec fn pushed(&self) -> Ring {
        Ring { tail: wrap_u32(self.tail + 1), ..*self }
    }

    /// The ring after every pending entry has been consumed.
    pub closed spec fn drained(&self) -> Ring {
        Ring { head: self.tail, ..*self }
    }

    /// The ring after `n` entries have been published one by one.
    pub open spec fn pushed_times(&self, n: nat) -> Ring
        decreases n,
    {
        if n == 0 {
            *self
        } else {
            self.pushed_times((n - 1) as nat).pushed()
        }
    }

    /// An empty ring of `size` entries.
    pub fn new(size: u32) -> (r: Ring)
        requires
            size >= 1,
        ensures
            r.head_spec() == 0,
            r.tail_spec() == 0,
            r.size_spec() == size,
            r.mask_spec() == size - 1,
            r.wf(),
            r.occupied() == 0,
    {
        Ring { head: 0, tail: 0, size, mask: size - 1 }
    }

    /// The ring with the given counters, or `None` when they do not describe
    /// a well-formed ring.
    pub fn from_counters(head: u32, tail: u32, size: u32, mask: u32) -> (r: Option<Ring>)
        ensures
            r is Some <==> (size >= 1 && mask == size - 1 && (tail - head) % 0x1_0000_0000 <= size),
            r matches Some(ring) ==> {
                &&& ring.head_spec() == head
                &&& ring.tail_spec() == tail
                &&& ring.size_spec() == size
                &&& ring.mask_spec() == mask
                &&& ring.wf()
            },
    {
        if size == 0 || mask != size - 1 {
            return None;
        }
        let occupied = tail.wrapping_sub(head);
        if occupied > size {
            None
        } else {
            Some(Ring { head, tail, size, mask })
        }
    }

    pub fn head(&self) -> (h: u32)
        ensures
            h == self.head_spec(),
    {
        self.head
    }

    pub fn tail(&self) -> (t: u32)
        ensures
            t == self.tail_spec(),
    {
        self.tail
    }

    pub fn size(&self) -> (s: u32)
        ensures
            s == self.size_spec(),
    {
        self.size
    }

    pub fn mask(&self) -> (m: u32)
        ensures
            m == self.mask_spec(),
    {
        self.mask
    }

    /// Number of completed entries waiting to be read (`tail - head`).
    pub fn cq_ready(&self) -> (n: u32)
        ensures
            n == self.occupied(),
    {
        self.tail.wrapping_sub(self.head)
    }

    /// Number of free slots (`size - (tail - head)`).
    pub fn sq_space_left(&self) -> (n: u32)
        requires
            self.wf(),
        ensures
            n == self.size_spec() - self.occupied(),
            n + self.occupied() == self.size_spec(),
    {
        self.size - self.tail.wrapping_sub(self.head)
    }

    /// Claims the slot at `tail` for a new entry and publishes it by
    /// advancing `tail`; `QueueFull` when no slot is free.
    pub fn enqueue_sqe(&mut self) -> (r: Result<u32, UringError>)
        requires
            old(self).wf(),
        ensures
            final(self).wf(),
            old(self).occupied() == old(self).size_spec() ==> {
                &&& r matches Err(UringError::QueueFull)
                &&& *final(self) == *old(self)
            },
            old(self).occupied() < old(self).size_spec() ==> {
                &&& r == Ok::<u32, UringError>(slot_of(old(self).tail_spec() as int, old(self).mask_spec()))
                &&& *final(self) == old(self).pushed()
                &&& final(self).tail_spec() == wrap_u32(old(self).tail_spec() + 1)
                &&& final(self).head_spec() == old(self).head_spec()
                &&& final(self).size_spec() == old(self).size_spec()
                &&& final(self).mask_spec() == old(self).mask_spec()
                &&& final(self).occupied() == old(self).occupied() + 1
            },
            r matches Ok(slot) ==> slot < old(self).size_spec(),
    {
        if self.sq_space_left() == 0 {
            return Err(UringError::QueueFull);
        }
        let tail = self.tail;
        let i = tail & self.mask;
        proof {
            let m = self.mask;
            assert(tail & m <= m) by (bit_vector);
        }
        self.tail = tail.wrapping_add(1);
        Ok(i)
    }

    /// The slots of every pending entry, oldest first; the entries are
    /// consumed by moving `head` up to `tail`.
    pub fn get_cqe_batch(&mut self) -> (slots: Vec<u32>)
        requires
            old(self).wf(),
        ensures
            slots@ == old(self).pending_slots(),
            *final(self) == old(self).drained(),
            final(self).head_spec() == old(self).tail_spec(),
            final(self).head_spec() == wrap_u32(old(self).head_spec() + slots@.len()),
            final(self).tail_spec() == old(self).tail_spec(),
            final(self).size_spec() == old(self).size_spec(),
            final(self).mask_spec() == old(self).mask_spec(),
            final(self).wf(),
            final(self).occupied() == 0,
    {
        let ready_count = self.cq_ready();
        let head = self.head;
        let mask = self.mask;
        let mut batch: Vec<u32> = Vec::new();
        let mut i: u32 = 0;
        while i < ready_count
            invariant
                i <= ready_count,
                ready_count == old(self).occupied(),
                head == old(self).head_spec(),
                mask == old(self).mask_spec(),
                batch@ == batch_slots(head, i as nat, mask),
            decreases ready_count - i,
        {
            batch.push(head.wrapping_add(i) & mask);
            i = i + 1;
            assert(batch@ =~= batch_slots(head, i as nat, mask));
        }
        self.head = self.tail;
        batch
    }
}

/// The counters of the ring after a publish and after a drain: publishing
/// advances `tail` by one (wrapping) and leaves the rest; draining moves
/// `head` up to `tail` and leaves the rest.
pub proof fn lemma_pushed_and_drained_counters(r: Ring)
    ensures
        r.pushed().tail_spec() == wrap_u32(r.tail_spec() + 1),
        r.pushed().head_spec() == r.head_spec(),
        r.pushed().size_spec() == r.size_spec(),
        r.pushed().mask_spec() == r.mask_spec(),
        r.drained().head_spec() == r.tail_spec(),
        r.drained().tail_spec() == r.tail_spec(),
        r.drained().size_spec() == r.size_spec(),
        r.drained().mask_spec() == r.mask_spec(),
{
}

/// From a well-formed ring holding `occupied` entries, exactly
/// `size - occupied` entries can be published one after another (each
/// enqueue succeeds), after which the ring is full and the next enqueue
/// reports `QueueFull`.
pub proof fn lemma_enqueues_until_full(r: Ring, n: nat)
    requires
        r.wf(),
        n <= r.size_spec() - r.occupied(),
    ensures
        r.pushed_times(n).wf(),
        r.pushed_times(n).occupied() == r.occupied() + n,
        r.pushed_times(n).head_spec() == r.head_spec(),
        r.pushed_times(n).tail_spec() == wrap_u32(r.tail_spec() + n),
        r.pushed_times(n).size_spec() == r.size_spec(),
        r.pushed_times(n).mask_spec() == r.mask_spec(),
        n == r.size_spec() - r.occupied() ==> r.pushed_times(n).occupied() == r.pushed_times(n).size_spec(),
    decreases n,
{
    if n > 0 {
        lemma_enqueues_until_full(r, (n - 1) as nat);
        let p = r.pushed_times((n - 1) as nat);
        assert(r.pushed_times(n) == p.pushed());
        lemma_enqueued_slot_comes_out_last(p);
        lemma_wrap_add_one(r.tail + (n - 1));
    }
}

proof fn lemma_wrap_add_one(a: int)
    ensures
        wrap_u32(wrap_u32(a) + 1) == wrap_u32(a + 1),
{
    vstd::arithmetic::div_mod::lemma_add_mod_noop(a, 1, 0x1_0000_0000);
}

proof fn lemma_pow2_masks(m: u32)
    by (bit_vector)
    requires
        m & ((m + 1) as u32) == 0,
        m < 0xffff_ffff,
    ensures
        m == 0x0 || m == 0x1 || m == 0x3 || m == 0x7 || m == 0xf || m == 0x1f || m == 0x3f || m == 0x7f || m == 0xff || m == 0x1ff || m == 0x3ff || m == 0x7ff || m == 0xfff || m == 0x1fff || m == 0x3fff || m == 0x7fff || m == 0xffff || m == 0x1ffff || m == 0x3ffff || m == 0x7ffff || m == 0xfffff || m == 0x1fffff || m == 0x3fffff || m == 0x7fffff || m == 0xffffff || m == 0x1ffffff || m == 0x3ffffff || m == 0x7ffffff || m == 0xfffffff || m == 0x1fffffff || m == 0x3fffffff || m == 0x7fffffff,
{
}

proof fn lemma_mask_is_modulo_each(x: u32, m: u32)
    by (bit_vector)
    ensures
        m == 0x0 ==> x & m == x % 0x1,
        m == 0x1 ==> x & m == x % 0x2,
        m == 0x3 ==> x & m == x % 0x4,
        m == 0x7 ==> x & m == x % 0x8,
        m == 0xf ==> x & m == x % 0x10,
        m == 0x1f ==> x & m == x % 0x20,
        m == 0x3f ==> x & m == x % 0x40,
        m == 0x7f ==> x & m == x % 0x80,
        m == 0xff ==> x & m == x % 0x100,
        m == 0x1ff ==> x & m == x % 0x200,
        m == 0x3ff ==> x & m == x % 0x400,
        m == 0x7ff ==> x & m == x % 0x800,
        m == 0xfff ==> x & m == x % 0x1000,
        m == 0x1fff ==> x & m == x % 0x2000,
        m == 0x3fff ==> x & m == x % 0x4000,
        m == 0x7fff ==> x & m == x % 0x8000,
        m == 0xffff ==> x & m == x % 0x10000,
        m == 0x1ffff ==> x & m == x % 0x20000,
        m == 0x3ffff ==> x & m == x % 0x40000,
        m == 0x7ffff ==> x & m == x % 0x80000,
        m == 0xfffff ==> x & m == x % 0x100000,
        m == 0x1fffff ==> x & m == x % 0x200000,
        m == 0x3fffff ==> x & m == x % 0x400000,
        m == 0x7fffff ==> x & m == x % 0x800000,
        m == 0xffffff ==> x & m == x % 0x1000000,
        m == 0x1ffffff ==> x & m == x % 0x2000000,
        m == 0x3ffffff ==> x & m == x % 0x4000000,
        m == 0x7ffffff ==> x & m == x % 0x8000000,
        m == 0xfffffff ==> x & m == x % 0x10000000,
        m == 0x1fffffff ==> x & m == x % 0x20000000,
        m == 0x3fffffff ==> x & m == x % 0x40000000,
        m == 0x7fffffff ==> x & m == x % 0x80000000,
{
}

/// In a ring whose size is a power of two, the slot of a counter (the
/// counter masked with `size - 1`) is the counter modulo the size.
pub proof fn lemma_slot_is_counter_mod_size(r: Ring, counter: u32)
    requires
        r.wf(),
        is_pow2(r.size_spec()),
    ensures
        slot_of(counter as int, r.mask_spec()) == counter % r.size_spec(),
{
    let m = r.mask;
    let sz = r.size;
    assert(m & ((m + 1) as u32) == 0) by (bit_vector)
        requires
            sz & ((sz - 1) as u32) == 0,
            m + 1 == sz,
    ;
    assert(wrap_u32(counter as int) == counter);
    lemma_pow2_masks(m);
    lemma_mask_is_modulo_each(counter, m);
}

/// Publishing an entry and then consuming the ring yields the entries that
/// were pending before, followed by the slot the new entry was written to:
/// the ring hands entries back in the order they were enqueued.
pub proof fn lemma_enqueued_slot_comes_out_last(r: Ring)
    requires
        r.wf(),
        r.occupied() < r.size_spec(),
    ensures
        r.pushed().wf(),
        r.pushed().occupied() == r.occupied() + 1,
        r.pushed().pending_slots() == r.pending_slots().push(
            slot_of(r.tail_spec() as int, r.mask_spec()),
        ),
{
    let n = r.occupied();
    let p = r.pushed();
    assert(p.occupied() == n + 1);
    assert(wrap_u32(r.head + n) == r.tail);
    assert(p.pending_slots() =~= r.pending_slots().push(slot_of(r.tail as int, r.mask)));
}

/// Every slot a ring hands out lies inside the ring.
pub proof fn lemma_pending_slots_in_bounds(r: Ring)
    requires
        r.wf(),
    ensures
        forall|i: int| 0 <= i < r.pending_slots().len() ==> #[trigger] r.pending_slots()[i] < r.size_spec(),
{
    assert forall|i: int| 0 <= i < r.pending_slots().len() implies #[trigger] r.pending_slots()[i] < r.size_spec() by {
        let x = wrap_u32(r.head + i);
        let m = r.mask;
        assert(x & m <= m) by (bit_vector);
    }
}

proof fn lemma_window_slots_differ(h: u32, i: u32, j: u32, m: u32)
    by (bit_vector)
    requires
        m & ((m + 1) as u32) == 0,
        i < j,
        j <= m,
    ensures
        (((h + i) % 0x1_0000_0000) as u32) & m != (((h + j) % 0x1_0000_0000) as u32) & m,
{
}

/// In a ring whose size is a power of two, the pending entries occupy
/// pairwise distinct slots: an entry is never written over another entry
/// that has not been consumed yet.
pub proof fn lemma_pending_slots_distinct(r: Ring)
    requires
        r.wf(),
        is_pow2(r.size_spec()),
    ensures
        forall|a: int, b: int|
            0 <= a < b < r.pending_slots().len() ==> r.pending_slots()[a] != r.pending_slots()[b],
{
    let m = r.mask;
    let sz = r.size;
    assert(m & ((m + 1) as u32) == 0) by (bit_vector)
        requires
            sz & ((sz - 1) as u32) == 0,
            m + 1 == sz,
    ;
    assert forall|a: int, b: int| 0 <= a < b < r.pending_slots().len() implies
        r.pending_slots()[a] != r.pending_slots()[b] by {
        lemma_window_slots_differ(r.head, a as u32, b as u32, r.mask);
    }
}

} // verus!
