use vstd::prelude::*;

verus! {

/// How many slots have their storage out on lease (a leased slot holds
/// `None` until the storage comes back).
spec fn count_leased(s: Seq<Option<Vec<u8>>>) -> nat
    decreases s.len(),
{
    if s.len() == 0 {
        0
    } else {
        (count_leased(s.drop_last()) + if s.last() is None {
            1nat
        } else {
            0nat
        }) as nat
    }
}

proof fn lemma_count_le(s: Seq<Option<Vec<u8>>>)
    ensures
        count_leased(s) <= s.len(),
        (exists|i: int| 0 <= i < s.len() && s[i] is Some) ==> count_leased(s) < s.len(),
        (forall|i: int| 0 <= i < s.len() ==> s[i] is None) ==> count_leased(s) == s.len(),
    decreases s.len(),
{
    if s.len() > 0 {
        lemma_count_le(s.drop_last());
        if exists|i: int| 0 <= i < s.len() && s[i] is Some {
            let i = choose|i: int| 0 <= i < s.len() && s[i] is Some;
            if i < s.len() - 1 {
                assert(s.drop_last()[i] is Some);
            }
        }
    }
}

proof fn lemma_count_zero(s: Seq<Option<Vec<u8>>>)
    requires
        forall|i: int| 0 <= i < s.len() ==> s[i] is Some,
    ensures
        count_leased(s) == 0,
    decreases s.len(),
{
    if s.len() > 0 {
        lemma_count_zero(s.drop_last());
    }
}

proof fn lemma_count_update(s: Seq<Option<Vec<u8>>>, i: int, v: Option<Vec<u8>>)
    requires
        0 <= i < s.len(),
    ensures
        count_leased(s.update(i, v)) + (if s[i] is None {
            1nat
        } else {
            0nat
        }) == count_leased(s) + (if v is None {
            1nat
        } else {
            0nat
        }),
    decreases s.len(),
{
    let t = s.update(i, v);
    if i == s.len() - 1 {
        assert(t.drop_last() =~= s.drop_last());
        assert(t.last() == v);
    } else {
        assert(t.drop_last() =~= s.drop_last().update(i, v));
        assert(t.last() == s.last());
        lemma_count_update(s.drop_last(), i, v);
    }
}

proof fn lemma_count_push(s: Seq<Option<Vec<u8>>>, v: Option<Vec<u8>>)
    ensures
        count_leased(s.push(v)) == count_leased(s) + (if v is None {
            1nat
        } else {
            0nat
        }),
{
    assert(s.push(v).drop_last() =~= s);
    assert(s.push(v).last() == v);
}

/// Lends fixed-size scratch buffers to connections; grows on demand and
/// never shrinks while the process lives.
pub struct BufferPool {
    buffer_size: usize,
    buffers: Vec<Option<Vec<u8>>>,
}

/// The handle to one leased buffer: it owns the storage until it is given
/// back to the pool.
pub struct Buffer {
    index: usize,
    pub data: Vec<u8>,
}

impl Buffer {
    pub closed spec fn spec_index(&self) -> int {
        self.index as int
    }

    pub closed spec fn spec_data(&self) -> Seq<u8> {
        self.data@
    }

    pub fn index(&self) -> (i: usize)
        ensures
            i == self.spec_index(),
    {
        self.index
    }

    /// The buffer's bytes; they are scratch and arrive unzeroed.
    pub fn get(&self) -> (d: &Vec<u8>)
        ensures
            d@ == self.spec_data(),
    {
        &self.data
    }
}

impl BufferPool {
    pub closed spec fn spec_buffer_size(&self) -> int {
        self.buffer_size as int
    }

    pub closed spec fn spec_total(&self) -> nat {
        self.buffers@.len()
    }

    pub closed spec fn spec_leased(&self) -> nat {
        count_leased(self.buffers@)
    }

    /// Whether slot `i` still holds its storage.
    pub closed spec fn slot_free(&self, i: int) -> bool {
        self.buffers@[i] is Some
    }

    /// The bytes resting in slot `i`, meaningful while the slot is free.
    pub closed spec fn slot_data(&self, i: int) -> Seq<u8> {
        self.buffers@[i]->0@
    }

    /// Every slot that holds storage holds exactly `buffer_size` bytes.
    pub closed spec fn wf(&self) -> bool {
        forall|i: int|
            0 <= i < self.buffers@.len() && self.buffers@[i] is Some
                ==> (#[trigger] self.buffers@[i])->0@.len() == self.buffer_size
    }

    pub fn new(buffer_size: usize) -> (p: Self)
        ensures
            p.wf(),
            p.spec_buffer_size() == buffer_size,
            p.spec_total() == 0,
            p.spec_leased() == 0,
    {
        BufferPool { buffer_size, buffers: Vec::<Option<Vec<u8>>>::new() }
    }

    /// Hands out a buffer of exactly `buffer_size` bytes: the first free
    /// slot's storage where one exists, a freshly made slot otherwise.
    pub fn lease(&mut self) -> (b: Buffer)
        requires
            old(self).wf(),
        ensures
            final(self).wf(),
            final(self).spec_buffer_size() == old(self).spec_buffer_size(),
            b.spec_data().len() == old(self).spec_buffer_size(),
            0 <= b.spec_index() < final(self).spec_total(),
            !final(self).slot_free(b.spec_index()),
            final(self).spec_leased() == old(self).spec_leased() + 1,
            forall|j: int| 0 <= j < b.spec_index() ==> !old(self).slot_free(j),
            old(self).spec_leased() < old(self).spec_total() ==> final(self).spec_total() == old(self).spec_total() && old(self).slot_free(b.spec_index()) && b.spec_data() == old(self).slot_data(b.spec_index()),
            old(self).spec_leased() == old(self).spec_total() ==> final(self).spec_total() == old(self).spec_total() + 1 && b.spec_index() == old(self).spec_total() && b.spec_data()
                == Seq::new(old(self).spec_buffer_size() as nat, |j: int| 0u8),
            forall|j: int|
                0 <= j < old(self).spec_total() && j != b.spec_index() ==> final(self).slot_free(j)
                    == old(self).slot_free(j) && final(self).slot_data(j) == old(self).slot_data(
                    j,
                ),
    {
        proof {
            lemma_count_le(self.buffers@);
        }

        let ghost old_bufs = self.buffers@;
        let n = self.buffers.len();

        // Find an unleased buffer.
        let mut k: usize = 0;
        while k < n
            invariant
                n == self.buffers@.len(),
                k <= n,
                self == old(self),
                old(self).wf(),
                forall|j: int| 0 <= j < k ==> self.buffers@[j] is None,
            decreases n - k,
        {
            if self.buffers[k].is_some() {
                // Take its storage out and mark the slot leased.
                let slot = self.buffers.remove(k);
                self.buffers.insert(k, None);
                proof {
                    assert(self.buffers@ =~= old(self).buffers@.update(k as int, None));
                    lemma_count_update(old(self).buffers@, k as int, None);
                    lemma_count_le(old(self).buffers@);
                    assert(slot == old(self).buffers@[k as int]);
                    assert(old(self).buffers@[k as int]->0@.len() == old(self).buffer_size);
                    assert forall|i: int|
                        0 <= i < self.buffers@.len() && self.buffers@[i] is Some implies (
                    self.buffers@[i])->0@.len() == self.buffer_size by {
                        assert(self.buffers@[i] == old(self).buffers@[i]);
                        assert(old(self).buffers@[i]->0@.len() == old(self).buffer_size);
                    }
                }
                let data = slot.unwrap();
                return Buffer { index: k, data };
            }
            k = k + 1;
        }

        // Or create a new one, leased from the start.
        proof {
            lemma_count_push(old_bufs, None);
        }
        let data = vec![0u8; self.buffer_size];
        self.buffers.push(None);
        Buffer { index: n, data }
    }

    /// Takes a leased buffer back; its storage returns, unzeroed, to the
    /// slot it came from.
    pub fn release(&mut self, buffer: Buffer)
        requires
            old(self).wf(),
            0 <= buffer.spec_index() < old(self).spec_total(),
            !old(self).slot_free(buffer.spec_index()),
            buffer.spec_data().len() == old(self).spec_buffer_size(),
        ensures
            final(self).wf(),
            final(self).spec_buffer_size() == old(self).spec_buffer_size(),
            final(self).spec_total() == old(self).spec_total(),
            final(self).spec_leased() == old(self).spec_leased() - 1,
            final(self).slot_free(buffer.spec_index()),
            final(self).slot_data(buffer.spec_index()) == buffer.spec_data(),
            forall|j: int|
                0 <= j < old(self).spec_total() && j != buffer.spec_index() ==> final(self).slot_free(j) == old(self).slot_free(j) && final(self).slot_data(j) == old(self).slot_data(j),
    {
        let ghost old_bufs = self.buffers@;
        let index = buffer.index;
        let _ = self.buffers.remove(index);
        self.buffers.insert(index, Some(buffer.data));
        proof {
            assert(self.buffers@ =~= old_bufs.update(index as int, Some(buffer.data)));
            lemma_count_update(old_bufs, index as int, Some(buffer.data));
        }
    }

    pub fn leased_count(&self) -> (n: usize)
        ensures
            n == self.spec_leased(),
    {
        let total = self.buffers.len();
        let mut count: usize = 0;
        let mut k: usize = 0;
        while k < total
            invariant
                total == self.buffers@.len(),
                k <= total,
                count <= k,
                count == count_leased(self.buffers@.take(k as int)),
            decreases total - k,
        {
            proof {
                assert(self.buffers@.take(k + 1).drop_last() =~= self.buffers@.take(k as int));
                assert(self.buffers@.take(k + 1).last() == self.buffers@[k as int]);
            }
            if self.buffers[k].is_none() {
                count = count + 1;
            }
            k = k + 1;
        }
        proof {
            assert(self.buffers@.take(total as int) =~= self.buffers@);
        }
        count
    }

    pub fn total_count(&self) -> (n: usize)
        ensures
            n == self.spec_total(),
    {
        self.buffers.len()
    }

    /// The size every buffer of this pool has.
    pub fn buffer_size(&self) -> (n: usize)
        ensures
            n == self.spec_buffer_size(),
    {
        self.buffer_size
    }

    /// Whether slot `i` still holds its storage (nothing leased from it is
    /// outstanding).
    pub fn slot_is_free(&self, i: usize) -> (r: bool)
        requires
            i < self.spec_total(),
        ensures
            r == self.slot_free(i as int),
    {
        self.buffers[i].is_some()
    }
}

/// No more buffers are ever on lease than the pool has made.
pub proof fn lemma_leased_le_total(pool: &BufferPool)
    ensures
        pool.spec_leased() <= pool.spec_total(),
{
    lemma_count_le(pool.buffers@);
}

/// Once every slot holds its storage again — every handle was released —
/// nothing is on lease.
pub proof fn lemma_all_released_means_none_leased(pool: &BufferPool)
    requires
        forall|i: int| 0 <= i < pool.spec_total() ==> pool.slot_free(i),
    ensures
        pool.spec_leased() == 0,
{
    assert forall|i: int| 0 <= i < pool.buffers@.len() implies pool.buffers@[i] is Some by {
        assert(pool.slot_free(i));
    }
    lemma_count_zero(pool.buffers@);
}

} // verus!
