//! Reading a range of coils or registers in requests of at most
//! [`CHUNK_SIZE`] items, as the Modbus protocol limits the size of a read.
//!
//! The caller asks [`ChunkedRead::next_request`] what to read next, performs
//! the read, and hands the items to [`ChunkedRead::accept`], until no
//! request is left; [`ChunkedRead::finish`] gives the items in order.
use vstd::prelude::*;

verus! {

/// The most items read by one request.
pub const CHUNK_SIZE: usize = 32;

/// The reads that cover `cnt` items from item `start`, in order: the item
/// each starts at and how many it reads. All but the last read
/// `CHUNK_SIZE` items.
pub open spec fn chunk_plan(start: nat, cnt: nat) -> Seq<(nat, nat)>
    decreases cnt,
{
    if cnt == 0 {
        Seq::empty()
    } else {
        let q: nat = if cnt < CHUNK_SIZE {
            cnt
        } else {
            CHUNK_SIZE as nat
        };
        seq![(start, q)] + chunk_plan(start + q, (cnt - q) as nat)
    }
}

/// The total number of items that the reads `plan` ask for.
pub open spec fn planned_total(plan: Seq<(nat, nat)>) -> nat
    decreases plan.len(),
{
    if plan.len() == 0 {
        0
    } else {
        plan[0].1 + planned_total(plan.drop_first())
    }
}

/// The reads of a chunk plan are contiguous, each reads between one and
/// `CHUNK_SIZE` items, all of them together read `cnt` items, and there are
/// as many as `cnt` needs chunks.
pub proof fn lemma_chunk_plan(start: nat, cnt: nat)
    ensures
        planned_total(chunk_plan(start, cnt)) == cnt,
        chunk_plan(start, cnt).len() == (cnt + 31) / 32,
        cnt > 0 ==> chunk_plan(start, cnt)[0].0 == start,
        forall|i: int|
            0 <= i < chunk_plan(start, cnt).len() ==> 1 <= (#[trigger] chunk_plan(start, cnt)[i]).1
                <= CHUNK_SIZE,
        forall|i: int|
            0 <= i < chunk_plan(start, cnt).len() - 1 ==> #[trigger] chunk_plan(start, cnt)[i
                + 1].0 == chunk_plan(start, cnt)[i].0 + chunk_plan(start, cnt)[i].1,
        forall|i: int|
            0 <= i < chunk_plan(start, cnt).len() - 1 ==> (#[trigger] chunk_plan(start, cnt)[i]).1
                == CHUNK_SIZE,
    decreases cnt,
{
    if cnt > 0 {
        let q: nat = if cnt < CHUNK_SIZE {
            cnt
        } else {
            CHUNK_SIZE as nat
        };
        let rest = chunk_plan(start + q, (cnt - q) as nat);
        lemma_chunk_plan(start + q, (cnt - q) as nat);
        let p = chunk_plan(start, cnt);
        assert(p == seq![(start, q)] + rest);
        assert(p.drop_first() == rest);
        assert forall|i: int| 0 <= i < p.len() implies 1 <= (#[trigger] p[i]).1 <= CHUNK_SIZE by {
            if i > 0 {
                assert(p[i] == rest[i - 1]);
            }
        }
        assert forall|i: int| 0 <= i < p.len() - 1 implies #[trigger] p[i + 1].0 == p[i].0
            + p[i].1 by {
            assert(p[i + 1] == rest[i]);
            if i > 0 {
                assert(p[i] == rest[i - 1]);
            }
        }
        assert forall|i: int| 0 <= i < p.len() - 1 implies (#[trigger] p[i]).1 == CHUNK_SIZE by {
            if i > 0 {
                assert(p[i] == rest[i - 1]);
            } else {
                assert(rest.len() > 0);
            }
        }
    }
}

/// A read of `cnt` items from item `start` in progress.
pub struct ChunkedRead<T> {
    offset: usize,
    end: usize,
    result: Vec<T>,
}

impl<T> ChunkedRead<T> {
    /// The item the next read starts at.
    pub closed spec fn offset(&self) -> nat {
        self.offset as nat
    }

    /// One past the last item to read.
    pub closed spec fn end(&self) -> nat {
        self.end as nat
    }

    /// The items read so far, in order.
    pub closed spec fn items(&self) -> Seq<T> {
        self.result@
    }

    /// The reads still to make.
    pub open spec fn remaining(&self) -> Seq<(nat, nat)> {
        chunk_plan(self.offset(), (self.end() - self.offset()) as nat)
    }

    /// The read is within the range of addresses of two `u16` numbers.
    pub closed spec fn wf(&self) -> bool {
        self.offset <= self.end <= 0x1_FFFE
    }

    /// A read of `cnt` items starting at item `start`.
    pub fn new(start: u16, cnt: u16) -> (r: Self)
        ensures
            r.wf(),
            r.offset() == start,
            r.end() == start + cnt,
            r.items() == Seq::<T>::empty(),
            r.remaining() == chunk_plan(start as nat, cnt as nat),
    {
        let offset = start as usize;
        ChunkedRead { offset, end: offset + cnt as usize, result: Vec::new() }
    }

    /// The next request to make: its address (the start item, wrapped to 16
    /// bits) and the number of items; `None` when all items have been read.
    pub fn next_request(&self) -> (r: Option<(u16, u16)>)
        requires
            self.wf(),
        ensures
            r is None <==> self.remaining().len() == 0,
            r matches Some((addr, qty)) ==> addr == self.remaining()[0].0 % 0x1_0000 && qty
                == self.remaining()[0].1,
    {
        if self.offset < self.end {
            let left = self.end - self.offset;
            let chunk = if left < CHUNK_SIZE {
                left
            } else {
                CHUNK_SIZE
            };
            Some(((self.offset % 0x1_0000) as u16, chunk as u16))
        } else {
            None
        }
    }

    /// Records the items that the request given by `next_request` returned.
    pub fn accept(&mut self, data: Vec<T>)
        requires
            old(self).wf(),
            old(self).remaining().len() > 0,
        ensures
            final(self).wf(),
            final(self).items() == old(self).items() + data@,
            final(self).end() == old(self).end(),
            final(self).remaining() == old(self).remaining().drop_first(),
    {
        let mut data = data;
        let left = self.end - self.offset;
        let chunk = if left < CHUNK_SIZE {
            left
        } else {
            CHUNK_SIZE
        };
        self.result.append(&mut data);
        proof {
            let p = chunk_plan(self.offset as nat, left as nat);
            assert(p.drop_first() == chunk_plan((self.offset + chunk) as nat, (left - chunk) as nat));
        }
        self.offset = self.offset + chunk;
    }

    /// The items read, in order.
    pub fn finish(self) -> (r: Vec<T>)
        ensures
            r@ == self.items(),
    {
        self.result
    }
}

} // verus!
