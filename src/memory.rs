//! The flat byte store behind the machine's address space.

use vstd::prelude::*;

verus! {

/// A fixed-size array of bytes.
pub struct Memory(Vec<u8>);

impl View for Memory {
    type V = Seq<u8>;

    closed spec fn view(&self) -> Seq<u8> {
        self.0@
    }
}

impl Memory {
    /// Every address of the store fits in 16 bits.
    pub open spec fn wf(&self) -> bool {
        self@.len() <= u16::MAX
    }

    pub fn new(sz: u16) -> (r: Memory)
        ensures
            r.wf(),
            r@ == Seq::new(sz as nat, |i: int| 0u8),
    {
        let mut v: Vec<u8> = Vec::with_capacity(sz as usize);
        let mut i: u16 = 0;
        while i < sz
            invariant
                i <= sz,
                v@ == Seq::new(i as nat, |k: int| 0u8),
            decreases sz - i,
        {
            v.push(0);
            i = i + 1;
            assert(v@ =~= Seq::new(i as nat, |k: int| 0u8));
        }
        Memory(v)
    }

    /// Copies `data` into the cells from `from` on.
    pub fn load(&mut self, from: u16, data: &[u8])
        requires
            old(self).wf(),
            from + data@.len() <= old(self)@.len(),
        ensures
            final(self).wf(),
            final(self)@ == old(self)@.take(from as int) + data@ + old(self)@.skip(
                from + data@.len(),
            ),
    {
        let mut i: usize = 0;
        while i < data.len()
            invariant
                old(self).wf(),
                from + data@.len() <= old(self)@.len(),
                self@.len() == old(self)@.len(),
                i <= data@.len(),
                forall|k: int| 0 <= k < from ==> self@[k] == old(self)@[k],
                forall|k: int| 0 <= k < i ==> self@[from + k] == data@[k],
                forall|k: int| from + i <= k < self@.len() ==> self@[k] == old(self)@[k],
            decreases data@.len() - i,
        {
            self.write(from + (i as u16), data[i]);
            i = i + 1;
        }
        assert(self@ =~= old(self)@.take(from as int) + data@ + old(self)@.skip(
            from + data@.len(),
        ));
    }

    pub fn read(&self, addr: u16) -> (r: u8)
        requires
            addr < self@.len(),
        ensures
            r == self@[addr as int],
    {
        self.0[addr as usize]
    }

    pub fn write(&mut self, addr: u16, val: u8)
        requires
            addr < old(self)@.len(),
        ensures
            old(self).wf() ==> final(self).wf(),
            final(self)@ == old(self)@.update(addr as int, val),
    {
        self.0[addr as usize] = val;
    }
}

} // verus!
