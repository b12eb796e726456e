use vstd::prelude::*;

verus! {

/// One CRAM or BRAM data block exactly as it arrived on the wire: the
/// geometry that was current when the block was read, and the raw data
/// bytes.  The store keeps every block; a cell's value is decided by the
/// last block that wrote it, so the store as a whole is the lazily
/// populated bank-indexed bit matrix.
pub struct BlockWrite {
    pub bank: u128,
    pub width: u128,
    pub height: u128,
    pub offset: u128,
    pub data: Vec<u8>,
}

/// Mathematical image of one block write.
#[verifier::ext_equal]
pub ghost struct SpecWrite {
    pub bank: nat,
    pub width: nat,
    pub height: nat,
    pub offset: nat,
    pub data: Seq<u8>,
}

impl View for BlockWrite {
    type V = SpecWrite;

    open spec fn view(&self) -> SpecWrite {
        SpecWrite {
            bank: self.bank as nat,
            width: self.width as nat,
            height: self.height as nat,
            offset: self.offset as nat,
            data: self.data@,
        }
    }
}

/// Value of bit `j` of a byte, counting the most significant bit as
/// bit 0, the order in which block bytes map to cells.
pub open spec fn byte_bit(b: u8, j: u8) -> bool {
    ((b >> ((7 - j) as u8)) & 1) == 1
}

impl SpecWrite {
    /// The data holds exactly one bit per cell of the declared
    /// width-by-height rectangle, eight cells per byte.
    pub open spec fn wf(self) -> bool {
        self.width * self.height == 8 * self.data.len()
    }

    /// Does this write assign a value to cell (x, y) of `bank`?
    pub open spec fn covers(self, bank: nat, x: nat, y: nat) -> bool {
        &&& self.bank == bank
        &&& x < self.width
        &&& self.offset <= y
        &&& y < self.offset + self.height
    }

    /// The value this write assigns to cell (x, y): bit index
    /// i = (y - offset) * width + x, taken most-significant-bit first
    /// from the data bytes.
    pub open spec fn bit_at(self, x: nat, y: nat) -> bool {
        let i = (y - self.offset) * self.width + x;
        byte_bit(self.data[i / 8], (i % 8) as u8)
    }
}

/// The bit a sequence of block writes leaves in cell (x, y) of `bank`:
/// the value given by the last write covering the cell, or false if no
/// write ever touched it.
pub open spec fn store_cell(ws: Seq<SpecWrite>, bank: nat, x: nat, y: nat) -> bool
    decreases ws.len(),
{
    if ws.len() == 0 {
        false
    } else if ws.last().covers(bank, x, y) {
        ws.last().bit_at(x, y)
    } else {
        store_cell(ws.drop_last(), bank, x, y)
    }
}

/// Growable, bank-indexed bit storage for CRAM or BRAM, populated one
/// block at a time as blocks arrive in the command stream.
pub struct BitStore {
    pub writes: Vec<BlockWrite>,
}

impl View for BitStore {
    type V = Seq<SpecWrite>;

    open spec fn view(&self) -> Seq<SpecWrite> {
        self.writes@.map_values(|w: BlockWrite| w@)
    }
}

impl BitStore {
    pub open spec fn wf(self) -> bool {
        forall|i: int| 0 <= i < self@.len() ==> (#[trigger] self@[i]).wf()
    }

    pub fn new() -> (s: BitStore)
        ensures
            s@ == Seq::<SpecWrite>::empty(),
            s.wf(),
    {
        let s = BitStore { writes: Vec::new() };
        proof {
            assert(s@ =~= Seq::<SpecWrite>::empty());
        }
        s
    }

    pub fn push_write(&mut self, w: BlockWrite)
        ensures
            final(self)@ == old(self)@.push(w@),
    {
        self.writes.push(w);
        proof {
            assert(self@ =~= old(self)@.push(self.writes@.last()@)) by {
                assert(forall|i: int|
                    0 <= i < self@.len() ==> self@[i] == #[trigger] self.writes@[i]@);
            }
        }
    }

    /// The current value of cell (x, y) of `bank`.
    pub fn cell(&self, bank: u128, x: u128, y: u128) -> (b: bool)
        requires
            self.wf(),
        ensures
            b == store_cell(self@, bank as nat, x as nat, y as nat),
    {
        let ghost target = store_cell(self@, bank as nat, x as nat, y as nat);
        let mut i: usize = self.writes.len();
        proof {
            assert(self@.take(i as int) =~= self@);
        }
        loop
            invariant
                i <= self.writes.len(),
                self.wf(),
                self@.len() == self.writes@.len(),
                target == store_cell(self@, bank as nat, x as nat, y as nat),
                store_cell(self@.take(i as int), bank as nat, x as nat, y as nat) == target,
            decreases i,
        {
            if i == 0 {
                return false;
            }
            i = i - 1;
            let w = &self.writes[i];
            proof {
                assert(self@.take(i as int + 1).last() == self@[i as int]);
                assert(self@.take(i as int + 1).drop_last() =~= self@.take(i as int));
                assert(self@[i as int].wf());
            }
            if w.bank == bank && x < w.width && y >= w.offset && y - w.offset < w.height {
                let row: u128 = y - w.offset;
                let dlen: usize = w.data.len();
                proof {
                    assert(self@[i as int] == self.writes@[i as int]@);
                    let wd = w.width as int;
                    let ht = w.height as int;
                    assert(w.data@.len() == dlen as int);
                    assert(wd * ht == 8 * w.data@.len());
                    assert((row as int) * wd <= (ht - 1) * wd) by {
                        vstd::arithmetic::mul::lemma_mul_inequality(row as int, ht - 1, wd);
                    }
                    assert((ht - 1) * wd == wd * ht - wd) by (nonlinear_arith);
                    assert((row as int) * wd + (x as int) < 8 * w.data@.len());
                    assert(((row as int) * wd + (x as int)) / 8 < w.data@.len()) by {
                        vstd::arithmetic::div_mod::lemma_multiply_divide_lt(
                            (row as int) * wd + (x as int),
                            8,
                            w.data@.len() as int,
                        );
                    }
                }
                let idx: u128 = row * w.width + x;
                let byte: u8 = w.data[(idx / 8) as usize];
                let sh: u8 = (idx % 8) as u8;
                let b: bool = ((byte >> (7 - sh)) & 1) == 1;
                proof {
                    assert(self@[i as int].covers(bank as nat, x as nat, y as nat));
                    assert(b == self@[i as int].bit_at(x as nat, y as nat));
                }
                return b;
            }
            proof {
                assert(!self@[i as int].covers(bank as nat, x as nat, y as nat));
            }
        }
    }
}

} // verus!
