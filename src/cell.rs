use vstd::prelude::*;

verus! {

/// Width of one tape cell. Cell values are unsigned and wrap modulo
/// `2^bits` on increment and decrement.
#[derive(Clone, Copy, Debug, PartialEq, Eq, Structural)]
pub enum CellWidth {
    Bits8,
    Bits16,
    Bits32,
    Bits64,
}

impl CellWidth {
    /// The largest value a cell of this width holds.
    pub open spec fn max_spec(self) -> nat {
        match self {
            CellWidth::Bits8 => 0xff,
            CellWidth::Bits16 => 0xffff,
            CellWidth::Bits32 => 0xffff_ffff,
            CellWidth::Bits64 => 0xffff_ffff_ffff_ffff,
        }
    }

    /// The number of distinct cell values: arithmetic is taken modulo this.
    pub open spec fn modulus(self) -> int {
        self.max_spec() as int + 1
    }

    /// A value that a cell of this width can hold.
    pub open spec fn holds(self, v: u64) -> bool {
        v <= self.max_spec()
    }

    /// The cell value after an increment.
    pub open spec fn inc_spec(self, v: u64) -> u64 {
        ((v + 1) % self.modulus()) as u64
    }

    /// The cell value after a decrement.
    pub open spec fn dec_spec(self, v: u64) -> u64 {
        ((v - 1) % self.modulus()) as u64
    }

    pub fn max_value(&self) -> (r: u64)
        ensures
            r == self.max_spec(),
    {
        match self {
            CellWidth::Bits8 => 0xff,
            CellWidth::Bits16 => 0xffff,
            CellWidth::Bits32 => 0xffff_ffff,
            CellWidth::Bits64 => 0xffff_ffff_ffff_ffff,
        }
    }

    /// Wrapping increment: the maximum value goes to zero.
    pub fn increment(&self, v: u64) -> (r: u64)
        requires
            self.holds(v),
        ensures
            r == self.inc_spec(v),
            self.holds(r),
    {
        proof {
            lemma_inc_wraps(*self, v);
        }
        if v == self.max_value() {
            0
        } else {
            v + 1
        }
    }

    /// Wrapping decrement: zero goes to the maximum value.
    pub fn decrement(&self, v: u64) -> (r: u64)
        requires
            self.holds(v),
        ensures
            r == self.dec_spec(v),
            self.holds(r),
    {
        proof {
            lemma_dec_wraps(*self, v);
        }
        if v == 0 {
            self.max_value()
        } else {
            v - 1
        }
    }
}

proof fn lemma_inc_wraps(w: CellWidth, v: u64)
    requires
        w.holds(v),
    ensures
        v == w.max_spec() ==> w.inc_spec(v) == 0,
        v < w.max_spec() ==> w.inc_spec(v) == v + 1,
        w.holds(w.inc_spec(v)),
{
    let m = w.modulus();
    if v == w.max_spec() {
        vstd::arithmetic::div_mod::lemma_mod_self_0(m);
    } else {
        vstd::arithmetic::div_mod::lemma_small_mod((v + 1) as nat, m as nat);
    }
}

proof fn lemma_dec_wraps(w: CellWidth, v: u64)
    requires
        w.holds(v),
    ensures
        v == 0 ==> w.dec_spec(v) == w.max_spec(),
        v > 0 ==> w.dec_spec(v) == v - 1,
        w.holds(w.dec_spec(v)),
{
    let m = w.modulus();
    if v == 0 {
        vstd::arithmetic::div_mod::lemma_mod_add_multiples_vanish(-1, m);
        vstd::arithmetic::div_mod::lemma_small_mod((m - 1) as nat, m as nat);
    } else {
        vstd::arithmetic::div_mod::lemma_small_mod((v - 1) as nat, m as nat);
    }
}

/// Cell arithmetic is addition modulo the cell width: the maximum value
/// increments to zero, zero decrements to the maximum, and increment and
/// decrement undo each other on every value the width holds.
pub proof fn lemma_cell_arithmetic_wraps(w: CellWidth, v: u64)
    requires
        w.holds(v),
    ensures
        w.inc_spec(w.max_spec() as u64) == 0,
        w.dec_spec(0) == w.max_spec(),
        w.dec_spec(w.inc_spec(v)) == v,
        w.inc_spec(w.dec_spec(v)) == v,
        w.inc_spec(v) as int == (v + 1) % w.modulus(),
        w.dec_spec(v) as int == (v - 1) % w.modulus(),
{
    lemma_inc_wraps(w, w.max_spec() as u64);
    lemma_dec_wraps(w, 0);
    lemma_inc_wraps(w, v);
    lemma_dec_wraps(w, v);
    lemma_inc_wraps(w, w.dec_spec(v));
    lemma_dec_wraps(w, w.inc_spec(v));
}

} // verus!
