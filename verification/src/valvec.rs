//! Compact storage for decoded signal values.
//!
//! A `Value` packs four two-bit symbols per byte (`00`=0, `01`=1, `10`=X,
//! `11`=Z), symbol `i` sitting at bit position `(i % 4) * 2` within byte
//! `i / 4`.  Real-typed values carry their raw 8-byte payload instead.

use vstd::prelude::*;

verus! {

/// One decoded value: `ceil(bits / 4)` packed bytes for a bit vector, or the
/// 8 raw bytes of a real.
#[derive(Clone, Debug)]
pub struct Value(pub Vec<u8>);

/// One value per value-change block, in block order.
pub type ValVec = Vec<Value>;

/// A decoded wave: (time, value) pairs in non-decreasing time order.
pub type ValAndTimeVec = Vec<(u64, Value)>;

impl View for Value {
    type V = Seq<u8>;

    open spec fn view(&self) -> Seq<u8> {
        self.0@
    }
}

impl Value {
    /// An owned copy of this value's bytes.
    pub fn duplicate(&self) -> (r: Value)
        ensures
            r@ == self@,
    {
        let mut out: Vec<u8> = Vec::new();
        let mut i: usize = 0;
        while i < self.0.len()
            invariant
                i <= self.0@.len(),
                out@ == self.0@.subrange(0, i as int),
            decreases self.0@.len() - i,
        {
            out.push(self.0[i]);
            proof {
                assert(out@ =~= self.0@.subrange(0, i + 1));
            }
            i = i + 1;
        }
        proof {
            assert(out@ =~= self.0@);
        }
        Value(out)
    }
}

impl PartialEq for Value {
    fn eq(&self, other: &Value) -> (r: bool) {
        let r = self.0 == other.0;
        proof {
            if self.0@.len() == other.0@.len() && (forall|i: int|
                0 <= i < self.0@.len() ==> self.0@[i] == other.0@[i]) {
                assert(self.0@ =~= other.0@);
            }
        }
        r
    }
}

impl vstd::std_specs::cmp::PartialEqSpecImpl for Value {
    open spec fn obeys_eq_spec() -> bool {
        true
    }

    open spec fn eq_spec(&self, other: &Value) -> bool {
        self.0@ == other.0@
    }
}

/// The two-bit symbol at index `i` of a packed byte string.
pub open spec fn symbol_at(bytes: Seq<u8>, i: int) -> u8
    recommends
        0 <= i,
        i / 4 < bytes.len(),
{
    (bytes[i / 4] >> ((2 * (i % 4)) as u8)) & 3
}

/// The symbol at index `i` of `syms`, or 0 past its end (the padding of a
/// final partial byte).
pub open spec fn sym_or_zero(syms: Seq<u8>, i: int) -> u8 {
    if 0 <= i < syms.len() {
        syms[i]
    } else {
        0
    }
}

/// The packed byte holding symbols `4j .. 4j + 4`.
pub open spec fn pack_byte(syms: Seq<u8>, j: int) -> u8 {
    sym_or_zero(syms, 4 * j) | (sym_or_zero(syms, 4 * j + 1) << 2) | (sym_or_zero(syms, 4 * j + 2)
        << 4) | (sym_or_zero(syms, 4 * j + 3) << 6)
}

/// Pack a sequence of two-bit symbols, four per byte, LSB-first groups.
pub open spec fn pack_symbols(syms: Seq<u8>) -> Seq<u8> {
    Seq::new(((syms.len() + 3) / 4) as nat, |j: int| pack_byte(syms, j))
}

/// Packing symmetry: for any sequence of symbols over {0, 1, X, Z}, the
/// packed bytes decoded symbol-by-symbol give the sequence back; byte `j`
/// holds symbols `4j .. 4j + 4` in LSB-first two-bit groups.
pub proof fn lemma_pack_symbols_round_trip(syms: Seq<u8>, i: int)
    requires
        forall|k: int| 0 <= k < syms.len() ==> syms[k] < 4,
        0 <= i < syms.len(),
    ensures
        pack_symbols(syms).len() == (syms.len() + 3) / 4,
        symbol_at(pack_symbols(syms), i) == syms[i],
{
    let j = i / 4;
    let r = i % 4;
    let s0 = sym_or_zero(syms, 4 * j);
    let s1 = sym_or_zero(syms, 4 * j + 1);
    let s2 = sym_or_zero(syms, 4 * j + 2);
    let s3 = sym_or_zero(syms, 4 * j + 3);
    let b = pack_byte(syms, j);
    assert(0 <= j < pack_symbols(syms).len());
    assert(pack_symbols(syms)[j] == b);
    assert(4 * j + r == i);
    if r == 0 {
        assert((b >> 0u8) & 3 == s0) by (bit_vector)
            requires
                b == s0 | (s1 << 2) | (s2 << 4) | (s3 << 6),
                s0 < 4 && s1 < 4 && s2 < 4 && s3 < 4,
        ;
    } else if r == 1 {
        assert((b >> 2u8) & 3 == s1) by (bit_vector)
            requires
                b == s0 | (s1 << 2) | (s2 << 4) | (s3 << 6),
                s0 < 4 && s1 < 4 && s2 < 4 && s3 < 4,
        ;
    } else if r == 2 {
        assert((b >> 4u8) & 3 == s2) by (bit_vector)
            requires
                b == s0 | (s1 << 2) | (s2 << 4) | (s3 << 6),
                s0 < 4 && s1 < 4 && s2 < 4 && s3 < 4,
        ;
    } else {
        assert((b >> 6u8) & 3 == s3) by (bit_vector)
            requires
                b == s0 | (s1 << 2) | (s2 << 4) | (s3 << 6),
                s0 < 4 && s1 < 4 && s2 < 4 && s3 < 4,
        ;
    }
}

} // verus!
