//! Trading-symbol normalisation.
//!
//! Symbols arrive in `BASE/QUOTE` form; the exchange stream URLs want them
//! lower-case with the separator stripped (`ETH/BTC` becomes `ethbtc`).

use vstd::prelude::*;

verus! {

/// The ASCII code of `/`, the pair separator.
pub const SEPARATOR: u8 = 47;

/// An ASCII byte, lower-cased.
pub open spec fn lower_byte(b: u8) -> u8 {
    if 65 <= b <= 90 {
        (b + 32) as u8
    } else {
        b
    }
}

/// A symbol's bytes, lower-cased with every separator removed.
pub open spec fn normalized(s: Seq<u8>) -> Seq<u8>
    decreases s.len(),
{
    if s.len() == 0 {
        Seq::empty()
    } else if s.last() == SEPARATOR {
        normalized(s.drop_last())
    } else {
        normalized(s.drop_last()).push(lower_byte(s.last()))
    }
}

/// Normalises a symbol for URL interpolation: ASCII letters are lower-cased
/// and the pair separator is stripped.
pub fn symbol_code(symbol: &Vec<u8>) -> (out: Vec<u8>)
    ensures
        out@ == normalized(symbol@),
{
    let mut out: Vec<u8> = Vec::new();
    proof {
        assert(symbol@.take(0) =~= Seq::<u8>::empty());
    }
    let mut i: usize = 0;
    while i < symbol.len()
        invariant
            i <= symbol@.len(),
            out@ == normalized(symbol@.take(i as int)),
        decreases symbol@.len() - i,
    {
        proof {
            assert(symbol@.take(i + 1).drop_last() =~= symbol@.take(i as int));
            assert(symbol@.take(i + 1).last() == symbol@[i as int]);
        }
        let b = symbol[i];
        if b != SEPARATOR {
            if 65 <= b && b <= 90 {
                out.push(b + 32);
            } else {
                out.push(b);
            }
        }
        i = i + 1;
    }
    proof {
        assert(symbol@.take(symbol@.len() as int) =~= symbol@);
    }
    out
}

} // verus!
