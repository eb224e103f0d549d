use vstd::prelude::*;
use vstd::string::*;
use crate::digits::{push_decimal, spec_digits};
use crate::strutil::chars_to_string;

verus! {

pub open spec fn fnv_offset_basis() -> u64 {
    0xcbf2_9ce4_8422_2325u64
}

pub open spec fn fnv_prime() -> u64 {
    0x100_0000_01b3u64
}

/// One step of the 64-bit FNV-1a digest, folding in one character's code point.
pub open spec fn fnv_step(h: u64, c: char) -> u64 {
    vstd::wrapping::u64_specs::wrapping_mul(h ^ ((c as u32) as u64), fnv_prime())
}

/// The 64-bit FNV-1a digest of a text: a fast, non-cryptographic digest, so
/// distinct texts may in principle collide.
pub open spec fn spec_digest(s: Seq<char>) -> u64
    decreases s.len(),
{
    if s.len() == 0 {
        fnv_offset_basis()
    } else {
        fnv_step(spec_digest(s.drop_last()), s.last())
    }
}

/// The storage key a bytecode text derives: its digest written in decimal,
/// with the fixed extension.
pub open spec fn spec_cache_key(bytecode: Seq<char>) -> Seq<char> {
    spec_digits(spec_digest(bytecode) as int) + ".json"@
}

pub fn hash_bytecode(s: &str) -> (h: u64)
    ensures
        h == spec_digest(s@),
{
    let n = s.unicode_len();
    let mut h: u64 = 0xcbf2_9ce4_8422_2325u64;
    let mut i: usize = 0;
    proof {
        assert(s@.take(0) =~= Seq::<char>::empty());
    }
    while i < n
        invariant
            n == s@.len(),
            i <= n,
            h == spec_digest(s@.take(i as int)),
        decreases n - i,
    {
        let c = s.get_char(i);
        h = (h ^ ((c as u32) as u64)).wrapping_mul(0x100_0000_01b3u64);
        proof {
            assert(s@.take(i as int + 1).drop_last() =~= s@.take(i as int));
            assert(s@.take(i as int + 1).last() == s@[i as int]);
        }
        i += 1;
    }
    proof {
        assert(s@.take(n as int) =~= s@);
    }
    h
}

/// Derive the stable storage key for a bytecode text. A pure function: no
/// validation of the text is performed and no error can arise.
pub fn derive_cache_key(bytecode: &str) -> (r: String)
    ensures
        r@ == spec_cache_key(bytecode@),
{
    let h = hash_bytecode(bytecode);
    let mut digits_vec: Vec<char> = Vec::new();
    push_decimal(h, &mut digits_vec);
    proof {
        assert(digits_vec@ =~= spec_digits(h as int));
        reveal_strlit(".json");
    }
    let num = chars_to_string(&digits_vec);
    num.concat(".json")
}

/// Identical bytecode texts always derive the identical store key.
pub proof fn lemma_key_stability(a: Seq<char>, b: Seq<char>)
    requires
        a == b,
    ensures
        spec_cache_key(a) == spec_cache_key(b),
{
}

} // verus!
