//! Raw PCM: each sample as four little-endian bytes, in order, with no header.
use crate::binary32::Binary32;
use vstd::prelude::*;

verus! {

/// Byte `k` of a 32-bit pattern, counted from the least significant.
pub open spec fn le_byte(bits: u32, k: int) -> u8 {
    if k == 0 {
        (bits % 0x100) as u8
    } else if k == 1 {
        ((bits / 0x100) % 0x100) as u8
    } else if k == 2 {
        ((bits / 0x1_0000) % 0x100) as u8
    } else {
        (bits / 0x100_0000) as u8
    }
}

/// The bytes of a sample buffer: four for each sample, least significant first.
pub open spec fn pcm_bytes(sequence: Seq<Binary32>) -> Seq<u8> {
    Seq::new(4 * sequence.len(), |j: int| le_byte(sequence[j / 4].bits, j % 4))
}

/// Lays the sample buffer out as raw PCM.
pub fn save(sequence: &[Binary32]) -> (bytes: Vec<u8>)
    ensures
        bytes@ == pcm_bytes(sequence@),
{
    let mut bytes: Vec<u8> = Vec::new();
    let mut i: usize = 0;
    while i < sequence.len()
        invariant
            i <= sequence.len(),
            bytes@ == pcm_bytes(sequence@.take(i as int)),
        decreases sequence.len() - i,
    {
        let bits: u32 = sequence[i].bits;
        let ghost before = bytes@;
        bytes.push((bits % 0x100) as u8);
        bytes.push(((bits / 0x100) % 0x100) as u8);
        bytes.push(((bits / 0x1_0000) % 0x100) as u8);
        bytes.push((bits / 0x100_0000) as u8);
        proof {
            let shorter = sequence@.take(i as int);
            let longer = sequence@.take(i + 1);
            assert(longer.len() == i + 1);
            assert(longer[i as int] == sequence@[i as int]);
            assert forall|j: int| 0 <= j < 4 * (i + 1) implies bytes@[j] == pcm_bytes(longer)[j] by {
                if j < 4 * i {
                    assert(bytes@[j] == before[j]);
                    assert(shorter[j / 4] == longer[j / 4]);
                } else {
                    assert(j / 4 == i);
                }
            }
            assert(bytes@ =~= pcm_bytes(longer));
        }
        i += 1;
    }
    proof {
        assert(sequence@.take(sequence.len() as int) =~= sequence@);
    }
    bytes
}

} // verus!
