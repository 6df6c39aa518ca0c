//! Conversions between uplink ACELP speech frames and the STE frame format used on the
//! Brew backhaul (one header byte followed by 35 bytes of packed speech bits).
use vstd::prelude::*;

verus! {

/// Number of ACELP bits in a TCH/S speech frame.
pub const ACELP_BITS: usize = 274;

/// Number of bytes the 274 speech bits occupy when packed (280 bits, last 6 padding).
pub const PACKED_ACELP_BYTES: usize = 35;

/// Length of a complete STE frame: header byte plus packed speech.
pub const STE_FRAME_BYTES: usize = 36;

/// Bit `k` (0 = most significant) of byte `j` of the packed speech: the low bit of unpacked
/// bit `8 * j + k`, zero in the padding past bit 273.
pub open spec fn packed_bit(bits: Seq<u8>, j: int, k: int) -> u8 {
    if 8 * j + k < ACELP_BITS {
        bits[8 * j + k] & 1
    } else {
        0
    }
}

/// The STE frame sent for an uplink speech frame, or `None` when the frame is too short.
/// A 36-byte input already is an STE frame; a 35-byte input is packed speech that gets the
/// normal-speech header 0x00; any other input of at least 274 bytes holds one bit per byte.
pub open spec fn ste_frame_ok(input: Seq<u8>, out: Option<Seq<u8>>) -> bool {
    if input.len() == STE_FRAME_BYTES {
        out == Some(input)
    } else if input.len() == PACKED_ACELP_BYTES {
        out == Some(seq![0u8] + input)
    } else if input.len() < ACELP_BITS {
        out is None
    } else {
        &&& out is Some
        &&& out->0.len() == STE_FRAME_BYTES
        &&& out->0[0] == 0
        &&& forall|j: int, k: int|
            0 <= j < PACKED_ACELP_BYTES && 0 <= k < 8 ==> #[trigger] ((out->0[1 + j] >> (7 - k) as u8) & 1)
                == packed_bit(input, j, k)
    }
}

/// Packs one byte of speech: bits `8 * chunk .. 8 * chunk + 8` of `bits`, most significant
/// first, each taken from the low bit of its input byte.
fn pack_byte(bits: &Vec<u8>, chunk: usize) -> (byte: u8)
    requires
        bits.len() >= ACELP_BITS,
        chunk < PACKED_ACELP_BYTES,
    ensures
        forall|k: int| 0 <= k < 8 ==> #[trigger] ((byte >> (7 - k) as u8) & 1) == packed_bit(bits@, chunk as int, k),
{
    let mut byte: u8 = 0;
    let mut bit: usize = 0;
    assert forall|k: int| 0 <= k < 8 implies #[trigger] ((byte >> (7 - k) as u8) & 1) == 0 by {
        let kk: u8 = (7 - k) as u8;
        assert((0u8 >> kk) & 1 == 0) by (bit_vector);
    }
    while bit < 8
        invariant
            bits.len() >= ACELP_BITS,
            chunk < PACKED_ACELP_BYTES,
            bit <= 8,
            forall|k: int| 0 <= k < bit ==> #[trigger] ((byte >> (7 - k) as u8) & 1) == packed_bit(bits@, chunk as int, k),
            forall|k: int| bit <= k < 8 ==> #[trigger] ((byte >> (7 - k) as u8) & 1) == 0,
        decreases 8 - bit,
    {
        let bit_idx = chunk * 8 + bit;
        let raw: u8 = if bit_idx < ACELP_BITS {
            bits[bit_idx]
        } else {
            0
        };
        let v: u8 = raw & 1;
        let old_byte = byte;
        let sh: u8 = (7 - bit) as u8;
        assert((old_byte >> sh) & 1 == 0);
        byte = byte | (v << sh);
        proof {
            assert(v <= 1) by (bit_vector)
                requires
                    v == raw & 1,
            ;
            if bit_idx >= ACELP_BITS {
                assert(v == 0) by (bit_vector)
                    requires
                        v == raw & 1,
                        raw == 0,
                ;
            }
            assert(v == packed_bit(bits@, chunk as int, bit as int));
            assert forall|k: int| 0 <= k < 8 implies #[trigger] ((byte >> (7 - k) as u8) & 1) == (if k == bit {
                v
            } else {
                (old_byte >> (7 - k) as u8) & 1
            }) by {
                let kk: u8 = (7 - k) as u8;
                assert(((old_byte | (v << sh)) >> kk) & 1 == (if kk == sh {
                    v
                } else {
                    (old_byte >> kk) & 1
                })) by (bit_vector)
                    requires
                        v <= 1,
                        sh < 8,
                        kk < 8,
                        (old_byte >> sh) & 1 == 0,
                ;
            }
        }
        bit = bit + 1;
    }
    byte
}

/// Converts an uplink speech frame to the STE frame sent over Brew (see `ste_frame_ok`).
pub fn ste_from_uplink(acelp_bits: Vec<u8>) -> (out: Option<Vec<u8>>)
    ensures
        ste_frame_ok(acelp_bits@, match out {
            Some(v) => Some(v@),
            None => None,
        }),
{
    if acelp_bits.len() == STE_FRAME_BYTES {
        Some(acelp_bits)
    } else if acelp_bits.len() == PACKED_ACELP_BYTES {
        let mut ste: Vec<u8> = Vec::with_capacity(STE_FRAME_BYTES);
        ste.push(0u8);
        let mut i: usize = 0;
        while i < acelp_bits.len()
            invariant
                acelp_bits.len() == PACKED_ACELP_BYTES,
                i <= acelp_bits.len(),
                ste@ == seq![0u8] + acelp_bits@.take(i as int),
            decreases acelp_bits.len() - i,
        {
            ste.push(acelp_bits[i]);
            proof {
                assert(acelp_bits@.take(i + 1) =~= acelp_bits@.take(i as int).push(acelp_bits@[i as int]));
            }
            i = i + 1;
        }
        proof {
            assert(acelp_bits@.take(i as int) =~= acelp_bits@);
        }
        Some(ste)
    } else if acelp_bits.len() < ACELP_BITS {
        None
    } else {
        let mut ste: Vec<u8> = Vec::with_capacity(STE_FRAME_BYTES);
        ste.push(0u8);
        let mut chunk: usize = 0;
        while chunk < PACKED_ACELP_BYTES
            invariant
                acelp_bits.len() >= ACELP_BITS,
                chunk <= PACKED_ACELP_BYTES,
                ste.len() == chunk + 1,
                ste@[0] == 0,
                forall|j: int, k: int|
                    0 <= j < chunk && 0 <= k < 8 ==> #[trigger] ((ste@[1 + j] >> (7 - k) as u8) & 1)
                        == packed_bit(acelp_bits@, j, k),
            decreases PACKED_ACELP_BYTES - chunk,
        {
            let byte = pack_byte(&acelp_bits, chunk);
            ste.push(byte);
            chunk = chunk + 1;
        }
        Some(ste)
    }
}

/// The speech payload queued for downlink playout from a received STE frame: the frame
/// without its header byte, or `None` when it is shorter than a full STE frame.
pub fn acelp_from_ste(data: &Vec<u8>) -> (out: Option<Vec<u8>>)
    ensures
        data.len() < STE_FRAME_BYTES ==> out is None,
        data.len() >= STE_FRAME_BYTES ==> out is Some && out->0@ == data@.subrange(1, data.len() as int),
{
    if data.len() < STE_FRAME_BYTES {
        return None;
    }
    let mut out: Vec<u8> = Vec::with_capacity(data.len() - 1);
    let mut i: usize = 1;
    while i < data.len()
        invariant
            1 <= i <= data.len(),
            out@ == data@.subrange(1, i as int),
        decreases data.len() - i,
    {
        out.push(data[i]);
        proof {
            assert(data@.subrange(1, i + 1) =~= data@.subrange(1, i as int).push(data@[i as int]));
        }
        i = i + 1;
    }
    Some(out)
}

} // verus!
