//! The static form of a volumetric field: its integer dimensions and
//! shift beside a compact array of byte-quantized densities, four to a
//! word, ready to be handed to a device buffer.

use vstd::prelude::*;
use crate::fx;
use crate::aabb::Aabb;
use crate::vec3::Vec3;

verus! {

/// One step of the packing fold: a byte is shifted into the open word,
/// and a full word is flushed before the next one starts.
pub open spec fn pack_step_spec(cur: u32, pos: u32, b: u8) -> (u32, u32) {
    let shifted = (b as u32) << ((24 - pos * 8) as u32);
    ((cur | shifted) as u32, (pos + 1) as u32)
}

/// The whole packing fold over the byte list.
pub open spec fn pack_spec(values: Seq<u8>, i: nat, cur: u32, pos: u32, acc: Seq<u32>) -> Seq<
    u32,
>
    decreases values.len() - i,
{
    if i >= values.len() {
        if pos > 0 {
            acc.push(cur)
        } else {
            acc
        }
    } else {
        if pos == 4 {
            let st = pack_step_spec(0, 0, values[i as int]);
            pack_spec(values, i + 1, st.0, st.1, acc.push(cur))
        } else {
            let st = pack_step_spec(cur, pos, values[i as int]);
            pack_spec(values, i + 1, st.0, st.1, acc)
        }
    }
}

/// Byte-quantized densities packed four to a word, high byte first.
pub struct PackedBoolArray {
    pub data: Vec<u32>,
}

impl PackedBoolArray {
    /// Pack a list of byte-quantized densities. The word list is the
    /// exact packing fold of the input, one word per four bytes with a
    /// final partial word when the length is not a multiple of four.
    pub fn from_array(values: &Vec<u8>) -> (r: Self)
        ensures
            r.data@ == pack_spec(values@, 0, 0, 0, Seq::<u32>::empty()),
            values@.len() > 0 ==> r.data@.len() == (values@.len() + 3) / 4,
            values@.len() == 0 ==> r.data@.len() == 0,
    {
        let mut data: Vec<u32> = Vec::new();
        let mut current_block: u32 = 0;
        let mut current_block_pos: u32 = 0;
        let mut i: usize = 0;
        while i < values.len()
            invariant
                i <= values@.len(),
                current_block_pos <= 4,
                i == 0 ==> current_block_pos == 0 && data@.len() == 0,
                i > 0 ==> current_block_pos >= 1,
                i > 0 ==> i == data@.len() * 4 + current_block_pos,
                pack_spec(values@, 0, 0, 0, Seq::<u32>::empty()) == pack_spec(
                    values@,
                    i as nat,
                    current_block,
                    current_block_pos,
                    data@,
                ),
            decreases values@.len() - i,
        {
            let num: u8 = values[i];
            if current_block_pos == 4 {
                data.push(current_block);
                current_block = 0;
                current_block_pos = 0;
            }
            proof {
                assert((24 - current_block_pos * 8) < 32) by (bit_vector)
                    requires
                        current_block_pos < 4,
                ;
            }
            let shifted: u32 = (num as u32) << (24 - current_block_pos * 8);
            current_block = current_block | shifted;
            current_block_pos = current_block_pos + 1;
            i = i + 1;
        }
        if current_block_pos > 0 {
            data.push(current_block);
        }
        proof {
            if values@.len() > 0 {
                assert(data@.len() * 4 >= values@.len() && (data@.len() - 1) * 4 < values@.len());
                vstd::arithmetic::div_mod::lemma_fundamental_div_mod(
                    values@.len() as int + 3,
                    4,
                );
                assert(data@.len() == (values@.len() + 3) / 4) by (nonlinear_arith)
                    requires
                        values@.len() as int + 3 == 4 * ((values@.len() as int + 3) / 4) + (
                        values@.len() as int + 3) % 4,
                        0 <= (values@.len() as int + 3) % 4 < 4,
                        data@.len() * 4 >= values@.len(),
                        (data@.len() - 1) * 4 < values@.len(),
                ;
            }
        }
        Self { data }
    }
}

/// The device-side description of a field: cell counts per axis, the
/// world shift into lattice space, and the local bounding box.
pub struct VolumeGridStatic {
    pub size: (u32, u32, u32),
    pub shift: (i64, i64, i64),
    pub bbox: Aabb,
}

impl VolumeGridStatic {
    /// Build the static description and the packed density words from
    /// the contents of a sparse-volume grid handed over as plain
    /// values: the integer extent corners and the dense list of
    /// byte-quantized samples in row-major order.
    pub fn build_from_vdb_grid(
        min_i: (i64, i64, i64),
        max_i: (i64, i64, i64),
        normalized: &Vec<u8>,
    ) -> (r: (VolumeGridStatic, Vec<u32>))
        requires
            -32768 <= min_i.0 && min_i.0 <= max_i.0 && max_i.0 <= 32767,
            -32768 <= min_i.1 && min_i.1 <= max_i.1 && max_i.1 <= 32767,
            -32768 <= min_i.2 && min_i.2 <= max_i.2 && max_i.2 <= 32767,
            normalized@.len() == (max_i.0 - min_i.0 + 1) * (max_i.1 - min_i.1 + 1) * (max_i.2
                - min_i.2 + 1),
        ensures
            r.0.size.0 == max_i.0 - min_i.0 + 1,
            r.0.size.1 == max_i.1 - min_i.1 + 1,
            r.0.size.2 == max_i.2 - min_i.2 + 1,
            r.0.shift.0 == -min_i.0 && r.0.shift.1 == -min_i.1 && r.0.shift.2 == -min_i.2,
            r.0.bbox.min == (Vec3 { x: 0i64, y: 0i64, z: 0i64 }),
            r.0.bbox.max == (Vec3 {
                x: ((max_i.0 - min_i.0) * fx::ONE) as i64,
                y: ((max_i.1 - min_i.1) * fx::ONE) as i64,
                z: ((max_i.2 - min_i.2) * fx::ONE) as i64,
            }),
            r.1@ == pack_spec(normalized@, 0, 0, 0, Seq::<u32>::empty()),
    {
        let packed: PackedBoolArray = PackedBoolArray::from_array(normalized);
        let st = VolumeGridStatic {
            size: (
                (max_i.0 - min_i.0 + 1) as u32,
                (max_i.1 - min_i.1 + 1) as u32,
                (max_i.2 - min_i.2 + 1) as u32,
            ),
            shift: (-min_i.0, -min_i.1, -min_i.2),
            bbox: Aabb {
                min: Vec3 { x: 0, y: 0, z: 0 },
                max: Vec3 {
                    x: (max_i.0 - min_i.0) * fx::ONE,
                    y: (max_i.1 - min_i.1) * fx::ONE,
                    z: (max_i.2 - min_i.2) * fx::ONE,
                },
            },
        };
        (st, packed.data)
    }
}

} // verus!
