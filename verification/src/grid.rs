use vstd::prelude::*;
use crate::block::{Block, BlockView, IVec3, VOLUME};
use crate::node::GlobalMapping;

verus! {

/// The packed cell value for one voxel: the global id in the high 16 bits,
/// param1 and param2 folded into the low bits.
pub open spec fn spec_grid_cell(gid: u16, param1: u8, param2: u8) -> u32 {
    ((gid as u32) << 16) | (param1 as u32) | (param2 as u32)
}

/// Whether `v` is the correct cell value for flat index `i` of the block,
/// with the voxel's name interned at some id of the table `names`.
pub open spec fn cell_ok(bv: BlockView, names: Seq<Seq<char>>, v: u32, i: int) -> bool {
    let n = Block::spec_node(bv, i);
    exists|g: int|
        0 <= g < names.len() && names[g] == bv.mappings[n.id] && v == spec_grid_cell(
            g as u16,
            n.param1,
            n.param2,
        )
}

/// A correct cell stays correct while the interning table grows.
proof fn lemma_cell_ok_prefix(bv: BlockView, a: Seq<Seq<char>>, b: Seq<Seq<char>>, v: u32, i: int)
    requires
        cell_ok(bv, a, v, i),
        a.is_prefix_of(b),
    ensures
        cell_ok(bv, b, v, i),
{
    let n = Block::spec_node(bv, i);
    let g = choose|g: int|
        0 <= g < a.len() && a[g] == bv.mappings[n.id] && v == spec_grid_cell(
            g as u16,
            n.param1,
            n.param2,
        );
    assert(a =~= b.subrange(0, a.len() as int));
    assert(b[g] == bv.mappings[n.id]);
}

/// Prefixes of prefixes are prefixes.
proof fn lemma_prefix_trans(a: Seq<Seq<char>>, b: Seq<Seq<char>>, c: Seq<Seq<char>>)
    requires
        a.is_prefix_of(b),
        b.is_prefix_of(c),
    ensures
        a.is_prefix_of(c),
{
    assert(a =~= c.subrange(0, a.len() as int));
}

/// Translates one decoded block into a flat grid of packed cell values, one
/// per voxel in `z * 256 + y * 16 + x` order, interning every voxel's name in
/// the global table. Every node id of the block must be named by the block's
/// own mapping table, and the table must have room for the block's names.
pub fn block_to_grid(block: &Block, global_mapping: &mut GlobalMapping) -> (r: Vec<u32>)
    requires
        block.wf(),
        old(global_mapping).wf(),
        forall|i: int|
            0 <= i < VOLUME ==> #[trigger] block@.mappings.contains_key(
                Block::spec_node(block@, i).id,
            ),
        old(global_mapping)@.len() + VOLUME <= 65535,
    ensures
        final(global_mapping).wf(),
        old(global_mapping)@.is_prefix_of(final(global_mapping)@),
        r@.len() == VOLUME,
        forall|i: int| 0 <= i < VOLUME ==> #[trigger] cell_ok(
            block@,
            final(global_mapping)@,
            r@[i],
            i,
        ),
{
    let ghost g0 = old(global_mapping)@;
    let mut data: Vec<u32> = Vec::new();
    let mut z: i32 = 0;
    while z < 16
        invariant
            0 <= z <= 16,
            data@.len() == z * 256,
            block.wf(),
            global_mapping.wf(),
            g0.is_prefix_of(global_mapping@),
            global_mapping@.len() <= g0.len() + data@.len(),
            g0.len() + VOLUME <= 65535,
            forall|i: int|
                0 <= i < VOLUME ==> #[trigger] block@.mappings.contains_key(
                    Block::spec_node(block@, i).id,
                ),
            forall|i: int| 0 <= i < data@.len() ==> #[trigger] cell_ok(
                block@,
                global_mapping@,
                data@[i],
                i,
            ),
        decreases 16 - z,
    {
        let mut y: i32 = 0;
        while y < 16
            invariant
                0 <= z < 16,
                0 <= y <= 16,
                data@.len() == z * 256 + y * 16,
                block.wf(),
                global_mapping.wf(),
                g0.is_prefix_of(global_mapping@),
                global_mapping@.len() <= g0.len() + data@.len(),
                g0.len() + VOLUME <= 65535,
                forall|i: int|
                    0 <= i < VOLUME ==> #[trigger] block@.mappings.contains_key(
                        Block::spec_node(block@, i).id,
                    ),
                forall|i: int| 0 <= i < data@.len() ==> #[trigger] cell_ok(
                    block@,
                    global_mapping@,
                    data@[i],
                    i,
                ),
            decreases 16 - y,
        {
            let mut x: i32 = 0;
            while x < 16
                invariant
                    0 <= z < 16,
                    0 <= y < 16,
                    0 <= x <= 16,
                    data@.len() == z * 256 + y * 16 + x,
                    block.wf(),
                    global_mapping.wf(),
                    g0.is_prefix_of(global_mapping@),
                    global_mapping@.len() <= g0.len() + data@.len(),
                    g0.len() + VOLUME <= 65535,
                    forall|i: int|
                        0 <= i < VOLUME ==> #[trigger] block@.mappings.contains_key(
                            Block::spec_node(block@, i).id,
                        ),
                    forall|i: int| 0 <= i < data@.len() ==> #[trigger] cell_ok(
                        block@,
                        global_mapping@,
                        data@[i],
                        i,
                    ),
                decreases 16 - x,
            {
                let ghost before = global_mapping@;
                let ghost idx = data@.len() as int;
                let node = block.get_node(IVec3 { x, y, z });
                proof {
                    assert(Block::spec_node_index(IVec3 { x, y, z }) == idx);
                    assert(block@.mappings.contains_key(Block::spec_node(block@, idx).id));
                }
                let name = match block.get_name_by_id(node.id) {
                    Some(s) => s,
                    None => {
                        proof {
                            assert(false);
                        }
                        ""
                    },
                };
                let gid = global_mapping.get_or_insert_id(name);
                let value: u32 = ((gid as u32) << 16) | (node.param1 as u32) | (node.param2
                    as u32);
                proof {
                    lemma_prefix_trans(g0, before, global_mapping@);
                    assert(global_mapping@[gid as int] == block@.mappings[Block::spec_node(
                        block@,
                        idx,
                    ).id]);
                    assert(cell_ok(block@, global_mapping@, value, idx)) by {
                        assert(0 <= gid < global_mapping@.len() && global_mapping@[gid as int]
                            == block@.mappings[Block::spec_node(block@, idx).id] && value
                            == spec_grid_cell(gid, Block::spec_node(block@, idx).param1,
                            Block::spec_node(block@, idx).param2));
                    }
                    assert forall|i: int| 0 <= i < data@.len() implies #[trigger] cell_ok(
                        block@,
                        global_mapping@,
                        data@[i],
                        i,
                    ) by {
                        lemma_cell_ok_prefix(block@, before, global_mapping@, data@[i], i);
                    }
                }
                data.push(value);
                x = x + 1;
            }
            y = y + 1;
        }
        z = z + 1;
    }
    data
}

} // verus!
