use light::{block_to_grid, Block, GlobalMapping, VOLUME};

fn build_payload(entries: &[(u16, &str)], node_data: &[u8]) -> Vec<u8> {
    let mut body: Vec<u8> = Vec::new();
    body.extend_from_slice(&[0, 0, 0, 0, 0, 0, 0, 0]);
    body.extend_from_slice(&(entries.len() as u16).to_be_bytes());
    for (id, name) in entries {
        body.extend_from_slice(&id.to_be_bytes());
        body.extend_from_slice(&(name.len() as u16).to_be_bytes());
        body.extend_from_slice(name.as_bytes());
    }
    body.push(2);
    body.push(2);
    body.extend_from_slice(node_data);
    let mut payload = vec![29u8];
    payload.extend_from_slice(&zstd::encode_all(&body[..], 0).unwrap());
    payload
}

#[test]
fn grid_packs_global_ids_and_params() {
    let mut node_data = vec![0u8; 4 * VOLUME];
    for i in 0..VOLUME {
        node_data[VOLUME + i] = (i % 3) as u8; // local ids 0, 1, 2
        node_data[2 * VOLUME + i] = (i % 7) as u8; // param1
        node_data[3 * VOLUME + i] = (i % 11) as u8; // param2
    }
    let entries = [(0u16, "air"), (1u16, "default:stone"), (2u16, "default:dirt")];
    let block = Block::parse_data(&build_payload(&entries, &node_data)).unwrap();

    let mut gm = GlobalMapping::new();
    let air_id = gm.get_or_insert_id("air");
    assert_eq!(air_id, 0);

    let grid = block_to_grid(&block, &mut gm);
    assert_eq!(grid.len(), VOLUME);

    // Interning order: "air" was interned first, then the first voxels with
    // local ids 1 and 2 intern their names in index order.
    let stone = gm.get_or_insert_id("default:stone");
    let dirt = gm.get_or_insert_id("default:dirt");
    assert_eq!(stone, 1);
    assert_eq!(dirt, 2);
    assert_eq!(gm.len(), 3);

    for i in 0..VOLUME {
        let gid = (i % 3) as u32;
        let expected = (gid << 16) | ((i % 7) as u32) | ((i % 11) as u32);
        assert_eq!(grid[i], expected, "cell {i}");
    }
}
