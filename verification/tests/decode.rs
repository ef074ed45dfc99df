use light::{Block, IVec3, WorldError, VOLUME};

fn build_body(entries: &[(u16, &str)], node_data: &[u8]) -> Vec<u8> {
    let mut body: Vec<u8> = Vec::new();
    body.push(0); // flags
    body.extend_from_slice(&[0, 0]); // lighting complete
    body.extend_from_slice(&[0, 0, 0, 0]); // timestamp
    body.push(0); // mapping version
    body.extend_from_slice(&(entries.len() as u16).to_be_bytes());
    for (id, name) in entries {
        body.extend_from_slice(&id.to_be_bytes());
        body.extend_from_slice(&(name.len() as u16).to_be_bytes());
        body.extend_from_slice(name.as_bytes());
    }
    body.push(2); // content width
    body.push(2); // params width
    body.extend_from_slice(node_data);
    body
}

fn compress(version: u8, body: &[u8]) -> Vec<u8> {
    let mut payload = vec![version];
    payload.extend_from_slice(&zstd::encode_all(body, 0).unwrap());
    payload
}

fn sample_node_data() -> Vec<u8> {
    let mut node_data = vec![0u8; 4 * VOLUME];
    for i in 0..VOLUME {
        node_data[i] = (i % 3) as u8; // id high byte
        node_data[VOLUME + i] = (i % 5) as u8; // id low byte
        node_data[2 * VOLUME + i] = (i % 7) as u8; // param1
        node_data[3 * VOLUME + i] = (i % 11) as u8; // param2
    }
    node_data
}

#[test]
fn decode_round_trip_all_positions() {
    let node_data = sample_node_data();
    let entries = [(0u16, "air"), (1u16, "default:stone"), (2u16, "default:dirt")];
    let payload = compress(29, &build_body(&entries, &node_data));

    let block = Block::parse_data(&payload).unwrap();

    for z in 0..16i32 {
        for y in 0..16i32 {
            for x in 0..16i32 {
                let i = (z * 256 + y * 16 + x) as usize;
                let node = block.get_node(IVec3 { x, y, z });
                let expect_id = ((node_data[i] as u16) << 8) | (node_data[VOLUME + i] as u16);
                assert_eq!(node.id, expect_id);
                assert_eq!(node.param1, node_data[2 * VOLUME + i]);
                assert_eq!(node.param2, node_data[3 * VOLUME + i]);
            }
        }
    }
    assert_eq!(block.get_name_by_id(0), Some("air"));
    assert_eq!(block.get_name_by_id(1), Some("default:stone"));
    assert_eq!(block.get_name_by_id(2), Some("default:dirt"));
    assert_eq!(block.get_name_by_id(3), None);
}

#[test]
fn low_version_rejected() {
    let node_data = sample_node_data();
    let payload = compress(28, &build_body(&[(0, "air")], &node_data));
    assert!(matches!(
        Block::parse_data(&payload),
        Err(WorldError::UnsupportedVersion(28))
    ));
    // The remaining bytes' content does not matter.
    assert!(matches!(
        Block::parse_data(&[5, 1, 2, 3]),
        Err(WorldError::UnsupportedVersion(5))
    ));
    assert!(matches!(
        Block::parse_data(&[0]),
        Err(WorldError::UnsupportedVersion(0))
    ));
}

#[test]
fn truncated_node_data_is_io() {
    let node_data = sample_node_data();
    let mut body = build_body(&[(0, "air")], &node_data);
    body.pop(); // drop the final byte of the node-data section
    let payload = compress(29, &body);
    assert!(matches!(Block::parse_data(&payload), Err(WorldError::Io)));
}

#[test]
fn invalid_utf8_name_rejected() {
    let node_data = sample_node_data();
    let mut body: Vec<u8> = Vec::new();
    body.extend_from_slice(&[0, 0, 0, 0, 0, 0, 0, 0]); // header fields
    body.extend_from_slice(&1u16.to_be_bytes()); // one mapping entry
    body.extend_from_slice(&0u16.to_be_bytes()); // id 0
    body.extend_from_slice(&2u16.to_be_bytes()); // name length 2
    body.extend_from_slice(&[0xff, 0xfe]); // not valid UTF-8
    body.push(2);
    body.push(2);
    body.extend_from_slice(&node_data);
    let payload = compress(29, &body);
    assert!(matches!(
        Block::parse_data(&payload),
        Err(WorldError::InvalidUtf8)
    ));
}

#[test]
fn empty_payload_is_io() {
    assert!(matches!(Block::parse_data(&[]), Err(WorldError::Io)));
}

#[test]
fn bad_compressed_stream_is_io() {
    // Version byte is fine, but what follows is no Zstandard stream.
    let payload = vec![29u8, 1, 2, 3, 4];
    assert!(matches!(Block::parse_data(&payload), Err(WorldError::Io)));
}

#[test]
fn truncated_mapping_table_is_io() {
    let mut body: Vec<u8> = Vec::new();
    body.extend_from_slice(&[0, 0, 0, 0, 0, 0, 0, 0]);
    body.extend_from_slice(&3u16.to_be_bytes()); // promises three entries
    body.extend_from_slice(&0u16.to_be_bytes()); // but holds only one
    body.extend_from_slice(&3u16.to_be_bytes());
    body.extend_from_slice(b"air");
    let payload = compress(29, &body);
    assert!(matches!(Block::parse_data(&payload), Err(WorldError::Io)));
}

#[test]
fn duplicate_local_id_overwrites() {
    let node_data = sample_node_data();
    let entries = [(7u16, "first"), (7u16, "second")];
    let payload = compress(29, &build_body(&entries, &node_data));
    let block = Block::parse_data(&payload).unwrap();
    assert_eq!(block.get_name_by_id(7), Some("second"));
}

#[test]
fn trailing_bytes_after_node_data_accepted() {
    let node_data = sample_node_data();
    let mut body = build_body(&[(0, "air")], &node_data);
    body.extend_from_slice(&[9, 9, 9]);
    let payload = compress(29, &body);
    let block = Block::parse_data(&payload).unwrap();
    assert_eq!(block.get_name_by_id(0), Some("air"));
}
