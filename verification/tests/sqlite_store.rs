use light::{IVec3, SqliteBackend, WorldError, WorldMap, VOLUME};

fn build_payload(entries: &[(u16, &str)], node_data: &[u8]) -> Vec<u8> {
    let mut body: Vec<u8> = Vec::new();
    body.extend_from_slice(&[0, 0, 0, 0, 0, 0, 0, 0]);
    body.extend_from_slice(&(entries.len() as u16).to_be_bytes());
    for (id, name) in entries {
        body.extend_from_slice(&id.to_be_bytes());
        body.extend_from_slice(&(name.len() as u16).to_be_bytes());
        body.extend_from_slice(name.as_bytes());
    }
    body.push(2);
    body.push(2);
    body.extend_from_slice(node_data);
    let mut payload = vec![29u8];
    payload.extend_from_slice(&zstd::encode_all(&body[..], 0).unwrap());
    payload
}

fn prepare_db(path: &str, payload: &[u8]) {
    let conn = rusqlite::Connection::open(path).unwrap();
    conn.execute("DROP TABLE IF EXISTS blocks", []).unwrap();
    conn.execute(
        "CREATE TABLE blocks (x INTEGER, y INTEGER, z INTEGER, data BLOB)",
        [],
    )
    .unwrap();
    conn.execute(
        "INSERT INTO blocks (x, y, z, data) VALUES (?, ?, ?, ?)",
        (0, 2, 0, payload),
    )
    .unwrap();
}

#[test]
fn sqlite_fetch_decodes_stored_block() {
    let mut node_data = vec![0u8; 4 * VOLUME];
    for i in 0..VOLUME {
        node_data[VOLUME + i] = (i % 2) as u8;
    }
    let payload = build_payload(&[(0, "air"), (1, "default:stone")], &node_data);

    let path = "/tmp/light_sqlite_fetch_test.db";
    prepare_db(path, &payload);

    let backend = SqliteBackend::new(path).unwrap();
    let mut map = WorldMap::new(backend);
    let block = map.get_block(IVec3 { x: 0, y: 2, z: 0 }).unwrap();
    assert_eq!(block.get_name_by_id(0), Some("air"));
    assert_eq!(block.get_name_by_id(1), Some("default:stone"));
    let node = block.get_node(IVec3 { x: 1, y: 0, z: 0 });
    assert_eq!(node.id, 1);
}

#[test]
fn sqlite_missing_block_is_not_found() {
    let path = "/tmp/light_sqlite_missing_test.db";
    prepare_db(path, &[29]);

    let backend = SqliteBackend::new(path).unwrap();
    let mut map = WorldMap::new(backend);
    let r = map.get_block(IVec3 { x: 9, y: 9, z: 9 });
    assert!(matches!(r, Err(WorldError::BlockNotFound)));
}
