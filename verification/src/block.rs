use vstd::prelude::*;
use vstd::slice::slice_to_vec;
use vstd::utf8::{decode_utf8, valid_utf8};
use std::collections::HashMap;
use crate::error::WorldError;

verus! {

broadcast use vstd::std_specs::hash::group_hash_axioms;

/// Number of voxels in one block: a block is a 16 x 16 x 16 grid.
pub const VOLUME: usize = 4096;

/// A signed 3-component integer vector: a block coordinate in the world, or a
/// voxel position local to one block.
#[derive(Clone, Copy, PartialEq, Eq, Structural, Debug)]
pub struct IVec3 {
    pub x: i32,
    pub y: i32,
    pub z: i32,
}

/// One voxel's state, composed on query from the four node-data planes.
#[derive(Clone, Copy, PartialEq, Eq, Structural, Debug)]
pub struct Node {
    pub id: u16,
    pub param1: u8,
    pub param2: u8,
}

/// Mathematical content of a decoded block: the block-local id-to-name table
/// and the raw node-data bytes (four planes of `VOLUME` bytes each).
pub struct BlockView {
    pub mappings: Map<u16, Seq<char>>,
    pub node_data: Seq<u8>,
}

/// One persisted 16 x 16 x 16 voxel chunk, decoded from a single stored
/// record: four node-data planes plus a block-local id-to-name table.
pub struct Block {
    node_data: Vec<u8>,
    mappings: HashMap<u16, String>,
}

/// The 16-bit value encoded big-endian by two bytes.
pub open spec fn be16(hi: u8, lo: u8) -> u16 {
    (hi * 256 + lo) as u16
}

/// The 32-bit value encoded big-endian by four bytes.
pub open spec fn be32(b0: u8, b1: u8, b2: u8, b3: u8) -> u32 {
    (((b0 * 256 + b1) * 256 + b2) * 256 + b3) as u32
}

/// The id-to-name table as a map of character sequences.
pub open spec fn names_of(m: Map<u16, String>) -> Map<u16, Seq<char>> {
    Map::new(|k: u16| m.dom().contains(k), |k: u16| m[k]@)
}

impl View for Block {
    type V = BlockView;

    closed spec fn view(&self) -> BlockView {
        BlockView { mappings: names_of(self.mappings@), node_data: self.node_data@ }
    }
}

/// What zstd decompression yields on a byte sequence, when it succeeds.
/// The result is a function of the bytes alone.
pub uninterp spec fn zstd_inflate(b: Seq<u8>) -> Option<Seq<u8>>;

/// Relies on `zstd::stream::decode_all`: it decompresses a complete
/// Zstandard stream into a byte vector, deterministically in the input bytes,
/// and fails exactly on the inputs where `zstd_inflate` gives no value.
#[verifier::external_body]
fn inflate(b: &[u8]) -> (r: Result<Vec<u8>, ()>)
    ensures
        r matches Ok(v) ==> zstd_inflate(b@) == Some(v@),
        r is Err ==> zstd_inflate(b@) is None,
{
    match zstd::stream::decode_all(b) {
        Ok(v) => Ok(v),
        Err(_) => Err(()),
    }
}

/// Relies on `String::from_utf8`: it returns `Ok` exactly when the bytes are
/// valid UTF-8, and the returned string then holds the characters that the
/// bytes encode.
#[verifier::external_body]
fn utf8_to_string(bytes: Vec<u8>) -> (r: Result<String, ()>)
    ensures
        r matches Ok(s) ==> valid_utf8(bytes@) && s@ == decode_utf8(bytes@),
        r is Err ==> !valid_utf8(bytes@),
{
    match String::from_utf8(bytes) {
        Ok(s) => Ok(s),
        Err(_) => Err(()),
    }
}

/// Reads one byte at `pos` and advances `pos`; `Io` on a short read.
pub fn read_u8(data: &[u8], pos: &mut usize) -> (r: Result<u8, WorldError>)
    ensures
        match r {
            Ok(b) => *old(pos) + 1 <= data@.len() && b == data@[*old(pos) as int] && *final(pos)
                == *old(pos) + 1,
            Err(e) => e == WorldError::Io && *old(pos) + 1 > data@.len() && *final(pos) == *old(pos),
        },
{
    if *pos < data.len() {
        let b = data[*pos];
        *pos = *pos + 1;
        Ok(b)
    } else {
        Err(WorldError::Io)
    }
}

/// Reads a big-endian 16-bit value at `pos` and advances `pos`; `Io` on a
/// short read.
pub fn read_u16(data: &[u8], pos: &mut usize) -> (r: Result<u16, WorldError>)
    ensures
        match r {
            Ok(v) => *old(pos) + 2 <= data@.len() && v == be16(
                data@[*old(pos) as int],
                data@[*old(pos) + 1],
            ) && *final(pos) == *old(pos) + 2,
            Err(e) => e == WorldError::Io && *old(pos) + 2 > data@.len() && *final(pos) == *old(pos),
        },
{
    if *pos < data.len() && data.len() - *pos >= 2 {
        let hi = data[*pos];
        let lo = data[*pos + 1];
        *pos = *pos + 2;
        Ok((hi as u16) * 256 + (lo as u16))
    } else {
        Err(WorldError::Io)
    }
}

/// Reads a big-endian 32-bit value at `pos` and advances `pos`; `Io` on a
/// short read.
pub fn read_u32(data: &[u8], pos: &mut usize) -> (r: Result<u32, WorldError>)
    ensures
        match r {
            Ok(v) => *old(pos) + 4 <= data@.len() && v == be32(
                data@[*old(pos) as int],
                data@[*old(pos) + 1],
                data@[*old(pos) + 2],
                data@[*old(pos) + 3],
            ) && *final(pos) == *old(pos) + 4,
            Err(e) => e == WorldError::Io && *old(pos) + 4 > data@.len() && *final(pos) == *old(pos),
        },
{
    if *pos < data.len() && data.len() - *pos >= 4 {
        let b0 = data[*pos];
        let b1 = data[*pos + 1];
        let b2 = data[*pos + 2];
        let b3 = data[*pos + 3];
        *pos = *pos + 4;
        Ok((((b0 as u32) * 256 + (b1 as u32)) * 256 + (b2 as u32)) * 256 + (b3 as u32))
    } else {
        Err(WorldError::Io)
    }
}

/// What reading a length-prefixed name at `pos` yields: the decoded
/// characters and the position after the name, or the error.
pub open spec fn spec_read_string(data: Seq<u8>, pos: int) -> Result<(Seq<char>, int), WorldError> {
    if pos + 2 > data.len() {
        Err(WorldError::Io)
    } else {
        let nlen = be16(data[pos], data[pos + 1]) as int;
        if pos + 2 + nlen > data.len() {
            Err(WorldError::Io)
        } else if !valid_utf8(data.subrange(pos + 2, pos + 2 + nlen)) {
            Err(WorldError::InvalidUtf8)
        } else {
            Ok((decode_utf8(data.subrange(pos + 2, pos + 2 + nlen)), pos + 2 + nlen))
        }
    }
}

/// Reads a length-prefixed UTF-8 name at `pos` and advances `pos`: a
/// big-endian 16-bit length, then that many bytes of name.
pub fn read_string(data: &[u8], pos: &mut usize) -> (r: Result<String, WorldError>)
    ensures
        match spec_read_string(data@, *old(pos) as int) {
            Ok((cs, p)) => r matches Ok(s) && s@ == cs && *final(pos) == p,
            Err(e) => r matches Err(e2) && e2 == e && *final(pos) == *old(pos),
        },
{
    let start = *pos;
    let nlen = match read_u16(data, pos) {
        Ok(v) => v as usize,
        Err(e) => {
            return Err(e);
        },
    };
    if data.len() - *pos < nlen {
        *pos = start;
        return Err(WorldError::Io);
    }
    let bytes = slice_to_vec(slice_subrange_u8(data, *pos, *pos + nlen));
    match utf8_to_string(bytes) {
        Ok(s) => {
            *pos = *pos + nlen;
            Ok(s)
        },
        Err(_) => {
            *pos = start;
            Err(WorldError::InvalidUtf8)
        },
    }
}

/// The byte subrange `[i, j)` of a slice.
fn slice_subrange_u8(data: &[u8], i: usize, j: usize) -> (out: &[u8])
    requires
        0 <= i <= j <= data@.len(),
    ensures
        out@ == data@.subrange(i as int, j as int),
{
    vstd::slice::slice_subrange(data, i, j)
}

/// What parsing `n` mapping entries at `pos` yields, entries already parsed
/// standing in `acc`: the finished table and the position after the last
/// entry, or the error. A repeated id silently overwrites the earlier name.
pub open spec fn parse_entries(
    buf: Seq<u8>,
    pos: int,
    n: nat,
    acc: Map<u16, Seq<char>>,
) -> Result<(Map<u16, Seq<char>>, int), WorldError>
    decreases n,
{
    if n == 0 {
        Ok((acc, pos))
    } else if pos + 2 > buf.len() {
        Err(WorldError::Io)
    } else {
        match spec_read_string(buf, pos + 2) {
            Err(e) => Err(e),
            Ok((name, p2)) => parse_entries(
                buf,
                p2,
                (n - 1) as nat,
                acc.insert(be16(buf[pos], buf[pos + 1]), name),
            ),
        }
    }
}

/// What decoding the decompressed payload body yields. The body holds, in
/// order: a flags byte, a 16-bit lighting-complete field, a 32-bit timestamp
/// and a mapping-version byte (all discarded), a 16-bit mapping-entry count
/// and that many entries, two discarded width bytes, and exactly
/// `4 * VOLUME` bytes of node data. A short read anywhere is `Io`.
pub open spec fn parse_body(buf: Seq<u8>) -> Result<BlockView, WorldError> {
    if buf.len() < 10 {
        Err(WorldError::Io)
    } else {
        match parse_entries(buf, 10, be16(buf[8], buf[9]) as nat, Map::empty()) {
            Err(e) => Err(e),
            Ok((m, pos)) => if pos + 2 + 4 * VOLUME > buf.len() {
                Err(WorldError::Io)
            } else {
                Ok(
                    BlockView {
                        mappings: m,
                        node_data: buf.subrange(pos + 2, pos + 2 + 4 * VOLUME),
                    },
                )
            },
        }
    }
}

/// What decoding a raw stored payload yields: one version byte, rejected
/// below version 29, then a Zstandard-compressed body.
pub open spec fn decode_block(data: Seq<u8>) -> Result<BlockView, WorldError> {
    if data.len() < 1 {
        Err(WorldError::Io)
    } else if data[0] < 29 {
        Err(WorldError::UnsupportedVersion(data[0]))
    } else {
        match zstd_inflate(data.subrange(1, data.len() as int)) {
            Some(buf) => parse_body(buf),
            None => Err(WorldError::Io),
        }
    }
}

/// Inserting into the exec table and into its mathematical view agree.
proof fn lemma_names_of_insert(m: Map<u16, String>, k: u16, v: String)
    ensures
        names_of(m.insert(k, v)) == names_of(m).insert(k, v@),
{
    assert(names_of(m.insert(k, v)) =~= names_of(m).insert(k, v@));
}

impl Block {
    /// A decoded block always holds exactly four planes of node data.
    pub open spec fn wf(&self) -> bool {
        self@.node_data.len() == 4 * VOLUME
    }

    /// Decodes a raw stored payload into a block, all or nothing: exactly the
    /// block that `decode_block` gives, or exactly the error it gives.
    pub fn parse_data(data: &[u8]) -> (r: Result<Block, WorldError>)
        ensures
            match decode_block(data@) {
                Ok(bv) => r matches Ok(b) && b@ == bv && b.wf(),
                Err(e) => r matches Err(e2) && e2 == e,
            },
    {
        if data.len() < 1 {
            return Err(WorldError::Io);
        }
        let version = data[0];
        if version < 29 {
            return Err(WorldError::UnsupportedVersion(version));
        }
        let tail = slice_subrange_u8(data, 1, data.len());
        let buf = match inflate(tail) {
            Ok(v) => v,
            Err(_) => {
                return Err(WorldError::Io);
            },
        };
        let body = buf.as_slice();
        let ghost bufs = body@;
        let mut pos: usize = 0;
        let r0 = read_u8(body, &mut pos);
        let r1 = read_u16(body, &mut pos);
        let r2 = read_u32(body, &mut pos);
        let r3 = read_u8(body, &mut pos);
        if r0.is_err() || r1.is_err() || r2.is_err() || r3.is_err() {
            return Err(WorldError::Io);
        }
        let count = match read_u16(body, &mut pos) {
            Ok(v) => v,
            Err(_) => {
                return Err(WorldError::Io);
            },
        };
        assert(pos == 10);
        assert(count as nat == be16(bufs[8], bufs[9]) as nat);

        let mut mappings: HashMap<u16, String> = HashMap::new();
        let mut i: u16 = 0;
        assert(names_of(mappings@) =~= Map::<u16, Seq<char>>::empty());
        while i < count
            invariant
                i <= count,
                10 <= pos <= bufs.len(),
                bufs == body@,
                data@.len() >= 1,
                data@[0] >= 29,
                zstd_inflate(data@.subrange(1, data@.len() as int)) == Some(bufs),
                count as nat == be16(bufs[8], bufs[9]) as nat,
                parse_entries(bufs, 10, count as nat, Map::empty()) == parse_entries(
                    bufs,
                    pos as int,
                    (count - i) as nat,
                    names_of(mappings@),
                ),
            decreases count - i,
        {
            let ghost acc = names_of(mappings@);
            let ghost entry_pos = pos as int;
            let id = match read_u16(body, &mut pos) {
                Ok(v) => v,
                Err(e) => {
                    proof {
                        assert(parse_entries(bufs, entry_pos, (count - i) as nat, acc) == Err::<
                            (Map<u16, Seq<char>>, int),
                            WorldError,
                        >(WorldError::Io));
                    }
                    return Err(e);
                },
            };
            let name = match read_string(body, &mut pos) {
                Ok(s) => s,
                Err(e) => {
                    proof {
                        assert(spec_read_string(bufs, entry_pos + 2) == Err::<
                            (Seq<char>, int),
                            WorldError,
                        >(e));
                        assert(parse_entries(bufs, entry_pos, (count - i) as nat, acc) == Err::<
                            (Map<u16, Seq<char>>, int),
                            WorldError,
                        >(e));
                    }
                    return Err(e);
                },
            };
            proof {
                lemma_names_of_insert(mappings@, id, name);
            }
            mappings.insert(id, name);
            i = i + 1;
        }
        assert(parse_entries(bufs, 10, count as nat, Map::empty()) == Ok::<_, WorldError>(
            (names_of(mappings@), pos as int),
        ));

        if body.len() - pos < 2 || (body.len() - pos) - 2 < 4 * VOLUME {
            return Err(WorldError::Io);
        }
        let node_data = slice_to_vec(slice_subrange_u8(body, pos + 2, pos + 2 + 4 * VOLUME));
        Ok(Block { node_data, mappings })
    }

    /// The flat plane index of a local voxel position: `z * 256 + y * 16 + x`.
    pub open spec fn spec_node_index(pos: IVec3) -> int {
        pos.z * 256 + pos.y * 16 + pos.x
    }

    /// The voxel at flat index `i` of a block: its 16-bit id is composed from
    /// the id-high and id-low planes, its params read from the last two planes.
    pub open spec fn spec_node(bv: BlockView, i: int) -> Node {
        Node {
            id: be16(bv.node_data[i], bv.node_data[VOLUME + i]),
            param1: bv.node_data[2 * VOLUME + i],
            param2: bv.node_data[3 * VOLUME + i],
        }
    }

    /// Looks a block-local id up in the block's mapping table; `None` exactly
    /// when this block's payload mapped no name to the id.
    pub fn get_name_by_id(&self, id: u16) -> (r: Option<&str>)
        ensures
            match r {
                Some(s) => self@.mappings.contains_key(id) && s@ == self@.mappings[id],
                None => !self@.mappings.contains_key(id),
            },
    {
        match self.mappings.get(&id) {
            Some(s) => Some(s.as_str()),
            None => None,
        }
    }

    /// The flat plane index of a local voxel position, each component of
    /// which must lie in [0, 16): calling this outside that range is a
    /// contract violation, not a recoverable error.
    pub fn node_index(pos: IVec3) -> (i: usize)
        requires
            0 <= pos.x < 16,
            0 <= pos.y < 16,
            0 <= pos.z < 16,
        ensures
            i == Self::spec_node_index(pos),
            i < VOLUME,
    {
        (pos.z as usize) * 256 + (pos.y as usize) * 16 + (pos.x as usize)
    }

    /// Reads one voxel's state. Each component of the local position must lie
    /// in [0, 16): calling outside that range is a contract violation.
    pub fn get_node(&self, pos: IVec3) -> (r: Node)
        requires
            self.wf(),
            0 <= pos.x < 16,
            0 <= pos.y < 16,
            0 <= pos.z < 16,
        ensures
            r == Self::spec_node(self@, Self::spec_node_index(pos)),
    {
        let node_index = Self::node_index(pos);
        let id_hi = self.node_data[node_index];
        let id_lo = self.node_data[VOLUME + node_index];
        let param1 = self.node_data[2 * VOLUME + node_index];
        let param2 = self.node_data[3 * VOLUME + node_index];
        Node { id: (id_hi as u16) * 256 + (id_lo as u16), param1, param2 }
    }
}

/// The high byte of a 16-bit value's big-endian form.
pub open spec fn hi16(v: u16) -> u8 {
    (v / 256) as u8
}

/// The low byte of a 16-bit value's big-endian form.
pub open spec fn lo16(v: u16) -> u8 {
    (v % 256) as u8
}

proof fn lemma_be16_split(v: u16)
    ensures
        be16(hi16(v), lo16(v)) == v,
{
    vstd::arithmetic::div_mod::lemma_fundamental_div_mod(v as int, 256);
}

/// Whether one mapping entry could have come off the wire: the name's byte
/// form fits its 16-bit length prefix and is valid UTF-8.
pub open spec fn entry_wf(id: u16, name: Seq<u8>) -> bool {
    name.len() <= 65535 && valid_utf8(name)
}

/// The wire form of one mapping entry: big-endian id, big-endian name
/// length, then the name's bytes.
pub open spec fn encode_entry(id: u16, name: Seq<u8>) -> Seq<u8> {
    seq![hi16(id), lo16(id), hi16(name.len() as u16), lo16(name.len() as u16)] + name
}

/// The wire form of a whole mapping table, entries in order.
pub open spec fn encode_entries(entries: Seq<(u16, Seq<u8>)>) -> Seq<u8>
    decreases entries.len(),
{
    if entries.len() == 0 {
        Seq::empty()
    } else {
        encode_entry(entries[0].0, entries[0].1) + encode_entries(entries.drop_first())
    }
}

/// The table that a list of entries stands for, inserted in order into `acc`:
/// a repeated id overwrites the earlier name.
pub open spec fn entries_map_acc(
    acc: Map<u16, Seq<char>>,
    entries: Seq<(u16, Seq<u8>)>,
) -> Map<u16, Seq<char>>
    decreases entries.len(),
{
    if entries.len() == 0 {
        acc
    } else {
        entries_map_acc(
            acc.insert(entries[0].0, decode_utf8(entries[0].1)),
            entries.drop_first(),
        )
    }
}

/// The table that a list of entries stands for.
pub open spec fn entries_map(entries: Seq<(u16, Seq<u8>)>) -> Map<u16, Seq<char>> {
    entries_map_acc(Map::empty(), entries)
}

/// The wire form of a whole decompressed body: eight header bytes, the
/// big-endian entry count, the entries, two width bytes, the node data.
pub open spec fn encode_body(
    header: Seq<u8>,
    entries: Seq<(u16, Seq<u8>)>,
    widths: Seq<u8>,
    node_data: Seq<u8>,
) -> Seq<u8> {
    header + seq![hi16(entries.len() as u16), lo16(entries.len() as u16)] + encode_entries(entries)
        + widths + node_data
}

/// Parsing a run of encoded entries consumes exactly their wire form and
/// builds exactly their table.
proof fn lemma_parse_entries_encode(
    buf: Seq<u8>,
    pos: int,
    entries: Seq<(u16, Seq<u8>)>,
    acc: Map<u16, Seq<char>>,
)
    requires
        0 <= pos,
        pos + encode_entries(entries).len() <= buf.len(),
        buf.subrange(pos, pos + encode_entries(entries).len()) == encode_entries(entries),
        forall|i: int| 0 <= i < entries.len() ==> #[trigger] entry_wf(
            entries[i].0,
            entries[i].1,
        ),
    ensures
        parse_entries(buf, pos, entries.len() as nat, acc) == Ok::<
            (Map<u16, Seq<char>>, int),
            WorldError,
        >((entries_map_acc(acc, entries), pos + encode_entries(entries).len())),
    decreases entries.len(),
{
    if entries.len() == 0 {
    } else {
        let id = entries[0].0;
        let name = entries[0].1;
        let rest = entries.drop_first();
        let e0 = encode_entry(id, name);
        let enc = encode_entries(entries);
        let encl = enc.len() as int;
        let nl = name.len() as int;
        let renc = encode_entries(rest);
        assert(entry_wf(id, name));
        assert(enc == e0 + renc);
        assert(e0.len() == 4 + nl);
        assert forall|k: int| 0 <= k < encl implies buf[pos + k] == enc[k] by {
            assert(buf.subrange(pos, pos + encl)[k] == buf[pos + k]);
        }
        assert(e0[0] == hi16(id) && e0[1] == lo16(id) && e0[2] == hi16(name.len() as u16) && e0[3]
            == lo16(name.len() as u16));
        assert(buf[pos + 0] == enc[0] && buf[pos + 1] == enc[1] && buf[pos + 2] == enc[2] && buf[
            pos + 3
        ] == enc[3]);
        assert(enc[0] == e0[0] && enc[1] == e0[1] && enc[2] == e0[2] && enc[3] == e0[3]);
        lemma_be16_split(id);
        lemma_be16_split(name.len() as u16);
        assert(be16(buf[pos], buf[pos + 1]) == id);
        assert(be16(buf[pos + 2], buf[pos + 3]) == nl);
        assert forall|k: int| 0 <= k < nl implies buf.subrange(pos + 4, pos + 4 + nl)[k]
            == name[k] by {
            assert(buf.subrange(pos + 4, pos + 4 + nl)[k] == buf[pos + (4 + k)]);
            assert(enc[4 + k] == e0[4 + k]);
            assert(e0[4 + k] == name[k]);
        }
        assert(buf.subrange(pos + 4, pos + 4 + nl) =~= name);
        assert(spec_read_string(buf, pos + 2) == Ok::<(Seq<char>, int), WorldError>(
            (decode_utf8(name), pos + 4 + nl),
        ));
        let pos2 = pos + 4 + nl;
        assert forall|k: int| 0 <= k < renc.len() implies buf.subrange(
            pos2,
            pos2 + renc.len() as int,
        )[k] == renc[k] by {
            assert(buf.subrange(pos2, pos2 + renc.len() as int)[k] == buf[pos + (4 + nl + k)]);
            assert(enc[4 + nl + k] == renc[k]);
        }
        assert(buf.subrange(pos2, pos2 + renc.len() as int) =~= renc);
        assert(forall|i: int| 0 <= i < rest.len() ==> #[trigger] entry_wf(rest[i].0, rest[i].1));
        lemma_parse_entries_encode(buf, pos2, rest, acc.insert(id, decode_utf8(name)));
    }
}

/// Law: any hand-built well-formed body decodes, all or nothing, into
/// exactly its mapping table and exactly its node data: eight header bytes
/// (their values free), up to 65535 well-formed entries, two width bytes
/// (their values free), and exactly `4 * VOLUME` node bytes.
pub proof fn lemma_body_round_trip(
    header: Seq<u8>,
    entries: Seq<(u16, Seq<u8>)>,
    widths: Seq<u8>,
    node_data: Seq<u8>,
)
    requires
        header.len() == 8,
        widths.len() == 2,
        node_data.len() == 4 * VOLUME,
        entries.len() <= 65535,
        forall|i: int| 0 <= i < entries.len() ==> #[trigger] entry_wf(
            entries[i].0,
            entries[i].1,
        ),
    ensures
        parse_body(encode_body(header, entries, widths, node_data)) == Ok::<
            BlockView,
            WorldError,
        >(BlockView { mappings: entries_map(entries), node_data }),
{
    let buf = encode_body(header, entries, widths, node_data);
    let enc = encode_entries(entries);
    let n = entries.len() as u16;
    assert(buf.len() == 10 + enc.len() + 2 + 4 * VOLUME);
    assert(buf[8] == hi16(n) && buf[9] == lo16(n));
    lemma_be16_split(n);
    assert(buf.subrange(10, 10 + enc.len() as int) =~= enc);
    lemma_parse_entries_encode(buf, 10, entries, Map::empty());
    let pos: int = 10 + enc.len() as int;
    assert(buf.subrange(pos + 2, pos + 2 + 4 * VOLUME) =~= node_data);
}

/// Law: a payload whose version byte is below 29 is rejected as
/// `UnsupportedVersion` carrying that byte, whatever the remaining bytes hold.
pub proof fn lemma_low_version_rejected(data: Seq<u8>)
    requires
        data.len() >= 1,
        data[0] < 29,
    ensures
        decode_block(data) == Err::<BlockView, WorldError>(
            WorldError::UnsupportedVersion(data[0]),
        ),
{
}

/// Law: a body whose node-data section falls short of the full `4 * VOLUME`
/// bytes — by as little as its final byte — is rejected as `Io`; no partial
/// block is ever produced.
pub proof fn lemma_short_node_data_rejected(
    header: Seq<u8>,
    entries: Seq<(u16, Seq<u8>)>,
    widths: Seq<u8>,
    node_data: Seq<u8>,
)
    requires
        header.len() == 8,
        widths.len() == 2,
        node_data.len() < 4 * VOLUME,
        entries.len() <= 65535,
        forall|i: int| 0 <= i < entries.len() ==> #[trigger] entry_wf(
            entries[i].0,
            entries[i].1,
        ),
    ensures
        parse_body(encode_body(header, entries, widths, node_data)) == Err::<
            BlockView,
            WorldError,
        >(WorldError::Io),
{
    let buf = encode_body(header, entries, widths, node_data);
    let enc = encode_entries(entries);
    let n = entries.len() as u16;
    assert(buf[8] == hi16(n) && buf[9] == lo16(n));
    lemma_be16_split(n);
    assert(buf.subrange(10, 10 + enc.len() as int) =~= enc);
    lemma_parse_entries_encode(buf, 10, entries, Map::empty());
}

} // verus!
