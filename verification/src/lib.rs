mod block;
mod error;
mod grid;
mod map;
mod meta;
mod node;
mod pg;
mod sqlite;
mod text;

pub use block::{be16, be32, decode_block, encode_body, encode_entries, encode_entry, entries_map,
    entries_map_acc, entry_wf, hi16, lemma_body_round_trip, lemma_low_version_rejected,
    lemma_short_node_data_rejected, lo16, names_of, parse_body, parse_entries, read_string,
    read_u16, read_u32, read_u8, spec_read_string, zstd_inflate, Block, BlockView, IVec3, Node,
    VOLUME};
pub use error::WorldError;
pub use grid::{block_to_grid, cell_ok, spec_grid_cell};
pub use map::{MapBackend, WorldMap};
pub use meta::{find_char, is_meta_space, line_end, line_kv, parse_lines_from, parse_meta,
    trim_back, trim_chars, trim_front, WorldMeta};
pub use node::{lemma_global_id_stable, lemma_interning_step, GlobalMapping};
pub use pg::PostgresBackend;
pub use sqlite::SqliteBackend;
pub use text::str_eq;
