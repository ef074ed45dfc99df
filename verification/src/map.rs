use vstd::prelude::*;
use crate::block::{decode_block, Block, BlockView, IVec3};
use crate::error::WorldError;

verus! {

/// The pluggable fetch-by-coordinate capability: a storage backend returns
/// the raw stored payload for a block coordinate. What comes back depends on
/// the store behind the backend, so nothing is promised of the bytes.
pub trait MapBackend {
    fn get_block_data(&mut self, pos: IVec3) -> Result<Vec<u8>, WorldError>;
}

/// The orchestrator: owns exactly one backend and serialises access to it by
/// exclusive borrowing, so at most one fetch is in flight at a time.
pub struct WorldMap<B: MapBackend> {
    backend: B,
}

impl<B: MapBackend> WorldMap<B> {
    /// The one backend this map owns and consults.
    pub closed spec fn backend(&self) -> B {
        self.backend
    }

    /// A map over exactly the given backend.
    pub fn new(backend: B) -> (r: WorldMap<B>)
        ensures
            r.backend() == backend,
    {
        WorldMap { backend }
    }

    /// Fetches and decodes the block at `pos`. Backend failures and decode
    /// errors pass through unchanged, and a returned block is always fully
    /// decoded: it is exactly the decoding of some raw payload, never a
    /// half-constructed block.
    pub fn get_block(&mut self, pos: IVec3) -> (r: Result<Block, WorldError>)
        ensures
            r matches Ok(b) ==> b.wf() && exists|data: Seq<u8>|
                decode_block(data) == Ok::<BlockView, WorldError>(b@),
    {
        let data = match self.backend.get_block_data(pos) {
            Ok(d) => d,
            Err(e) => {
                return Err(e);
            },
        };
        let r = Block::parse_data(data.as_slice());
        proof {
            if r is Ok {
                assert(decode_block(data@) == Ok::<BlockView, WorldError>(r->Ok_0@));
            }
        }
        r
    }
}

} // verus!
