//! What the rest of the network says about a file: its published record and its manifest.

use crate::text;
use vstd::prelude::*;

verus! {

/// One chunk as a manifest lists it.
#[derive(Debug, Clone)]
pub struct ChunkInfo {
    pub index: u32,
    pub hash: String,
    pub size: usize,
}

/// The list of the chunks of a file.
#[derive(Debug, Clone)]
pub struct FileManifest {
    pub chunks: Vec<ChunkInfo>,
}

/// The published record of a file.
#[derive(Debug, Clone)]
pub struct FileMetadata {
    pub merkle_root: String,
    pub file_name: String,
    pub file_size: u64,
    pub seeders: Vec<String>,
    pub is_encrypted: bool,
    /// The manifest as JSON text.
    pub manifest: Option<String>,
    pub download_path: Option<String>,
}

impl FileManifest {
    /// The chunk hashes, in the order of the manifest.
    pub open spec fn hashes(self) -> Seq<Seq<char>> {
        self.chunks@.map_values(|c: ChunkInfo| c.hash@)
    }
}

/// The chunk hashes of a manifest, in order.
pub fn manifest_hashes(manifest: &FileManifest) -> (out: Vec<String>)
    ensures
        text::texts(out@) == manifest.hashes(),
{
    let mut out: Vec<String> = Vec::new();
    let mut i: usize = 0;
    while i < manifest.chunks.len()
        invariant
            i <= manifest.chunks.len(),
            text::texts(out@) == manifest.hashes().take(i as int),
        decreases manifest.chunks.len() - i,
    {
        let ghost before = out@;
        out.push(manifest.chunks[i].hash.clone());
        proof {
            assert(text::texts(out@) =~= text::texts(before).push(manifest.hashes()[i as int]));
            assert(manifest.hashes().take(i + 1) =~= manifest.hashes().take(i as int).push(
                manifest.hashes()[i as int],
            ));
        }
        i = i + 1;
    }
    assert(manifest.hashes().take(i as int) =~= manifest.hashes());
    out
}

/// The hashes of a manifest are those of its entries, one for each, in their order.
pub proof fn law_hashes_are_those_of_entries(manifest: &FileManifest, out: Vec<String>)
    requires
        call_ensures(manifest_hashes, (manifest,), out),
    ensures
        out@.len() == manifest.chunks@.len(),
        forall|i: int| 0 <= i < out@.len() ==> (#[trigger] out@[i])@ == manifest.chunks@[i].hash@,
{
    assert(text::texts(out@).len() == out@.len());
    assert forall|i: int| 0 <= i < out@.len() implies (#[trigger] out@[i])@
        == manifest.chunks@[i].hash@ by {
        assert(text::texts(out@)[i] == manifest.hashes()[i]);
    }
}

} // verus!
