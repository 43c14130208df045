//! Recovery of downloads from the network, chunk by chunk, against a Merkle root.

pub mod effects;
pub mod laws;

pub use crate::chunk::{ChunkState, CHUNK_SIZE};

use crate::chunk;
use crate::chunk::{count_chunks, offset_of, size_of};
use crate::clock::now_unix;
use crate::digest;
use crate::digest::{hex_decode, hex_encode, hex_error_message, merkle_tree_root, sha256};
use crate::download;
use crate::download::{Chunk, Download};
use crate::models::{manifest_hashes, ChunkInfo, FileManifest, FileMetadata};
use crate::paths;
use crate::paths::{file_name, with_extension, with_file_name};
use crate::text;
use crate::text::{
    clone_opt, clone_strings, contains_string, contains_text, decimal_text, trim_end_text,
};
use vstd::hash_set::StringHashSet;
use vstd::prelude::*;
use vstd::string::StringExecFns;

verus! {

/// What goes wrong when chunks are fetched and checked.
#[derive(Debug, Clone)]
pub enum ChunkNetErr {
    NotFound,
    IoErr(String),
    HashMismatch { idx: u32, expected: String, got: String },
    MerkleInvalid,
    NoProviders,
    ManifestMissing,
    ParseErr(String),
}

/// A `ChunkNetErr` as a value.
pub enum NetErr {
    NotFound,
    IoErr(Seq<char>),
    HashMismatch { idx: u32, expected: Seq<char>, got: Seq<char> },
    MerkleInvalid,
    NoProviders,
    ManifestMissing,
    ParseErr(Seq<char>),
}

impl View for ChunkNetErr {
    type V = NetErr;

    open spec fn view(&self) -> NetErr {
        match self {
            ChunkNetErr::NotFound => NetErr::NotFound,
            ChunkNetErr::IoErr(e) => NetErr::IoErr(e@),
            ChunkNetErr::HashMismatch { idx, expected, got } => NetErr::HashMismatch {
                idx: *idx,
                expected: expected@,
                got: got@,
            },
            ChunkNetErr::MerkleInvalid => NetErr::MerkleInvalid,
            ChunkNetErr::NoProviders => NetErr::NoProviders,
            ChunkNetErr::ManifestMissing => NetErr::ManifestMissing,
            ChunkNetErr::ParseErr(e) => NetErr::ParseErr(e@),
        }
    }
}

impl NetErr {
    /// What an error says to a reader.
    pub open spec fn message(self) -> Seq<char> {
        match self {
            NetErr::NotFound => "not found"@,
            NetErr::IoErr(e) => "io error: "@ + e,
            NetErr::HashMismatch { idx, expected, got } => "chunk "@ + text::decimal(idx as nat)
                + " hash mismatch: "@ + expected + " != "@ + got,
            NetErr::MerkleInvalid => "merkle root invalid"@,
            NetErr::NoProviders => "no providers found"@,
            NetErr::ManifestMissing => "manifest missing"@,
            NetErr::ParseErr(e) => "parse error: "@ + e,
        }
    }
}

impl ChunkNetErr {
    /// What the error says to a reader.
    pub fn to_string(&self) -> (out: String)
        ensures
            out@ == self@.message(),
    {
        match self {
            ChunkNetErr::NotFound => "not found".to_owned(),
            ChunkNetErr::IoErr(e) => "io error: ".to_owned().concat(e.as_str()),
            ChunkNetErr::HashMismatch { idx, expected, got } => {
                let mut out = "chunk ".to_owned();
                out.append(decimal_text(*idx).as_str());
                out.append(" hash mismatch: ");
                out.append(expected.as_str());
                out.append(" != ");
                out.append(got.as_str());
                out
            },
            ChunkNetErr::MerkleInvalid => "merkle root invalid".to_owned(),
            ChunkNetErr::NoProviders => "no providers found".to_owned(),
            ChunkNetErr::ManifestMissing => "manifest missing".to_owned(),
            ChunkNetErr::ParseErr(e) => "parse error: ".to_owned().concat(e.as_str()),
        }
    }
}

/// A chunk of a download, with its hash; an empty hash is one that is not known.
#[derive(Debug)]
pub struct ChunkMeta {
    pub idx: u32,
    pub offset: u64,
    pub size: u32,
    pub hash: String,
    pub state: ChunkState,
}

impl View for ChunkMeta {
    type V = Chunk<Seq<char>>;

    open spec fn view(&self) -> Chunk<Seq<char>> {
        Chunk {
            idx: self.idx,
            offset: self.offset,
            size: self.size,
            hash: self.hash@,
            state: self.state,
        }
    }
}

impl Clone for ChunkMeta {
    fn clone(&self) -> (out: ChunkMeta)
        ensures
            out == *self,
    {
        ChunkMeta {
            idx: self.idx,
            offset: self.offset,
            size: self.size,
            hash: self.hash.clone(),
            state: self.state,
        }
    }
}

impl ChunkMeta {
    /// A chunk of which nothing has been fetched yet.
    pub fn new(idx: u32, offset: u64, size: u32, hash: String) -> (out: ChunkMeta)
        ensures
            out@ == (Chunk { idx, offset, size, hash: hash@, state: ChunkState::Pending }),
    {
        ChunkMeta { idx, offset, size, hash, state: ChunkState::Pending }
    }

    /// Where the chunk at position `idx` starts.
    pub fn offset_for(idx: u32) -> (out: u64)
        ensures
            out == chunk::chunk_offset(idx as int),
    {
        offset_of(idx)
    }

    /// How many bytes of a file of `file_size` bytes the chunk at position `idx` holds.
    pub fn size_for(idx: u32, file_size: u64) -> (out: u32)
        ensures
            out == chunk::chunk_len(idx as int, file_size as int),
    {
        size_of(idx, file_size)
    }
}

/// A download as it is kept between runs.
#[derive(Debug)]
pub struct DlState {
    pub version: u32,
    pub merkle_root: String,
    pub file_name: String,
    pub file_size: u64,
    pub tmp_path: String,
    pub dst_path: String,
    pub chunks: Vec<ChunkMeta>,
    pub verified_bytes: u64,
    pub providers: Vec<String>,
    pub manifest_json: Option<String>,
    pub encrypted: bool,
    pub updated_at: u64,
}

/// The chunks of a download as values.
pub open spec fn chunk_views(chunks: Seq<ChunkMeta>) -> Seq<Chunk<Seq<char>>> {
    chunks.map_values(|c: ChunkMeta| c@)
}

impl View for DlState {
    type V = Download<Seq<char>>;

    open spec fn view(&self) -> Download<Seq<char>> {
        Download {
            version: self.version,
            merkle_root: self.merkle_root@,
            file_name: self.file_name@,
            file_size: self.file_size,
            tmp_path: self.tmp_path@,
            dst_path: self.dst_path@,
            chunks: chunk_views(self.chunks@),
            verified_bytes: self.verified_bytes as int,
            peers: text::texts(self.providers@),
            manifest: text::opt_text(self.manifest_json),
            encrypted: self.encrypted,
            updated_at: self.updated_at,
        }
    }
}

impl Clone for DlState {
    fn clone(&self) -> (out: DlState)
        ensures
            out@ == self@,
    {
        let mut chunks: Vec<ChunkMeta> = Vec::new();
        let mut i: usize = 0;
        while i < self.chunks.len()
            invariant
                i <= self.chunks.len(),
                chunks@ == self.chunks@.take(i as int),
            decreases self.chunks.len() - i,
        {
            chunks.push(self.chunks[i].clone());
            i = i + 1;
        }
        assert(self.chunks@.take(i as int) =~= self.chunks@);
        DlState {
            version: self.version,
            merkle_root: self.merkle_root.clone(),
            file_name: self.file_name.clone(),
            file_size: self.file_size,
            tmp_path: self.tmp_path.clone(),
            dst_path: self.dst_path.clone(),
            chunks,
            verified_bytes: self.verified_bytes,
            providers: clone_strings(self.providers.as_slice()),
            manifest_json: clone_opt(&self.manifest_json),
            encrypted: self.encrypted,
            updated_at: self.updated_at,
        }
    }
}

/// A download of this module as a value.
pub type State = Download<Seq<char>>;

/// The chunk that an entry of a manifest describes; a size beyond 32 bits wraps.
pub open spec fn manifest_chunk(info: ChunkInfo) -> Chunk<Seq<char>> {
    Chunk {
        idx: info.index,
        offset: chunk::chunk_offset(info.index as int) as u64,
        size: (info.size as int % 0x1_0000_0000) as u32,
        hash: info.hash@,
        state: ChunkState::Pending,
    }
}

/// The download with the chunks that a manifest lists, and the JSON text of that manifest.
pub open spec fn with_manifest(d: State, manifest: FileManifest, json: Option<Seq<char>>) -> State {
    Download {
        chunks: manifest.chunks@.map_values(|info: ChunkInfo| manifest_chunk(info)),
        manifest: json,
        ..d
    }
}

/// The download with its chunks laid out anew for its file size, with no hash known.
pub open spec fn chunks_laid_out(d: State) -> State {
    Download {
        chunks: Seq::new(
            chunk::chunk_count(d.file_size) as nat,
            |i: int| download::fresh_chunk(i, d.file_size, Seq::<char>::empty()),
        ),
        ..d
    }
}

/// The download after a chunk has arrived, whatever state it was in.
pub open spec fn downloaded(d: State, idx: u32, now: u64) -> State {
    if idx < d.chunks.len() {
        d.with_state(idx, ChunkState::Downloaded, now)
    } else {
        d
    }
}

/// The download after a chunk has been found good: only one that has arrived is verified and
/// counted.
pub open spec fn verified(d: State, idx: u32, now: u64) -> State {
    if d.has(idx, ChunkState::Downloaded) {
        d.with_verified(idx, now)
    } else {
        d
    }
}

/// Whether the chunk can be counted as verified within a `u64`.
pub open spec fn can_verify(d: State, idx: u32) -> bool {
    d.has(idx, ChunkState::Downloaded) ==> d.has_room_for(idx)
}

impl DlState {
    /// A download of which nothing is known but the file, started at `now`.
    pub fn new_at(
        merkle_root: String,
        file_name: String,
        file_size: u64,
        tmp_path: String,
        dst_path: String,
        now: u64,
    ) -> (out: DlState)
        ensures
            out@ == State::fresh(
                1,
                merkle_root@,
                file_name@,
                file_size,
                tmp_path@,
                dst_path@,
                now,
            ),
    {
        DlState {
            version: 1,
            merkle_root,
            file_name,
            file_size,
            tmp_path,
            dst_path,
            chunks: Vec::new(),
            verified_bytes: 0,
            providers: Vec::new(),
            manifest_json: None,
            encrypted: false,
            updated_at: now,
        }
    }

    /// A download of which nothing is known but the file, started now.
    pub fn new(
        merkle_root: String,
        file_name: String,
        file_size: u64,
        tmp_path: String,
        dst_path: String,
    ) -> (out: DlState)
        ensures
            exists|now: u64|
                out@ == #[trigger] State::fresh(
                    1,
                    merkle_root@,
                    file_name@,
                    file_size,
                    tmp_path@,
                    dst_path@,
                    now,
                ),
    {
        let now: u64 = now_unix();
        Self::new_at(merkle_root, file_name, file_size, tmp_path, dst_path, now)
    }

    /// Takes the chunks from a manifest, all of them pending. `json` is what writing the manifest
    /// as JSON gave.
    pub fn init_from_manifest(&mut self, manifest: &FileManifest, json: Option<String>)
        ensures
            final(self)@ == with_manifest(old(self)@, *manifest, text::opt_text(json)),
    {
        let ghost goal = with_manifest(self@, *manifest, text::opt_text(json)).chunks;
        let mut chunks: Vec<ChunkMeta> = Vec::new();
        let mut i: usize = 0;
        while i < manifest.chunks.len()
            invariant
                i <= manifest.chunks.len(),
                goal == manifest.chunks@.map_values(|info: ChunkInfo| manifest_chunk(info)),
                chunk_views(chunks@) =~= goal.take(i as int),
            decreases manifest.chunks.len() - i,
        {
            let info = &manifest.chunks[i];
            let size: u32 = low_u32(info.size);
            let chunk = ChunkMeta::new(
                info.index,
                ChunkMeta::offset_for(info.index),
                size,
                info.hash.clone(),
            );
            let ghost before = chunks@;
            assert(chunk@ == goal[i as int]);
            chunks.push(chunk);
            assert(chunk_views(chunks@) =~= chunk_views(before).push(goal[i as int]));
            i = i + 1;
        }
        assert(goal.take(i as int) =~= goal);
        self.chunks = chunks;
        self.manifest_json = json;
    }

    /// Lays out the chunks anew for the file size, all of them pending and without a hash. The
    /// bytes that were counted as verified stay counted.
    pub fn init_chunks(&mut self)
        requires
            chunk::countable(old(self).file_size),
        ensures
            final(self)@ == chunks_laid_out(old(self)@),
            final(self).chunks@.len() == chunk::chunk_count(old(self).file_size),
    {
        let file_size: u64 = self.file_size;
        let cnt: u32 = count_chunks(file_size);
        let ghost goal = chunks_laid_out(self@).chunks;
        let mut chunks: Vec<ChunkMeta> = Vec::new();
        let mut i: u32 = 0;
        while i < cnt
            invariant
                i <= cnt,
                goal.len() == cnt,
                forall|k: int|
                    0 <= k < cnt ==> #[trigger] goal[k] == download::fresh_chunk(
                        k,
                        file_size,
                        Seq::<char>::empty(),
                    ),
                chunk_views(chunks@) =~= goal.take(i as int),
            decreases cnt - i,
        {
            let chunk = ChunkMeta::new(
                i,
                ChunkMeta::offset_for(i),
                ChunkMeta::size_for(i, file_size),
                String::new(),
            );
            let ghost before = chunks@;
            assert(chunk@ == goal[i as int]);
            chunks.push(chunk);
            assert(chunk_views(chunks@) =~= chunk_views(before).push(goal[i as int]));
            i = i + 1;
        }
        assert(goal.take(cnt as int) =~= goal);
        self.chunks = chunks;
        assert(self.chunks@.len() == chunk_views(self.chunks@).len());
    }

    /// Notes at `now` that a chunk has arrived, whatever state it was in.
    pub fn mark_downloaded_at(&mut self, idx: u32, now: u64)
        ensures
            final(self)@ == downloaded(old(self)@, idx, now),
    {
        let i: usize = idx as usize;
        if i < self.chunks.len() {
            self.chunks[i].state = ChunkState::Downloaded;
            self.updated_at = now;
            assert(self@.chunks =~= downloaded(old(self)@, idx, now).chunks);
        }
    }

    /// Notes that a chunk has arrived, whatever state it was in.
    pub fn mark_downloaded(&mut self, idx: u32)
        ensures
            exists|now: u64| final(self)@ == #[trigger] downloaded(old(self)@, idx, now),
    {
        let now: u64 = now_unix();
        self.mark_downloaded_at(idx, now);
    }

    /// Notes at `now` that a chunk has been found good, and counts its bytes; only a chunk that has
    /// arrived can be.
    pub fn mark_verified_at(&mut self, idx: u32, now: u64)
        requires
            can_verify(old(self)@, idx),
        ensures
            final(self)@ == verified(old(self)@, idx, now),
    {
        let i: usize = idx as usize;
        if i < self.chunks.len() && self.chunks[i].state == ChunkState::Downloaded {
            let size: u32 = self.chunks[i].size;
            assert(self@.chunks[i as int].size == size);
            self.chunks[i].state = ChunkState::Verified;
            self.verified_bytes = self.verified_bytes + size as u64;
            self.updated_at = now;
            assert(self@.chunks =~= verified(old(self)@, idx, now).chunks);
        }
    }

    /// Notes that a chunk has been found good, and counts its bytes; only a chunk that has arrived
    /// can be.
    pub fn mark_verified(&mut self, idx: u32)
        requires
            can_verify(old(self)@, idx),
        ensures
            exists|now: u64| final(self)@ == #[trigger] verified(old(self)@, idx, now),
    {
        let now: u64 = now_unix();
        self.mark_verified_at(idx, now);
    }

    /// Notes at `now` that a chunk is no good; the bytes of a verified one are no longer counted.
    pub fn mark_failed_at(&mut self, idx: u32, now: u64)
        ensures
            final(self)@ == old(self)@.failed(idx, now),
    {
        let i: usize = idx as usize;
        if i < self.chunks.len() {
            if self.chunks[i].state == ChunkState::Verified {
                let size: u64 = self.chunks[i].size as u64;
                assert(self@.chunks[i as int].size == size);
                if self.verified_bytes >= size {
                    self.verified_bytes = self.verified_bytes - size;
                } else {
                    self.verified_bytes = 0;
                }
            }
            self.chunks[i].state = ChunkState::Failed;
            self.updated_at = now;
            assert(self@.chunks =~= old(self)@.failed(idx, now).chunks);
        }
    }

    /// Notes that a chunk is no good; the bytes of a verified one are no longer counted.
    pub fn mark_failed(&mut self, idx: u32)
        ensures
            exists|now: u64| final(self)@ == #[trigger] old(self)@.failed(idx, now),
    {
        let now: u64 = now_unix();
        self.mark_failed_at(idx, now);
    }

    /// The indices of the chunks that are still to be fetched: those pending and those failed.
    pub fn pending_chunks(&self) -> (out: Vec<u32>)
        ensures
            out@ == self@.pending(),
    {
        let ghost chunks = self@.chunks;
        let mut out: Vec<u32> = Vec::new();
        let mut i: usize = 0;
        while i < self.chunks.len()
            invariant
                i <= self.chunks.len(),
                chunks == self@.chunks,
                out@ =~= download::indices(chunks.take(i as int), download::to_fetch()),
            decreases self.chunks.len() - i,
        {
            proof {
                download::lemma_filter_step(chunks, i as int, download::to_fetch());
            }
            let state: ChunkState = self.chunks[i].state;
            assert(chunks[i as int] == self.chunks@[i as int]@);
            if state == ChunkState::Pending || state == ChunkState::Failed {
                out.push(self.chunks[i].idx);
            }
            i = i + 1;
        }
        assert(chunks.take(i as int) =~= chunks);
        out
    }

    /// Whether all chunks are verified; a download without chunks is complete.
    pub fn is_complete(&self) -> (out: bool)
        ensures
            out == self@.all_verified(),
    {
        let mut i: usize = 0;
        while i < self.chunks.len()
            invariant
                i <= self.chunks.len(),
                forall|k: int|
                    0 <= k < i ==> (#[trigger] self@.chunks[k]).state == ChunkState::Verified,
            decreases self.chunks.len() - i,
        {
            assert(self@.chunks[i as int] == self.chunks@[i as int]@);
            if self.chunks[i].state != ChunkState::Verified {
                return false;
            }
            i = i + 1;
        }
        true
    }

    /// How far the download has come, as the two terms of a fraction: the verified bytes and the
    /// file size, or one and one for an empty file.
    pub fn progress_parts(&self) -> (out: (u64, u64))
        ensures
            out == (if self.file_size == 0 {
                (1u64, 1u64)
            } else {
                (self.verified_bytes, self.file_size)
            }),
    {
        if self.file_size == 0 {
            (1, 1)
        } else {
            (self.verified_bytes, self.file_size)
        }
    }

    /// Lists a provider at `now`, unless it is listed already.
    pub fn add_provider_at(&mut self, peer_id: String, now: u64)
        ensures
            final(self)@ == old(self)@.with_peer(peer_id@, now),
    {
        if !contains_string(&self.providers, &peer_id) {
            let ghost id = peer_id@;
            self.providers.push(peer_id);
            self.updated_at = now;
            assert(text::texts(self.providers@) =~= text::texts(old(self).providers@).push(id));
        }
    }

    /// Lists a provider, unless it is listed already.
    pub fn add_provider(&mut self, peer_id: String)
        ensures
            exists|now: u64| final(self)@ == #[trigger] old(self)@.with_peer(peer_id@, now),
    {
        let now: u64 = now_unix();
        self.add_provider_at(peer_id, now);
    }
}

/// The low 32 bits of a size.
fn low_u32(size: usize) -> (out: u32)
    ensures
        out == size as int % 0x1_0000_0000,
{
    let wide: u64 = size as u64;
    assert(wide as u32 == wide % 0x1_0000_0000) by (bit_vector);
    #[verifier::truncate]
    (wide as u32)
}

/// The value of a result whose error is a `ChunkNetErr`.
pub open spec fn outcome<T>(result: Result<T, ChunkNetErr>) -> Result<T, NetErr> {
    match result {
        Ok(value) => Ok(value),
        Err(e) => Err(e@),
    }
}

/// Why a text is not the hexadecimal form of a 32-byte hash, where it is not.
pub open spec fn hash_error(hash: Seq<char>) -> Option<NetErr> {
    match digest::hex_bytes(hash) {
        Err(e) => Some(NetErr::ParseErr(digest::hex_error_text(e))),
        Ok(bytes) => if bytes.len() != 32 {
            Some(NetErr::ParseErr("invalid hash len"@))
        } else {
            None
        },
    }
}

/// What is wrong with the first of the first `n` hashes that is no hash.
pub open spec fn first_error(hashes: Seq<Seq<char>>, n: int) -> Option<NetErr>
    decreases n,
{
    if n <= 0 {
        None
    } else {
        match first_error(hashes, n - 1) {
            Some(e) => Some(e),
            None => hash_error(hashes[n - 1]),
        }
    }
}

/// The bytes of hashes that are given in hexadecimal.
pub open spec fn hash_bytes(hashes: Seq<Seq<char>>) -> Seq<Seq<u8>> {
    hashes.map_values(|h: Seq<char>| digest::hex_bytes(h)->Ok_0)
}

/// The Merkle root over hashes that are given in hexadecimal, in hexadecimal too.
pub open spec fn root_of(hashes: Seq<Seq<char>>) -> Result<Seq<char>, NetErr> {
    if hashes.len() == 0 {
        Err(NetErr::ManifestMissing)
    } else {
        match first_error(hashes, hashes.len() as int) {
            Some(e) => Err(e),
            None => match digest::merkle_root(hash_bytes(hashes)) {
                Some(root) => Ok(digest::hex_text(root)),
                None => Err(NetErr::MerkleInvalid),
            },
        }
    }
}

/// Whether a Merkle root is the one over the given hashes.
pub open spec fn root_matches(root: Seq<char>, hashes: Seq<Seq<char>>) -> Result<bool, NetErr> {
    match root_of(hashes) {
        Ok(computed) => Ok(computed == root),
        Err(e) => Err(e),
    }
}

/// Reads a 32-byte hash from its hexadecimal form.
fn decode_hash(hash: &str) -> (out: Result<[u8; 32], ChunkNetErr>)
    ensures
        match out {
            Ok(bytes) => hash_error(hash@) is None && digest::hex_bytes(hash@)->Ok_0 == bytes@,
            Err(e) => hash_error(hash@) == Some(e@),
        },
{
    let bytes = match hex_decode(hash) {
        Ok(bytes) => bytes,
        Err(e) => return Err(ChunkNetErr::ParseErr(hex_error_message(e))),
    };
    if bytes.len() != 32 {
        return Err(ChunkNetErr::ParseErr("invalid hash len".to_owned()));
    }
    let mut out: [u8; 32] = [0u8;32];
    let mut i: usize = 0;
    while i < 32
        invariant
            i <= 32,
            bytes.len() == 32,
            forall|k: int| 0 <= k < i ==> out@[k] == bytes@[k],
        decreases 32 - i,
    {
        out[i] = bytes[i];
        i = i + 1;
    }
    assert(out@ =~= bytes@);
    Ok(out)
}

/// Computes the Merkle root over chunk hashes that are given in hexadecimal. It exists for every
/// list of well-formed hashes that is not empty; otherwise the first hash that is no hash is
/// reported.
pub fn compute_merkle_root(chunk_hashes: &[String]) -> (out: Result<String, ChunkNetErr>)
    ensures
        match out {
            Ok(root) => root_of(text::texts(chunk_hashes@)) == Ok::<Seq<char>, NetErr>(root@),
            Err(e) => root_of(text::texts(chunk_hashes@)) == Err::<Seq<char>, NetErr>(e@),
        },
        out is Ok <==> chunk_hashes@.len() > 0 && first_error(
            text::texts(chunk_hashes@),
            chunk_hashes@.len() as int,
        ) is None,
        out matches Ok(root) ==> root@.len() == 64,
{
    if chunk_hashes.len() == 0 {
        return Err(ChunkNetErr::ManifestMissing);
    }
    let ghost hashes = text::texts(chunk_hashes@);
    let mut leaves: Vec<[u8; 32]> = Vec::new();
    let mut i: usize = 0;
    while i < chunk_hashes.len()
        invariant
            i <= chunk_hashes.len(),
            hashes == text::texts(chunk_hashes@),
            first_error(hashes, i as int) is None,
            digest::leaf_bytes(leaves@) =~= hash_bytes(hashes).take(i as int),
        decreases chunk_hashes.len() - i,
    {
        assert(hashes[i as int] == chunk_hashes@[i as int]@);
        match decode_hash(chunk_hashes[i].as_str()) {
            Ok(leaf) => {
                let ghost before = leaves@;
                leaves.push(leaf);
                assert(digest::leaf_bytes(leaves@) =~= digest::leaf_bytes(before).push(leaf@));
            },
            Err(e) => {
                proof {
                    lemma_first_error_stays(hashes, i + 1, hashes.len() as int);
                }
                return Err(e);
            },
        }
        i = i + 1;
    }
    proof {
        assert(hash_bytes(hashes).take(i as int) =~= hash_bytes(hashes));
        digest::lemma_root_exists(hash_bytes(hashes));
    }
    match merkle_tree_root(leaves.as_slice()) {
        Some(root) => Ok(hex_encode(root.as_slice())),
        None => Err(ChunkNetErr::MerkleInvalid),
    }
}

/// Once an error is found, it is the first.
pub proof fn lemma_first_error_stays(hashes: Seq<Seq<char>>, n: int, m: int)
    requires
        0 <= n <= m,
        first_error(hashes, n) is Some,
    ensures
        first_error(hashes, m) == first_error(hashes, n),
    decreases m,
{
    if m > n {
        lemma_first_error_stays(hashes, n, m - 1);
    }
}

/// Checks whether a Merkle root is the one over the given chunk hashes.
pub fn verify_merkle_root(merkle_root: &str, chunk_hashes: &[String]) -> (out: Result<
    bool,
    ChunkNetErr,
>)
    ensures
        outcome(out) == root_matches(merkle_root@, text::texts(chunk_hashes@)),
        out is Ok <==> chunk_hashes@.len() > 0 && first_error(
            text::texts(chunk_hashes@),
            chunk_hashes@.len() as int,
        ) is None,
{
    match compute_merkle_root(chunk_hashes) {
        Ok(computed) => Ok(computed == merkle_root.to_owned()),
        Err(e) => Err(e),
    }
}

/// The SHA-256 of `data`, in lower-case hexadecimal.
pub fn hash_chunk(data: &[u8]) -> (out: String)
    requires
        digest::hashable(data@),
    ensures
        out@ == digest::hex_text(digest::sha256_digest(data@)),
        out@.len() == 64,
{
    hex_encode(sha256(data).as_slice())
}

/// Checks whether `expected` is the hash that `hash_chunk` gives for `data`.
pub fn verify_chunk_hash(data: &[u8], expected: &str) -> (out: bool)
    requires
        digest::hashable(data@),
    ensures
        out == (digest::hex_text(digest::sha256_digest(data@)) == expected@),
{
    hash_chunk(data) == expected.to_owned()
}

/// What the name of every state file ends with.
pub const META_EXT: &'static str = ".chiral.chunk.meta.json";

/// The name of the state file for a file of the given name; a file without a name counts as
/// `download`.
pub open spec fn meta_name(name: Option<Seq<char>>) -> Seq<char> {
    (match name {
        Some(n) => n,
        None => "download"@,
    }) + ".chiral.chunk.meta.json"@
}

/// The name of the state file for a file of the given name; a file without a name counts as
/// `download`.
pub fn meta_file_name(name: Option<&str>) -> (out: String)
    ensures
        out@ == meta_name(match name {
            Some(n) => Some(n@),
            None => None,
        }),
{
    let base = match name {
        Some(n) => n,
        None => "download",
    };
    base.to_owned().concat(META_EXT)
}

/// The path of the state file that belongs to the partial file at `tmp`: beside it, under the name
/// that `meta_file_name` gives.
pub fn meta_path(tmp: &str) -> (out: String)
    ensures
        out@ == paths::path_with_file_name(tmp@, meta_name(paths::path_file_name(tmp@))),
{
    let meta = match file_name(tmp) {
        Some(name) => meta_file_name(Some(name.as_str())),
        None => meta_file_name(None),
    };
    with_file_name(tmp, meta.as_str())
}

/// Where the state that belongs to the partial file at `tmp` is written first, before it is moved
/// to where `meta_path` says: beside it, with the extension `tmp`.
pub fn staging_path(tmp: &str) -> (out: String)
    ensures
        out@ == paths::path_with_extension(
            paths::path_with_file_name(tmp@, meta_name(paths::path_file_name(tmp@))),
            "tmp"@,
        ),
{
    proof {
        reveal_strlit("tmp");
    }
    with_extension(meta_path(tmp).as_str(), "tmp")
}

/// The text of an optional string slice.
pub open spec fn opt_str(s: Option<&str>) -> Option<Seq<char>> {
    match s {
        Some(t) => Some(t@),
        None => None,
    }
}

/// The name of the partial file whose state a scan finds in a file, given the extension, the whole
/// path and the name of that file; only a JSON file whose path speaks of chunk state counts.
pub open spec fn scanned_name(
    extension: Option<Seq<char>>,
    path: Seq<char>,
    name: Option<Seq<char>>,
) -> Option<Seq<char>> {
    if extension == Some("json"@) && text::occurs_in(".chiral.chunk.meta"@, path) {
        let name = match name {
            Some(n) => n,
            None => ""@,
        };
        Some(text::without_suffix(name, ".chiral.chunk.meta.json"@))
    } else {
        None
    }
}

/// The name of the partial file whose state a scan finds in a file, given the extension, the whole
/// path and the name of that file; only a JSON file whose path speaks of chunk state counts.
pub fn scan_target(extension: Option<&str>, path: &str, name: Option<&str>) -> (out: Option<String>)
    ensures
        text::opt_text(out) == scanned_name(opt_str(extension), path@, opt_str(name)),
{
    let is_json: bool = match extension {
        Some(e) => e.to_owned() == "json".to_owned(),
        None => false,
    };
    if !is_json || !contains_text(path, ".chiral.chunk.meta") {
        return None;
    }
    let name = match name {
        Some(n) => n,
        None => "",
    };
    Some(trim_end_text(name, META_EXT))
}

/// The download that a scan offers for recovery, given what loading a state file gave: one that is
/// not complete.
pub fn scan_entry(loaded: Result<DlState, ChunkNetErr>) -> (out: Option<DlState>)
    ensures
        out == (match loaded {
            Ok(state) => if state@.all_verified() {
                None
            } else {
                Some(state)
            },
            Err(_) => None,
        }),
{
    match loaded {
        Ok(state) => if state.is_complete() {
            None
        } else {
            Some(state)
        },
        Err(_) => None,
    }
}

/// What came of reading the bytes of a chunk from the partial file.
pub enum DiskRead {
    /// No read was made.
    NotRead,
    /// The file could not be opened, or the chunk not be read in full.
    Failed(String),
    /// The bytes of the chunk.
    Data(Vec<u8>),
}

/// The range of the partial file that checking a chunk takes, as offset and length; there is none
/// for a chunk without a hash.
pub fn read_range(chunk: &ChunkMeta) -> (out: Option<(u64, u32)>)
    ensures
        out == (if chunk@.hash.len() == 0 {
            None
        } else {
            Some((chunk.offset, chunk.size))
        }),
{
    if chunk.hash.as_str().is_empty() {
        None
    } else {
        Some((chunk.offset, chunk.size))
    }
}

/// What checking a chunk says: a chunk without a hash is good; one that could not be read is an
/// error; one that is there is good if the SHA-256 of its bytes in lower-case hexadecimal is the
/// hash.
pub open spec fn chunk_verdict(chunk: Chunk<Seq<char>>, read: DiskRead) -> Result<bool, NetErr> {
    if chunk.hash.len() == 0 {
        Ok(true)
    } else {
        match read {
            DiskRead::NotRead => Ok(false),
            DiskRead::Failed(e) => Err(NetErr::IoErr(e@)),
            DiskRead::Data(data) => Ok(
                digest::hex_text(digest::sha256_digest(data@)) == chunk.hash,
            ),
        }
    }
}

/// Whether `read` is an answer to the read that checking `chunk` takes.
pub open spec fn answers(read: DiskRead, chunk: Chunk<Seq<char>>) -> bool {
    match read {
        DiskRead::NotRead => chunk.hash.len() == 0,
        DiskRead::Failed(_) => true,
        DiskRead::Data(data) => data@.len() == chunk.size,
    }
}

/// Checks a chunk against its hash, given what came of reading it.
pub fn verify_chunk_from_disk(chunk: &ChunkMeta, read: &DiskRead) -> (out: Result<
    bool,
    ChunkNetErr,
>)
    requires
        answers(*read, chunk@),
    ensures
        outcome(out) == chunk_verdict(chunk@, *read),
{
    if chunk.hash.as_str().is_empty() {
        return Ok(true);
    }
    match read {
        DiskRead::NotRead => Ok(false),
        DiskRead::Failed(e) => Err(ChunkNetErr::IoErr(e.clone())),
        DiskRead::Data(data) => Ok(verify_chunk_hash(data.as_slice(), chunk.hash.as_str())),
    }
}

/// How many chunks were found good and how many were not.
#[derive(Debug, Clone, Copy, PartialEq, Eq, Structural)]
pub struct VerifyResult {
    pub verified: u32,
    pub failed: u32,
}

/// The indices of the chunks that have arrived and are to be checked.
pub open spec fn check_indices(d: State) -> Seq<u32> {
    download::indices(d.chunks, download::in_state(ChunkState::Downloaded))
}

/// Which of the verdicts say that a chunk is good.
pub open spec fn passes(verdicts: Seq<Result<bool, ChunkNetErr>>) -> Seq<bool> {
    verdicts.map_values(|v: Result<bool, ChunkNetErr>| v matches Ok(good) && good)
}

/// Those of the first `n` indices whose check was not passed.
pub open spec fn failing(idxs: Seq<u32>, pass: Seq<bool>, n: int) -> Seq<u32>
    decreases n,
{
    if n <= 0 {
        Seq::empty()
    } else {
        let before = failing(idxs, pass, n - 1);
        if pass[n - 1] {
            before
        } else {
            before.push(idxs[n - 1])
        }
    }
}

/// The test for chunks that have arrived and whose index is not among `bad`.
pub open spec fn good_test(bad: Seq<u32>) -> spec_fn(Chunk<Seq<char>>) -> bool {
    |c: Chunk<Seq<char>>| c.state == ChunkState::Downloaded && !bad.contains(c.idx)
}

/// The indices of the chunks that have arrived and whose index is not among `bad`.
pub open spec fn good_indices(d: State, bad: Seq<u32>) -> Seq<u32> {
    download::indices(d.chunks, good_test(bad))
}

/// The download after the first `n` of the chunks with the given indices have failed.
pub open spec fn each_failed(d: State, idxs: Seq<u32>, n: int, now: u64) -> State
    decreases n,
{
    if n <= 0 {
        d
    } else {
        each_failed(d, idxs, n - 1, now).failed(idxs[n - 1], now)
    }
}

/// The download after the first `n` of the chunks with the given indices have been found good.
pub open spec fn each_verified(d: State, idxs: Seq<u32>, n: int, now: u64) -> State
    decreases n,
{
    if n <= 0 {
        d
    } else {
        verified(each_verified(d, idxs, n - 1, now), idxs[n - 1], now)
    }
}

/// The indices of the chunks whose check was not passed.
pub open spec fn bad_indices(d: State, pass: Seq<bool>) -> Seq<u32> {
    failing(check_indices(d), pass, pass.len() as int)
}

/// The download after the first `n` of its good chunks have been noted, all the bad ones before
/// them.
pub open spec fn checked(d: State, pass: Seq<bool>, n: int, now: u64) -> State {
    let bad = bad_indices(d, pass);
    each_verified(each_failed(d, bad, bad.len() as int, now), good_indices(d, bad), n, now)
}

/// How many chunks a check finds good.
pub open spec fn good_len(d: State, pass: Seq<bool>) -> int {
    good_indices(d, bad_indices(d, pass)).len() as int
}

/// The download after all chunks that have arrived have been checked: first those that did not
/// pass have failed, then the others are verified.
pub open spec fn all_checked(d: State, pass: Seq<bool>, now: u64) -> State {
    checked(d, pass, good_len(d, pass), now)
}

/// Whether the counts of a check stay within their types.
pub open spec fn checks_fit(d: State, pass: Seq<bool>) -> bool {
    let good = download::count_true(pass, pass.len() as int);
    &&& good <= u32::MAX
    &&& pass.len() - good <= u32::MAX
    &&& forall|n: int|
        0 <= n <= good_len(d, pass) ==> (#[trigger] checked(
            d,
            pass,
            n,
            d.updated_at,
        )).verified_bytes <= u64::MAX
}

/// The counts of a check.
pub open spec fn check_counts(pass: Seq<bool>) -> VerifyResult {
    let good = download::count_true(pass, pass.len() as int);
    VerifyResult { verified: good as u32, failed: (pass.len() - good) as u32 }
}

/// The chunks that have arrived and are to be checked, in order.
pub fn chunks_to_check(state: &DlState) -> (out: Vec<ChunkMeta>)
    ensures
        chunk_views(out@) == state@.chunks.filter(download::in_state(ChunkState::Downloaded)),
{
    let ghost chunks = state@.chunks;
    let ghost test = download::in_state::<Seq<char>>(ChunkState::Downloaded);
    let mut out: Vec<ChunkMeta> = Vec::new();
    let mut i: usize = 0;
    assert(chunk_views(out@) =~= chunks.take(0).filter(test)) by {
        reveal(Seq::filter);
    }
    while i < state.chunks.len()
        invariant
            i <= state.chunks.len(),
            chunks == state@.chunks,
            test == download::in_state::<Seq<char>>(ChunkState::Downloaded),
            chunk_views(out@) == chunks.take(i as int).filter(test),
        decreases state.chunks.len() - i,
    {
        proof {
            download::lemma_filter_step(chunks, i as int, test);
        }
        let c = &state.chunks[i];
        let ghost before = out@;
        assert(chunks[i as int] == c@);
        if c.state == ChunkState::Downloaded {
            out.push(c.clone());
            assert(chunk_views(out@) =~= chunk_views(before).push(c@));
        }
        i = i + 1;
    }
    assert(chunks.take(i as int) =~= chunks);
    out
}

/// Whether `list` holds `idx`.
fn contains_index(list: &Vec<u32>, idx: u32) -> (out: bool)
    ensures
        out == list@.contains(idx),
{
    let mut i: usize = 0;
    while i < list.len()
        invariant
            i <= list.len(),
            forall|k: int| 0 <= k < i ==> list@[k] != idx,
        decreases list.len() - i,
    {
        if list[i] == idx {
            return true;
        }
        i = i + 1;
    }
    false
}

/// The indices of the chunks that have arrived and whose index is not among `bad`.
fn find_good(state: &DlState, bad: &Vec<u32>) -> (out: Vec<u32>)
    ensures
        out@ == good_indices(state@, bad@),
{
    let ghost chunks = state@.chunks;
    let mut out: Vec<u32> = Vec::new();
    let mut i: usize = 0;
    proof {
        reveal(Seq::filter);
    }
    while i < state.chunks.len()
        invariant
            i <= state.chunks.len(),
            chunks == state@.chunks,
            out@ =~= download::indices(chunks.take(i as int), good_test(bad@)),
        decreases state.chunks.len() - i,
    {
        proof {
            download::lemma_filter_step(chunks, i as int, good_test(bad@));
        }
        let c = &state.chunks[i];
        assert(chunks[i as int] == c@);
        if c.state == ChunkState::Downloaded && !contains_index(bad, c.idx) {
            out.push(c.idx);
        }
        i = i + 1;
    }
    assert(chunks.take(i as int) =~= chunks);
    out
}

/// What a check does to the chunks and to the count of verified bytes depends on these alone, not
/// on the rest of the download nor on the time.
pub proof fn lemma_checked_depends(
    d: State,
    e: State,
    pass: Seq<bool>,
    n: int,
    now: u64,
    other: u64,
)
    requires
        d.chunks == e.chunks,
        d.verified_bytes == e.verified_bytes,
    ensures
        checked(d, pass, n, now).chunks == checked(e, pass, n, other).chunks,
        checked(d, pass, n, now).verified_bytes == checked(e, pass, n, other).verified_bytes,
    decreases n,
{
    let bad = bad_indices(d, pass);
    if n > 0 {
        lemma_checked_depends(d, e, pass, n - 1, now, other);
    } else {
        lemma_failed_depends(d, e, bad, bad.len() as int, now, other);
    }
}

/// What failing chunks does to them and to the count of verified bytes depends on these alone.
pub proof fn lemma_failed_depends(
    d: State,
    e: State,
    idxs: Seq<u32>,
    n: int,
    now: u64,
    other: u64,
)
    requires
        d.chunks == e.chunks,
        d.verified_bytes == e.verified_bytes,
    ensures
        each_failed(d, idxs, n, now).chunks == each_failed(e, idxs, n, other).chunks,
        each_failed(d, idxs, n, now).verified_bytes == each_failed(
            e,
            idxs,
            n,
            other,
        ).verified_bytes,
    decreases n,
{
    if n > 0 {
        lemma_failed_depends(d, e, idxs, n - 1, now, other);
    }
}

/// How many verdicts say that a chunk is good, and the indices of the chunks of the others.
fn settle(state: &DlState, verdicts: &[Result<bool, ChunkNetErr>]) -> (out: (usize, Vec<u32>))
    requires
        verdicts@.len() == check_indices(state@).len(),
    ensures
        out.0 == download::count_true(passes(verdicts@), verdicts@.len() as int),
        out.1@ == bad_indices(state@, passes(verdicts@)),
        out.0 + out.1@.len() == verdicts@.len(),
{
    let ghost pass = passes(verdicts@);
    // With nothing known to be bad yet, these are all the chunks that have arrived.
    let none: Vec<u32> = Vec::new();
    let idxs = find_good(state, &none);
    proof {
        assert(good_test(none@) =~= download::in_state::<Seq<char>>(ChunkState::Downloaded));
    }
    let mut good: usize = 0;
    let mut bad: Vec<u32> = Vec::new();
    let mut i: usize = 0;
    while i < idxs.len()
        invariant
            i <= idxs.len(),
            idxs.len() == verdicts@.len(),
            pass == passes(verdicts@),
            bad@ == failing(idxs@, pass, i as int),
            good == download::count_true(pass, i as int),
            good + bad@.len() == i,
        decreases idxs.len() - i,
    {
        let passed: bool = match &verdicts[i] {
            Ok(b) => *b,
            Err(_) => false,
        };
        assert(passed == pass[i as int]);
        if passed {
            good = good + 1;
        } else {
            bad.push(idxs[i]);
        }
        i = i + 1;
    }
    (good, bad)
}

/// Whether the verdicts on the chunks that have arrived, in the order in which `chunks_to_check`
/// lists them, can be taken in without a count leaving its type.
pub fn verdicts_fit(state: &DlState, verdicts: &[Result<bool, ChunkNetErr>]) -> (out: bool)
    requires
        verdicts@.len() == check_indices(state@).len(),
    ensures
        out == checks_fit(state@, passes(verdicts@)),
{
    let ghost d = state@;
    let ghost pass = passes(verdicts@);
    let now: u64 = state.updated_at;
    let (good, bad) = settle(state, verdicts);
    if good > u32::MAX as usize || bad.len() > u32::MAX as usize {
        return false;
    }
    let to_verify = find_good(state, &bad);
    let mut trial = state.clone();
    let mut k: usize = 0;
    while k < bad.len()
        invariant
            k <= bad.len(),
            trial@ == each_failed(d, bad@, k as int, now),
        decreases bad.len() - k,
    {
        trial.mark_failed_at(bad[k], now);
        k = k + 1;
    }
    let mut k: usize = 0;
    while k < to_verify.len()
        invariant
            k <= to_verify.len(),
            d == state@,
            now == d.updated_at,
            pass == passes(verdicts@),
            bad@ == bad_indices(d, pass),
            to_verify@ == good_indices(d, bad@),
            trial@ == checked(d, pass, k as int, now),
            forall|n: int|
                0 <= n <= k ==> (#[trigger] checked(d, pass, n, now)).verified_bytes <= u64::MAX,
        decreases to_verify.len() - k,
    {
        let at: usize = to_verify[k] as usize;
        if at < trial.chunks.len() && trial.chunks[at].state == ChunkState::Downloaded {
            let size: u64 = trial.chunks[at].size as u64;
            assert(trial@.chunks[at as int].size == size);
            if trial.verified_bytes > u64::MAX - size {
                assert(checked(d, pass, k + 1, now).verified_bytes > u64::MAX);
                return false;
            }
        }
        trial.mark_verified_at(to_verify[k], now);
        assert(trial@ == checked(d, pass, k + 1, now));
        k = k + 1;
    }
    true
}

/// Takes in at `now` the verdicts on the chunks that have arrived, in the order in which
/// `chunks_to_check` lists them. A chunk that did not pass, or whose check ended in an error, has
/// failed; the others are verified. There is always a result.
pub fn verify_all_chunks_at(
    state: &mut DlState,
    verdicts: &[Result<bool, ChunkNetErr>],
    now: u64,
) -> (out: Result<VerifyResult, ChunkNetErr>)
    requires
        verdicts@.len() == check_indices(old(state)@).len(),
        checks_fit(old(state)@, passes(verdicts@)),
    ensures
        final(state)@ == all_checked(old(state)@, passes(verdicts@), now),
        out == Ok::<VerifyResult, ChunkNetErr>(check_counts(passes(verdicts@))),
{
    let ghost d = state@;
    let ghost pass = passes(verdicts@);
    let (good, bad) = settle(state, verdicts);
    let to_verify = find_good(state, &bad);
    let mut k: usize = 0;
    while k < bad.len()
        invariant
            k <= bad.len(),
            state@ == each_failed(d, bad@, k as int, now),
        decreases bad.len() - k,
    {
        state.mark_failed_at(bad[k], now);
        k = k + 1;
    }
    let mut k: usize = 0;
    while k < to_verify.len()
        invariant
            k <= to_verify.len(),
            bad@ == bad_indices(d, pass),
            to_verify@ == good_indices(d, bad@),
            checks_fit(d, pass),
            state@ == checked(d, pass, k as int, now),
        decreases to_verify.len() - k,
    {
        proof {
            assert(checked(d, pass, k + 1, d.updated_at).verified_bytes <= u64::MAX);
            lemma_checked_depends(d, d, pass, k + 1, now, d.updated_at);
        }
        state.mark_verified_at(to_verify[k], now);
        k = k + 1;
    }
    Ok(VerifyResult { verified: good as u32, failed: bad.len() as u32 })
}

/// Takes in the verdicts on the chunks that have arrived, as `verify_all_chunks_at` does, now.
pub fn verify_all_chunks(
    state: &mut DlState,
    verdicts: &[Result<bool, ChunkNetErr>],
) -> (out: Result<VerifyResult, ChunkNetErr>)
    requires
        verdicts@.len() == check_indices(old(state)@).len(),
        checks_fit(old(state)@, passes(verdicts@)),
    ensures
        exists|now: u64|
            final(state)@ == #[trigger] all_checked(old(state)@, passes(verdicts@), now),
        out == Ok::<VerifyResult, ChunkNetErr>(check_counts(passes(verdicts@))),
{
    let now: u64 = now_unix();
    verify_all_chunks_at(state, verdicts, now)
}

/// The providers that a lookup found; to find none is an error.
pub fn query_providers(found: Vec<String>) -> (out: Result<Vec<String>, ChunkNetErr>)
    ensures
        outcome(out) == (if found@.len() == 0 {
            Err(NetErr::NoProviders)
        } else {
            Ok(found)
        }),
{
    if found.len() == 0 {
        return Err(ChunkNetErr::NoProviders);
    }
    Ok(found)
}

/// The download with the providers that a lookup found.
pub open spec fn refreshed(d: State, found: Seq<Seq<char>>, now: u64) -> State {
    d.with_peers(found, found.len() as int, now)
}

/// Lists at `now` the providers that a lookup found, each unless it is listed already, and says how
/// many were new; to find none is an error and changes nothing.
pub fn refresh_providers_at(state: &mut DlState, found: Vec<String>, now: u64) -> (out: Result<
    usize,
    ChunkNetErr,
>)
    ensures
        final(state)@ == refreshed(old(state)@, text::texts(found@), now),
        outcome(out) == (if found@.len() == 0 {
            Err(NetErr::NoProviders)
        } else {
            Ok((final(state).providers@.len() - old(state).providers@.len()) as usize)
        }),
{
    let ghost d = state@;
    let providers = match query_providers(found) {
        Ok(list) => list,
        Err(e) => return Err(e),
    };
    let before: usize = state.providers.len();
    let mut i: usize = 0;
    while i < providers.len()
        invariant
            i <= providers.len(),
            state@ == d.with_peers(text::texts(providers@), i as int, now),
            before <= state.providers@.len(),
        decreases providers.len() - i,
    {
        assert(text::texts(providers@)[i as int] == providers@[i as int]@);
        let ghost held = state.providers@;
        state.add_provider_at(providers[i].clone(), now);
        assert(text::texts(held).len() == held.len());
        assert(state.providers@.len() == text::texts(state.providers@).len());
        i = i + 1;
    }
    Ok(state.providers.len() - before)
}

/// Lists the providers that a lookup found, as `refresh_providers_at` does, now.
pub fn refresh_providers(state: &mut DlState, found: Vec<String>) -> (out: Result<
    usize,
    ChunkNetErr,
>)
    ensures
        exists|now: u64|
            final(state)@ == #[trigger] refreshed(old(state)@, text::texts(found@), now),
        outcome(out) == (if found@.len() == 0 {
            Err(NetErr::NoProviders)
        } else {
            Ok((final(state).providers@.len() - old(state).providers@.len()) as usize)
        }),
{
    let now: u64 = now_unix();
    refresh_providers_at(state, found, now)
}

/// The recoveries that are under way, by Merkle root.
pub struct RecoverySvc {
    active: StringHashSet,
}

/// How a recovery that was asked for stands.
#[derive(Debug, Clone, Copy, PartialEq, Eq, Structural)]
pub enum Start {
    /// One is under way already; the download is left as it is.
    AlreadyActive,
    /// It is under way now.
    Started,
}

impl View for RecoverySvc {
    type V = Set<Seq<char>>;

    closed spec fn view(&self) -> Set<Seq<char>> {
        self.active@
    }
}

/// Whether the Merkle root of a download is the one over the hashes of its manifest; there is
/// nothing to say where it has no manifest that could be read.
pub open spec fn manifest_check(d: State, parsed: Option<FileManifest>) -> Option<
    Result<bool, NetErr>,
> {
    match parsed {
        Some(manifest) => if d.manifest is Some {
            Some(root_matches(d.merkle_root, manifest.hashes()))
        } else {
            None
        },
        None => None,
    }
}

/// How asking for a recovery turns out.
pub open spec fn start_outcome(
    active: Set<Seq<char>>,
    d: State,
    parsed: Option<FileManifest>,
) -> Result<Start, NetErr> {
    if active.contains(d.merkle_root) {
        Ok(Start::AlreadyActive)
    } else {
        match manifest_check(d, parsed) {
            None => Ok(Start::Started),
            Some(Ok(good)) => if good {
                Ok(Start::Started)
            } else {
                Err(NetErr::MerkleInvalid)
            },
            Some(Err(e)) => Err(e),
        }
    }
}

/// The recoveries that are under way after one was asked for. One whose Merkle root is wrong is
/// taken off again; one whose manifest holds a hash that is no hash stays.
pub open spec fn active_after(
    active: Set<Seq<char>>,
    d: State,
    parsed: Option<FileManifest>,
) -> Set<Seq<char>> {
    if !active.contains(d.merkle_root) && manifest_check(d, parsed) == Some(
        Ok::<bool, NetErr>(false),
    ) {
        active
    } else {
        active.insert(d.merkle_root)
    }
}

impl RecoverySvc {
    /// With no recovery under way.
    pub fn new() -> (out: RecoverySvc)
        ensures
            out@ == Set::<Seq<char>>::empty(),
    {
        RecoverySvc { active: StringHashSet::new() }
    }

    /// Asks for the recovery of a download: unless one is under way, it is noted as such and the
    /// Merkle root is checked against the manifest. `parsed` is what reading the JSON text of
    /// `state.manifest_json` as a manifest gave. Once started, the download is taken further by
    /// `resume_recovery`.
    pub fn start_recovery(&mut self, state: &DlState, parsed: &Option<FileManifest>) -> (out:
        Result<Start, ChunkNetErr>)
        ensures
            outcome(out) == start_outcome(old(self)@, state@, *parsed),
            final(self)@ == active_after(old(self)@, state@, *parsed),
    {
        let root = state.merkle_root.as_str();
        if self.active.contains(root) {
            assert(self@.insert(state@.merkle_root) =~= self@);
            return Ok(Start::AlreadyActive);
        }
        self.active.insert(state.merkle_root.clone());
        if state.manifest_json.is_some() {
            match parsed {
                Some(manifest) => {
                    let hashes = manifest_hashes(manifest);
                    match verify_merkle_root(root, hashes.as_slice()) {
                        Ok(good) => if !good {
                            self.active.remove(root);
                            assert(self@ =~= old(self)@);
                            return Err(ChunkNetErr::MerkleInvalid);
                        },
                        Err(e) => return Err(e),
                    }
                },
                None => {},
            }
        }
        Ok(Start::Started)
    }

    /// Notes that a recovery is over.
    pub fn complete_recovery(&mut self, merkle_root: &str)
        ensures
            final(self)@ == old(self)@.remove(merkle_root@),
    {
        self.active.remove(merkle_root);
    }

    /// Whether a recovery is under way.
    pub fn is_active(&self, merkle_root: &str) -> (out: bool)
        ensures
            out == self@.contains(merkle_root@),
    {
        self.active.contains(merkle_root)
    }
}

/// Takes a started recovery further at `now`: lists the providers that a lookup found, if it found
/// any, then takes in the verdicts on the chunks that have arrived.
pub fn resume_recovery_at(
    state: &mut DlState,
    found: Vec<String>,
    verdicts: &[Result<bool, ChunkNetErr>],
    now: u64,
) -> (out: Result<VerifyResult, ChunkNetErr>)
    requires
        verdicts@.len() == check_indices(old(state)@).len(),
        checks_fit(old(state)@, passes(verdicts@)),
    ensures
        final(state)@ == all_checked(
            refreshed(old(state)@, text::texts(found@), now),
            passes(verdicts@),
            now,
        ),
        out == Ok::<VerifyResult, ChunkNetErr>(check_counts(passes(verdicts@))),
{
    let ghost d = state@;
    let _ = refresh_providers_at(state, found, now);
    proof {
        let e = state@;
        let pass = passes(verdicts@);
        d.lemma_with_peers_frame(text::texts(found@), found@.len() as int, now);
        assert forall|n: int| 0 <= n <= good_len(e, pass) implies (#[trigger] checked(
            e,
            pass,
            n,
            e.updated_at,
        )).verified_bytes <= u64::MAX by {
            lemma_checked_depends(d, e, pass, n, d.updated_at, e.updated_at);
            assert(checked(d, pass, n, d.updated_at).verified_bytes <= u64::MAX);
        }
    }
    verify_all_chunks_at(state, verdicts, now)
}

/// Takes a started recovery further, as `resume_recovery_at` does, now.
pub fn resume_recovery(
    state: &mut DlState,
    found: Vec<String>,
    verdicts: &[Result<bool, ChunkNetErr>],
) -> (out: Result<VerifyResult, ChunkNetErr>)
    requires
        verdicts@.len() == check_indices(old(state)@).len(),
        checks_fit(old(state)@, passes(verdicts@)),
    ensures
        exists|now: u64|
            final(state)@ == all_checked(
                #[trigger] refreshed(old(state)@, text::texts(found@), now),
                passes(verdicts@),
                now,
            ),
        out == Ok::<VerifyResult, ChunkNetErr>(check_counts(passes(verdicts@))),
{
    let now: u64 = now_unix();
    resume_recovery_at(state, found, verdicts, now)
}

/// The download of a published file: with the chunks of its manifest where there is one that could
/// be read, or else with its chunks laid out for its size; and with its seeders as providers.
pub open spec fn state_of_metadata(
    meta: FileMetadata,
    parsed: Option<FileManifest>,
    tmp_path: Seq<char>,
    dst_path: Seq<char>,
    now: u64,
) -> State {
    let fresh = Download {
        encrypted: meta.is_encrypted,
        ..State::fresh(
            1,
            meta.merkle_root@,
            meta.file_name@,
            meta.file_size,
            tmp_path,
            dst_path,
            now,
        )
    };
    let seeders = text::texts(meta.seeders@);
    let with_chunks = if meta.manifest is Some && parsed is Some {
        with_manifest(fresh, parsed->0, text::opt_text(meta.manifest))
    } else {
        chunks_laid_out(fresh)
    };
    with_chunks.with_peers(seeders, seeders.len() as int, now)
}

/// Whether a published file has a manifest that could be read, or a size whose chunks can be
/// counted.
pub open spec fn can_lay_out(meta: FileMetadata, parsed: Option<FileManifest>) -> bool {
    (meta.manifest is Some && parsed is Some) || chunk::countable(meta.file_size)
}

/// Sets up at `now` the download of a published file. `parsed` is what reading the JSON text of
/// `meta.manifest` as a manifest gave. There is always a result.
pub fn from_file_metadata_at(
    meta: &FileMetadata,
    parsed: &Option<FileManifest>,
    tmp_path: String,
    dst_path: String,
    now: u64,
) -> (out: Result<DlState, ChunkNetErr>)
    requires
        can_lay_out(*meta, *parsed),
    ensures
        out matches Ok(state) && state@ == state_of_metadata(
            *meta,
            *parsed,
            tmp_path@,
            dst_path@,
            now,
        ),
{
    let mut state = DlState::new_at(
        meta.merkle_root.clone(),
        meta.file_name.clone(),
        meta.file_size,
        tmp_path,
        dst_path,
        now,
    );
    state.encrypted = meta.is_encrypted;
    match (&meta.manifest, parsed) {
        (Some(json), Some(manifest)) => state.init_from_manifest(manifest, Some(json.clone())),
        _ => state.init_chunks(),
    }
    let ghost d = state@;
    let mut i: usize = 0;
    while i < meta.seeders.len()
        invariant
            i <= meta.seeders.len(),
            state@ == d.with_peers(text::texts(meta.seeders@), i as int, now),
        decreases meta.seeders.len() - i,
    {
        assert(text::texts(meta.seeders@)[i as int] == meta.seeders@[i as int]@);
        state.add_provider_at(meta.seeders[i].clone(), now);
        i = i + 1;
    }
    Ok(state)
}

/// Sets up the download of a published file, as `from_file_metadata_at` does, now.
pub fn from_file_metadata(
    meta: &FileMetadata,
    parsed: &Option<FileManifest>,
    tmp_path: String,
    dst_path: String,
) -> (out: Result<DlState, ChunkNetErr>)
    requires
        can_lay_out(*meta, *parsed),
    ensures
        out matches Ok(state) && exists|now: u64|
            state@ == #[trigger] state_of_metadata(*meta, *parsed, tmp_path@, dst_path@, now),
{
    let now: u64 = now_unix();
    from_file_metadata_at(meta, parsed, tmp_path, dst_path, now)
}

} // verus!
