//! Recovery of interrupted downloads whose chunk hashes may be unknown.

pub mod effects;
pub mod laws;

pub use crate::chunk::{ChunkState, CHUNK_SIZE};

use crate::chunk;
use crate::chunk::{count_chunks, offset_of, size_of};
use crate::clock::now_unix;
use crate::digest;
use crate::digest::{hex_encode, sha256};
use crate::download;
use crate::download::{Chunk, Download};
use crate::models::{manifest_hashes, FileManifest, FileMetadata};
use crate::paths;
use crate::paths::{file_name, with_extension, with_file_name};
use crate::text;
use crate::text::{
    clone_opt, clone_strings, contains_string, decimal_text, ends_with_text, eq_ignoring_case,
};
use std::collections::HashSet;
use vstd::prelude::*;
use vstd::string::StringExecFns;

verus! {

/// How many downloads may be resumed at once.
pub const MAX_RESUMES: usize = 3;

/// Why a download could not be recovered.
#[derive(Debug, Clone)]
pub enum RecoveryErr {
    NotFound,
    VersionMismatch(u32),
    IoErr(String),
    ParseErr(String),
    NoSpace,
    Cancelled,
}

/// A chunk of a download, with its hash where it is known.
#[derive(Debug)]
pub struct ChunkMeta {
    pub idx: u32,
    pub offset: u64,
    pub size: u32,
    pub hash: Option<String>,
    pub state: ChunkState,
}

impl View for ChunkMeta {
    type V = Chunk<Option<Seq<char>>>;

    open spec fn view(&self) -> Chunk<Option<Seq<char>>> {
        Chunk {
            idx: self.idx,
            offset: self.offset,
            size: self.size,
            hash: text::opt_text(self.hash),
            state: self.state,
        }
    }
}

impl Clone for ChunkMeta {
    fn clone(&self) -> (out: ChunkMeta)
        ensures
            out == *self,
    {
        ChunkMeta {
            idx: self.idx,
            offset: self.offset,
            size: self.size,
            hash: clone_opt(&self.hash),
            state: self.state,
        }
    }
}

impl ChunkMeta {
    /// A chunk of which nothing has been fetched yet.
    pub fn new(idx: u32, offset: u64, size: u32, hash: Option<String>) -> (out: ChunkMeta)
        ensures
            out@ == (Chunk {
                idx,
                offset,
                size,
                hash: text::opt_text(hash),
                state: ChunkState::Pending,
            }),
    {
        ChunkMeta { idx, offset, size, hash, state: ChunkState::Pending }
    }
}

/// A download as it is kept between runs.
#[derive(Debug)]
pub struct DlState {
    pub version: u32,
    pub merkle_root: String,
    pub file_name: String,
    pub file_size: u64,
    pub tmp_path: String,
    pub dst_path: String,
    pub chunks: Vec<ChunkMeta>,
    pub verified_bytes: u64,
    pub peers: Vec<String>,
    pub manifest: Option<String>,
    pub encrypted: bool,
    pub updated_at: u64,
}

/// The chunks of a download as values.
pub open spec fn chunk_views(chunks: Seq<ChunkMeta>) -> Seq<Chunk<Option<Seq<char>>>> {
    chunks.map_values(|c: ChunkMeta| c@)
}

impl View for DlState {
    type V = Download<Option<Seq<char>>>;

    open spec fn view(&self) -> Download<Option<Seq<char>>> {
        Download {
            version: self.version,
            merkle_root: self.merkle_root@,
            file_name: self.file_name@,
            file_size: self.file_size,
            tmp_path: self.tmp_path@,
            dst_path: self.dst_path@,
            chunks: chunk_views(self.chunks@),
            verified_bytes: self.verified_bytes as int,
            peers: text::texts(self.peers@),
            manifest: text::opt_text(self.manifest),
            encrypted: self.encrypted,
            updated_at: self.updated_at,
        }
    }
}

impl Clone for DlState {
    fn clone(&self) -> (out: DlState)
        ensures
            out@ == self@,
    {
        let mut chunks: Vec<ChunkMeta> = Vec::new();
        let mut i: usize = 0;
        while i < self.chunks.len()
            invariant
                i <= self.chunks.len(),
                chunks@ == self.chunks@.take(i as int),
            decreases self.chunks.len() - i,
        {
            chunks.push(self.chunks[i].clone());
            i = i + 1;
        }
        assert(self.chunks@.take(i as int) =~= self.chunks@);
        DlState {
            version: self.version,
            merkle_root: self.merkle_root.clone(),
            file_name: self.file_name.clone(),
            file_size: self.file_size,
            tmp_path: self.tmp_path.clone(),
            dst_path: self.dst_path.clone(),
            chunks,
            verified_bytes: self.verified_bytes,
            peers: clone_strings(self.peers.as_slice()),
            manifest: clone_opt(&self.manifest),
            encrypted: self.encrypted,
            updated_at: self.updated_at,
        }
    }
}

/// A download of this module as a value.
pub type State = Download<Option<Seq<char>>>;

/// The hash that a list of hashes gives for the chunk at position `i`, where it reaches that far.
pub open spec fn hash_at(hashes: Option<Seq<Seq<char>>>, i: int) -> Option<Seq<char>> {
    match hashes {
        Some(list) => if i < list.len() {
            Some(list[i])
        } else {
            None
        },
        None => None,
    }
}

/// The texts of an optional list of hashes.
pub open spec fn opt_texts(hashes: Option<&[String]>) -> Option<Seq<Seq<char>>> {
    match hashes {
        Some(list) => Some(text::texts(list@)),
        None => None,
    }
}

/// The download with its chunks laid out anew for its file size, with the hashes that are known.
pub open spec fn chunks_laid_out(d: State, hashes: Option<Seq<Seq<char>>>) -> State {
    Download {
        chunks: Seq::new(
            chunk::chunk_count(d.file_size) as nat,
            |i: int| download::fresh_chunk(i, d.file_size, hash_at(hashes, i)),
        ),
        ..d
    }
}

/// The download after a chunk has arrived: only a pending one becomes downloaded.
pub open spec fn downloaded(d: State, idx: u32, now: u64) -> State {
    if d.has(idx, ChunkState::Pending) {
        d.with_state(idx, ChunkState::Downloaded, now)
    } else {
        d
    }
}

/// The download after a chunk has been found good: its bytes are counted unless they were before.
pub open spec fn verified(d: State, idx: u32, now: u64) -> State {
    if idx < d.chunks.len() && !d.has(idx, ChunkState::Verified) {
        d.with_verified(idx, now)
    } else {
        d
    }
}

/// Whether the chunk can be counted as verified within a `u64`.
pub open spec fn can_verify(d: State, idx: u32) -> bool {
    idx < d.chunks.len() && !d.has(idx, ChunkState::Verified) ==> d.has_room_for(idx)
}

/// Whether the download has chunks and all of them are verified.
pub open spec fn complete(d: State) -> bool {
    d.chunks.len() > 0 && d.all_verified()
}

impl DlState {
    /// The version of the state that this module writes.
    pub const VERSION: u32 = 1;

    /// A download of which nothing is known but the file, started at `now`.
    pub fn new_at(
        merkle_root: String,
        file_name: String,
        file_size: u64,
        tmp_path: String,
        dst_path: String,
        now: u64,
    ) -> (out: DlState)
        ensures
            out@ == State::fresh(
                1,
                merkle_root@,
                file_name@,
                file_size,
                tmp_path@,
                dst_path@,
                now,
            ),
    {
        DlState {
            version: Self::VERSION,
            merkle_root,
            file_name,
            file_size,
            tmp_path,
            dst_path,
            chunks: Vec::new(),
            verified_bytes: 0,
            peers: Vec::new(),
            manifest: None,
            encrypted: false,
            updated_at: now,
        }
    }

    /// A download of which nothing is known but the file, started now.
    pub fn new(
        merkle_root: String,
        file_name: String,
        file_size: u64,
        tmp_path: String,
        dst_path: String,
    ) -> (out: DlState)
        ensures
            exists|now: u64|
                out@ == #[trigger] State::fresh(
                    1,
                    merkle_root@,
                    file_name@,
                    file_size,
                    tmp_path@,
                    dst_path@,
                    now,
                ),
    {
        let now: u64 = now_unix();
        Self::new_at(merkle_root, file_name, file_size, tmp_path, dst_path, now)
    }

    /// Lays out the chunks anew for the file size, all of them pending, with `hashes` as far as
    /// they reach. The bytes that were counted as verified stay counted.
    pub fn init_chunks(&mut self, hashes: Option<&[String]>)
        requires
            chunk::countable(old(self).file_size),
        ensures
            final(self)@ == chunks_laid_out(old(self)@, opt_texts(hashes)),
            final(self).chunks@.len() == chunk::chunk_count(old(self).file_size),
    {
        let file_size: u64 = self.file_size;
        let cnt: u32 = count_chunks(file_size);
        let ghost goal = chunks_laid_out(self@, opt_texts(hashes)).chunks;
        let mut chunks: Vec<ChunkMeta> = Vec::new();
        let mut i: u32 = 0;
        while i < cnt
            invariant
                i <= cnt,
                goal.len() == cnt,
                forall|k: int|
                    0 <= k < cnt ==> #[trigger] goal[k] == download::fresh_chunk(
                        k,
                        file_size,
                        hash_at(opt_texts(hashes), k),
                    ),
                chunk_views(chunks@) =~= goal.take(i as int),
            decreases cnt - i,
        {
            let hash: Option<String> = match hashes {
                Some(list) => if (i as usize) < list.len() {
                    Some(list[i as usize].clone())
                } else {
                    None
                },
                None => None,
            };
            let chunk = ChunkMeta::new(i, offset_of(i), size_of(i, file_size), hash);
            let ghost before = chunks@;
            assert(chunk@ == goal[i as int]);
            chunks.push(chunk);
            assert(chunk_views(chunks@) =~= chunk_views(before).push(goal[i as int]));
            i = i + 1;
        }
        assert(goal.take(cnt as int) =~= goal);
        self.chunks = chunks;
        assert(self.chunks@.len() == chunk_views(self.chunks@).len());
    }

    /// Notes at `now` that a chunk has arrived; only a pending one becomes downloaded.
    pub fn mark_downloaded_at(&mut self, idx: u32, now: u64)
        ensures
            final(self)@ == downloaded(old(self)@, idx, now),
    {
        let i: usize = idx as usize;
        if i < self.chunks.len() && self.chunks[i].state == ChunkState::Pending {
            self.chunks[i].state = ChunkState::Downloaded;
            self.updated_at = now;
            assert(self@.chunks =~= downloaded(old(self)@, idx, now).chunks);
        }
    }

    /// Notes that a chunk has arrived; only a pending one becomes downloaded.
    pub fn mark_downloaded(&mut self, idx: u32)
        ensures
            exists|now: u64| final(self)@ == #[trigger] downloaded(old(self)@, idx, now),
    {
        let now: u64 = now_unix();
        self.mark_downloaded_at(idx, now);
    }

    /// Notes at `now` that a chunk has been found good, and counts its bytes unless they were
    /// counted before.
    pub fn mark_verified_at(&mut self, idx: u32, now: u64)
        requires
            can_verify(old(self)@, idx),
        ensures
            final(self)@ == verified(old(self)@, idx, now),
    {
        let i: usize = idx as usize;
        if i < self.chunks.len() && self.chunks[i].state != ChunkState::Verified {
            let size: u32 = self.chunks[i].size;
            assert(self@.chunks[i as int].size == size);
            self.chunks[i].state = ChunkState::Verified;
            self.verified_bytes = self.verified_bytes + size as u64;
            self.updated_at = now;
            assert(self@.chunks =~= verified(old(self)@, idx, now).chunks);
        }
    }

    /// Notes that a chunk has been found good, and counts its bytes unless they were counted
    /// before.
    pub fn mark_verified(&mut self, idx: u32)
        requires
            can_verify(old(self)@, idx),
        ensures
            exists|now: u64| final(self)@ == #[trigger] verified(old(self)@, idx, now),
    {
        let now: u64 = now_unix();
        self.mark_verified_at(idx, now);
    }

    /// Notes at `now` that a chunk is no good; the bytes of a verified one are no longer counted.
    pub fn mark_failed_at(&mut self, idx: u32, now: u64)
        ensures
            final(self)@ == old(self)@.failed(idx, now),
    {
        let i: usize = idx as usize;
        if i < self.chunks.len() {
            if self.chunks[i].state == ChunkState::Verified {
                let size: u64 = self.chunks[i].size as u64;
                assert(self@.chunks[i as int].size == size);
                if self.verified_bytes >= size {
                    self.verified_bytes = self.verified_bytes - size;
                } else {
                    self.verified_bytes = 0;
                }
            }
            self.chunks[i].state = ChunkState::Failed;
            self.updated_at = now;
            assert(self@.chunks =~= old(self)@.failed(idx, now).chunks);
        }
    }

    /// Notes that a chunk is no good; the bytes of a verified one are no longer counted.
    pub fn mark_failed(&mut self, idx: u32)
        ensures
            exists|now: u64| final(self)@ == #[trigger] old(self)@.failed(idx, now),
    {
        let now: u64 = now_unix();
        self.mark_failed_at(idx, now);
    }

    /// The indices of the chunks that are still to be fetched: those pending and those failed.
    pub fn pending_chunks(&self) -> (out: Vec<u32>)
        ensures
            out@ == self@.pending(),
    {
        let ghost chunks = self@.chunks;
        let mut out: Vec<u32> = Vec::new();
        let mut i: usize = 0;
        while i < self.chunks.len()
            invariant
                i <= self.chunks.len(),
                chunks == self@.chunks,
                out@ =~= download::indices(chunks.take(i as int), download::to_fetch()),
            decreases self.chunks.len() - i,
        {
            proof {
                download::lemma_filter_step(chunks, i as int, download::to_fetch());
            }
            let state: ChunkState = self.chunks[i].state;
            assert(chunks[i as int] == self.chunks@[i as int]@);
            if state == ChunkState::Pending || state == ChunkState::Failed {
                out.push(self.chunks[i].idx);
            }
            i = i + 1;
        }
        assert(chunks.take(i as int) =~= chunks);
        out
    }

    /// The indices of the chunks that have arrived and are still to be checked.
    pub fn unverified_chunks(&self) -> (out: Vec<u32>)
        ensures
            out@ == download::indices(self@.chunks, download::in_state(ChunkState::Downloaded)),
    {
        let ghost chunks = self@.chunks;
        let ghost test = download::in_state::<Option<Seq<char>>>(ChunkState::Downloaded);
        let mut out: Vec<u32> = Vec::new();
        let mut i: usize = 0;
        while i < self.chunks.len()
            invariant
                i <= self.chunks.len(),
                chunks == self@.chunks,
                test == download::in_state::<Option<Seq<char>>>(ChunkState::Downloaded),
                out@ =~= download::indices(chunks.take(i as int), test),
            decreases self.chunks.len() - i,
        {
            proof {
                download::lemma_filter_step(chunks, i as int, test);
            }
            assert(chunks[i as int] == self.chunks@[i as int]@);
            if self.chunks[i].state == ChunkState::Downloaded {
                out.push(self.chunks[i].idx);
            }
            i = i + 1;
        }
        assert(chunks.take(i as int) =~= chunks);
        out
    }

    /// Whether there are chunks and all of them are verified.
    pub fn is_complete(&self) -> (out: bool)
        ensures
            out == complete(self@),
    {
        if self.chunks.len() == 0 {
            return false;
        }
        let mut i: usize = 0;
        while i < self.chunks.len()
            invariant
                i <= self.chunks.len(),
                forall|k: int|
                    0 <= k < i ==> (#[trigger] self@.chunks[k]).state == ChunkState::Verified,
            decreases self.chunks.len() - i,
        {
            assert(self@.chunks[i as int] == self.chunks@[i as int]@);
            if self.chunks[i].state != ChunkState::Verified {
                return false;
            }
            i = i + 1;
        }
        true
    }

    /// How far the download has come, as the two terms of a fraction: the verified bytes and the
    /// file size, or one and one for an empty file.
    pub fn progress_parts(&self) -> (out: (u64, u64))
        ensures
            out == (if self.file_size == 0 {
                (1u64, 1u64)
            } else {
                (self.verified_bytes, self.file_size)
            }),
    {
        if self.file_size == 0 {
            (1, 1)
        } else {
            (self.verified_bytes, self.file_size)
        }
    }

    /// Lists a peer at `now`, unless it is listed already.
    pub fn add_peer_at(&mut self, peer: String, now: u64)
        ensures
            final(self)@ == old(self)@.with_peer(peer@, now),
    {
        if !contains_string(&self.peers, &peer) {
            let ghost text = peer@;
            self.peers.push(peer);
            self.updated_at = now;
            assert(text::texts(self.peers@) =~= text::texts(old(self).peers@).push(text));
        }
    }

    /// Lists a peer, unless it is listed already.
    pub fn add_peer(&mut self, peer: String)
        ensures
            exists|now: u64| final(self)@ == #[trigger] old(self)@.with_peer(peer@, now),
    {
        let now: u64 = now_unix();
        self.add_peer_at(peer, now);
    }
}

/// What the name of every state file ends with.
pub const META_SUFFIX: &'static str = ".chiral.p2p.meta.json";

/// The name of the state file for a file of the given name; a file without a name counts as `dl`.
pub open spec fn meta_name(name: Option<Seq<char>>) -> Seq<char> {
    "."@ + (match name {
        Some(n) => n,
        None => "dl"@,
    }) + ".chiral.p2p.meta.json"@
}

/// The name of the state file for a file of the given name; a file without a name counts as `dl`.
pub fn meta_file_name(name: Option<&str>) -> (out: String)
    ensures
        out@ == meta_name(match name {
            Some(n) => Some(n@),
            None => None,
        }),
{
    let mut out = ".".to_owned();
    match name {
        Some(n) => out.append(n),
        None => out.append("dl"),
    }
    out.append(META_SUFFIX);
    out
}

/// The path of the state file that belongs to the partial file at `tmp`: beside it, under the name
/// that `meta_file_name` gives.
pub fn meta_path(tmp: &str) -> (out: String)
    ensures
        out@ == paths::path_with_file_name(tmp@, meta_name(paths::path_file_name(tmp@))),
{
    let meta = match file_name(tmp) {
        Some(name) => meta_file_name(Some(name.as_str())),
        None => meta_file_name(None),
    };
    with_file_name(tmp, meta.as_str())
}

/// Where the state that belongs to the partial file at `tmp` is written first, before it is moved
/// to where `meta_path` says: beside it, with the extension `tmp`.
pub fn staging_path(tmp: &str) -> (out: String)
    ensures
        out@ == paths::path_with_extension(
            paths::path_with_file_name(tmp@, meta_name(paths::path_file_name(tmp@))),
            "tmp"@,
        ),
{
    proof {
        reveal_strlit("tmp");
    }
    with_extension(meta_path(tmp).as_str(), "tmp")
}

/// Whether a file of the given name is a state file.
pub fn is_meta_file(name: &str) -> (out: bool)
    ensures
        out == text::has_suffix(name@, ".chiral.p2p.meta.json"@),
{
    ends_with_text(name, META_SUFFIX)
}

/// A loaded state that this module can work with: one of a version that it knows.
pub fn check_version(state: DlState) -> (out: Result<DlState, String>)
    ensures
        match out {
            Ok(s) => s == state && state.version <= 1,
            Err(message) => state.version > 1 && message@ == "version "@ + text::decimal(
                state.version as nat,
            ) + " unsupported"@,
        },
{
    if state.version > DlState::VERSION {
        let mut message = "version ".to_owned();
        message.append(decimal_text(state.version).as_str());
        message.append(" unsupported");
        return Err(message);
    }
    Ok(state)
}

/// What a scan does about a state file.
pub enum ScanAction {
    /// The download is unfinished: offer it for recovery.
    Resume(DlState),
    /// The download is done: remove the state file.
    RemoveMeta,
    /// The file cannot be read as a state: leave it.
    Ignore,
}

/// What a scan does about a state file, given what loading it gave.
pub fn scan_entry(loaded: Result<DlState, String>) -> (out: ScanAction)
    ensures
        out == (match loaded {
            Ok(state) => if complete(state@) {
                ScanAction::RemoveMeta
            } else {
                ScanAction::Resume(state)
            },
            Err(_) => ScanAction::Ignore,
        }),
{
    match loaded {
        Ok(state) => if state.is_complete() {
            ScanAction::RemoveMeta
        } else {
            ScanAction::Resume(state)
        },
        Err(_) => ScanAction::Ignore,
    }
}

/// What came of reading the bytes of a chunk from the partial file.
pub enum ChunkRead {
    /// No read was made.
    NotRead,
    /// The file could not be opened.
    OpenFailed(String),
    /// The start of the chunk could not be reached.
    SeekFailed(String),
    /// The file ends before the chunk does.
    Short,
    /// The bytes of the chunk.
    Data(Vec<u8>),
}

/// The range of the partial file that checking a chunk takes, as offset and length; there is none
/// for a chunk without a hash.
pub fn read_range(chunk: &ChunkMeta) -> (out: Option<(u64, u32)>)
    ensures
        out == (match chunk@.hash {
            Some(_) => Some((chunk.offset, chunk.size)),
            None => None,
        }),
{
    match &chunk.hash {
        Some(_) => Some((chunk.offset, chunk.size)),
        None => None,
    }
}

/// What checking a chunk says: a chunk without a hash is good; one that could not be reached is an
/// error; one that is there is good if the SHA-256 of its bytes in hexadecimal is the hash, in
/// either case of the letters.
pub open spec fn chunk_verdict(chunk: Chunk<Option<Seq<char>>>, read: ChunkRead) -> Result<
    bool,
    Seq<char>,
> {
    match chunk.hash {
        None => Ok(true),
        Some(hash) => match read {
            ChunkRead::OpenFailed(e) => Err("open failed: "@ + e@),
            ChunkRead::SeekFailed(e) => Err(
                "seek chunk "@ + text::decimal(chunk.idx as nat) + " failed: "@ + e@,
            ),
            ChunkRead::Data(data) => Ok(
                text::same_ignoring_case(digest::hex_text(digest::sha256_digest(data@)), hash),
            ),
            _ => Ok(false),
        },
    }
}

/// Whether `read` is an answer to the read that checking `chunk` takes.
pub open spec fn answers(read: ChunkRead, chunk: Chunk<Option<Seq<char>>>) -> bool {
    match read {
        ChunkRead::NotRead => chunk.hash is None,
        ChunkRead::Data(data) => data@.len() == chunk.size,
        _ => true,
    }
}

/// The text of an error that came with a verdict.
pub open spec fn verdict_text(verdict: Result<bool, String>) -> Result<bool, Seq<char>> {
    match verdict {
        Ok(good) => Ok(good),
        Err(e) => Err(e@),
    }
}

/// Checks a chunk against its hash, given what came of reading it.
pub fn verify_chunk(chunk: &ChunkMeta, read: &ChunkRead) -> (out: Result<bool, String>)
    requires
        answers(*read, chunk@),
    ensures
        verdict_text(out) == chunk_verdict(chunk@, *read),
{
    let expected = match &chunk.hash {
        Some(h) => h,
        None => return Ok(true),
    };
    match read {
        ChunkRead::OpenFailed(e) => {
            let mut message = "open failed: ".to_owned();
            message.append(e.as_str());
            Err(message)
        },
        ChunkRead::SeekFailed(e) => {
            let mut message = "seek chunk ".to_owned();
            message.append(decimal_text(chunk.idx).as_str());
            message.append(" failed: ");
            message.append(e.as_str());
            Err(message)
        },
        ChunkRead::Data(data) => {
            let actual = hex_encode(sha256(data.as_slice()).as_slice());
            Ok(eq_ignoring_case(actual.as_str(), expected.as_str()))
        },
        _ => Ok(false),
    }
}

/// Counts of what checking the chunks of a download gave.
#[derive(Debug, Clone, Copy, PartialEq, Eq, Structural)]
pub struct VerifyResult {
    pub total: usize,
    pub verified: usize,
    pub failed: usize,
    pub skipped: usize,
}

impl Default for VerifyResult {
    fn default() -> (out: VerifyResult)
        ensures
            out == (VerifyResult { total: 0, verified: 0, failed: 0, skipped: 0 }),
    {
        VerifyResult { total: 0, verified: 0, failed: 0, skipped: 0 }
    }
}

/// The test for chunks whose bytes should be in the partial file.
pub open spec fn present() -> spec_fn(Chunk<Option<Seq<char>>>) -> bool {
    |c: Chunk<Option<Seq<char>>>|
        c.state == ChunkState::Downloaded || c.state == ChunkState::Verified
}

/// The test for chunks that can be checked: present, and with a hash.
pub open spec fn checkable() -> spec_fn(Chunk<Option<Seq<char>>>) -> bool {
    |c: Chunk<Option<Seq<char>>>| present()(c) && c.hash is Some
}

/// Which of the verdicts say that a chunk is good.
pub open spec fn passes(verdicts: Seq<Result<bool, String>>) -> Seq<bool> {
    verdicts.map_values(|v: Result<bool, String>| v matches Ok(good) && good)
}

/// The download after the first `n` of the chunks with the given indices have been checked: a
/// chunk that passed is verified, one that did not has failed.
pub open spec fn checked(d: State, idxs: Seq<u32>, pass: Seq<bool>, n: int, now: u64) -> State
    decreases n,
{
    if n <= 0 {
        d
    } else {
        let before = checked(d, idxs, pass, n - 1, now);
        if pass[n - 1] {
            verified(before, idxs[n - 1], now)
        } else {
            before.failed(idxs[n - 1], now)
        }
    }
}

/// The indices of the chunks that can be checked.
pub open spec fn check_indices(d: State) -> Seq<u32> {
    download::indices(d.chunks, checkable())
}

/// Whether the count of verified bytes stays within a `u64` while the chunks are checked.
pub open spec fn checks_fit(d: State, pass: Seq<bool>) -> bool {
    forall|n: int|
        0 <= n <= pass.len() ==> (#[trigger] checked(
            d,
            check_indices(d),
            pass,
            n,
            d.updated_at,
        )).verified_bytes <= u64::MAX
}

/// The download after all its chunks that can be checked have been. Without a partial file there
/// is nothing to check.
pub open spec fn all_checked(d: State, tmp_exists: bool, pass: Seq<bool>, now: u64) -> State {
    if tmp_exists {
        checked(d, check_indices(d), pass, pass.len() as int, now)
    } else {
        d
    }
}

/// The counts for a check of all chunks. Without a partial file every chunk is skipped; with one,
/// those are that are present but have no hash.
pub open spec fn check_counts(d: State, tmp_exists: bool, pass: Seq<bool>) -> VerifyResult {
    let good = download::count_true(pass, pass.len() as int);
    if tmp_exists {
        VerifyResult {
            total: d.chunks.len() as usize,
            verified: good as usize,
            failed: (pass.len() - good) as usize,
            skipped: (d.chunks.filter(present()).len() - pass.len()) as usize,
        }
    } else {
        VerifyResult {
            total: d.chunks.len() as usize,
            verified: 0,
            failed: 0,
            skipped: d.chunks.len() as usize,
        }
    }
}

/// The chunks that can be checked, in order: those that are present and have a hash.
pub fn chunks_to_check(state: &DlState) -> (out: Vec<ChunkMeta>)
    ensures
        chunk_views(out@) == state@.chunks.filter(checkable()),
{
    let ghost chunks = state@.chunks;
    let mut out: Vec<ChunkMeta> = Vec::new();
    let mut i: usize = 0;
    assert(chunk_views(out@) =~= chunks.take(0).filter(checkable())) by {
        reveal(Seq::filter);
    }
    while i < state.chunks.len()
        invariant
            i <= state.chunks.len(),
            chunks == state@.chunks,
            chunk_views(out@) == chunks.take(i as int).filter(checkable()),
        decreases state.chunks.len() - i,
    {
        proof {
            download::lemma_filter_step(chunks, i as int, checkable());
        }
        let c = &state.chunks[i];
        let ghost before = out@;
        assert(chunks[i as int] == c@);
        if (c.state == ChunkState::Downloaded || c.state == ChunkState::Verified)
            && c.hash.is_some() {
            out.push(c.clone());
            assert(chunk_views(out@) =~= chunk_views(before).push(c@));
        }
        i = i + 1;
    }
    assert(chunks.take(i as int) =~= chunks);
    out
}

/// The indices of the chunks that can be checked, and how many are present but have no hash.
fn survey(state: &DlState) -> (out: (Vec<u32>, usize))
    ensures
        out.0@ == check_indices(state@),
        out.1 == state@.chunks.filter(present()).len() - out.0@.len(),
        out.0@.len() <= state.chunks.len(),
{
    let ghost chunks = state@.chunks;
    let mut idxs: Vec<u32> = Vec::new();
    let mut skipped: usize = 0;
    let mut i: usize = 0;
    proof {
        reveal(Seq::filter);
    }
    while i < state.chunks.len()
        invariant
            i <= state.chunks.len(),
            chunks == state@.chunks,
            idxs@ =~= download::indices(chunks.take(i as int), checkable()),
            skipped == chunks.take(i as int).filter(present()).len() - idxs@.len(),
            skipped + idxs@.len() <= i,
        decreases state.chunks.len() - i,
    {
        proof {
            download::lemma_filter_step(chunks, i as int, checkable());
            download::lemma_filter_step(chunks, i as int, present());
        }
        let c = &state.chunks[i];
        assert(chunks[i as int] == c@);
        if c.state == ChunkState::Downloaded || c.state == ChunkState::Verified {
            if c.hash.is_some() {
                idxs.push(c.idx);
            } else {
                skipped = skipped + 1;
            }
        }
        i = i + 1;
    }
    assert(chunks.take(i as int) =~= chunks);
    (idxs, skipped)
}

/// When chunks are checked has no bearing on what becomes of them.
pub proof fn lemma_checked_any_time(
    d: State,
    idxs: Seq<u32>,
    pass: Seq<bool>,
    n: int,
    now: u64,
    other: u64,
)
    ensures
        checked(d, idxs, pass, n, now).chunks == checked(d, idxs, pass, n, other).chunks,
        checked(d, idxs, pass, n, now).verified_bytes == checked(
            d,
            idxs,
            pass,
            n,
            other,
        ).verified_bytes,
    decreases n,
{
    if n > 0 {
        lemma_checked_any_time(d, idxs, pass, n - 1, now, other);
    }
}

/// Whether the verdicts on the chunks that can be checked, in the order in which `chunks_to_check`
/// lists them, can be taken in without the count of verified bytes leaving a `u64`.
pub fn verdicts_fit(state: &DlState, verdicts: &[Result<bool, String>]) -> (out: bool)
    requires
        verdicts@.len() == check_indices(state@).len(),
    ensures
        out == checks_fit(state@, passes(verdicts@)),
{
    let ghost d = state@;
    let ghost pass = passes(verdicts@);
    let now: u64 = state.updated_at;
    let mut trial = state.clone();
    let (idxs, _) = survey(state);
    let mut i: usize = 0;
    while i < idxs.len()
        invariant
            i <= idxs.len(),
            idxs.len() == verdicts@.len(),
            idxs@ == check_indices(d),
            d == state@,
            pass == passes(verdicts@),
            now == d.updated_at,
            trial@ == checked(d, idxs@, pass, i as int, now),
            forall|n: int|
                0 <= n <= i ==> (#[trigger] checked(d, idxs@, pass, n, now)).verified_bytes
                    <= u64::MAX,
        decreases idxs.len() - i,
    {
        let good: bool = match &verdicts[i] {
            Ok(b) => *b,
            Err(_) => false,
        };
        assert(good == pass[i as int]);
        if good {
            let at: usize = idxs[i] as usize;
            if at < trial.chunks.len() && trial.chunks[at].state != ChunkState::Verified {
                let size: u64 = trial.chunks[at].size as u64;
                assert(trial@.chunks[at as int].size == size);
                if trial.verified_bytes > u64::MAX - size {
                    assert(checked(d, idxs@, pass, i + 1, now).verified_bytes > u64::MAX);
                    return false;
                }
            }
            trial.mark_verified_at(idxs[i], now);
        } else {
            trial.mark_failed_at(idxs[i], now);
        }
        assert(trial@ == checked(d, idxs@, pass, i + 1, now));
        i = i + 1;
    }
    true
}

/// Takes in at `now` the verdicts on the chunks that can be checked, in the order in which
/// `chunks_to_check` lists them. A chunk that passed is verified; one that did not, or whose check
/// ended in an error, has failed. Where the partial file does not exist nothing changes and every
/// chunk counts as skipped. There is always a result.
pub fn verify_all_at(
    state: &mut DlState,
    tmp_exists: bool,
    verdicts: &[Result<bool, String>],
    now: u64,
) -> (out: Result<VerifyResult, String>)
    requires
        tmp_exists ==> verdicts@.len() == check_indices(old(state)@).len(),
        tmp_exists ==> checks_fit(old(state)@, passes(verdicts@)),
    ensures
        final(state)@ == all_checked(old(state)@, tmp_exists, passes(verdicts@), now),
        out == Ok::<VerifyResult, String>(
            check_counts(old(state)@, tmp_exists, passes(verdicts@)),
        ),
{
    let total: usize = state.chunks.len();
    if !tmp_exists {
        return Ok(VerifyResult { total, verified: 0, failed: 0, skipped: total });
    }
    let ghost d = state@;
    let ghost pass = passes(verdicts@);
    let (idxs, skipped) = survey(state);
    let mut verified: usize = 0;
    let mut failed: usize = 0;
    let mut i: usize = 0;
    while i < idxs.len()
        invariant
            i <= idxs.len(),
            idxs.len() == verdicts@.len(),
            idxs@ == check_indices(d),
            pass == passes(verdicts@),
            checks_fit(d, pass),
            state@ == checked(d, idxs@, pass, i as int, now),
            verified == download::count_true(pass, i as int),
            verified + failed == i,
        decreases idxs.len() - i,
    {
        let idx: u32 = idxs[i];
        let good: bool = match &verdicts[i] {
            Ok(b) => *b,
            Err(_) => false,
        };
        assert(good == pass[i as int]);
        if good {
            proof {
                let next = checked(d, idxs@, pass, i + 1, d.updated_at);
                assert(next.verified_bytes <= u64::MAX);
                lemma_checked_any_time(d, idxs@, pass, i + 1, now, d.updated_at);
            }
            state.mark_verified_at(idx, now);
            verified = verified + 1;
        } else {
            state.mark_failed_at(idx, now);
            failed = failed + 1;
        }
        i = i + 1;
    }
    Ok(VerifyResult { total, verified, failed, skipped })
}

/// Takes in the verdicts on the chunks that can be checked, as `verify_all_at` does, now.
pub fn verify_all(
    state: &mut DlState,
    tmp_exists: bool,
    verdicts: &[Result<bool, String>],
) -> (out: Result<VerifyResult, String>)
    requires
        tmp_exists ==> verdicts@.len() == check_indices(old(state)@).len(),
        tmp_exists ==> checks_fit(old(state)@, passes(verdicts@)),
    ensures
        exists|now: u64|
            final(state)@ == #[trigger] all_checked(
                old(state)@,
                tmp_exists,
                passes(verdicts@),
                now,
            ),
        out == Ok::<VerifyResult, String>(
            check_counts(old(state)@, tmp_exists, passes(verdicts@)),
        ),
{
    let now: u64 = now_unix();
    verify_all_at(state, tmp_exists, verdicts, now)
}

/// A summary of a download that can be recovered. How far it has come is the fraction that
/// `DlState::progress_parts` gives of its `verified_bytes` and `file_size`.
#[derive(Debug, Clone)]
pub struct RecoverInfo {
    pub merkle_root: String,
    pub file_name: String,
    pub file_size: u64,
    pub verified_bytes: u64,
    pub pending_cnt: usize,
    pub peers: Vec<String>,
    pub tmp_path: String,
    pub dst_path: String,
}

impl RecoverInfo {
    /// Sums up a download.
    pub fn from(s: &DlState) -> (out: RecoverInfo)
        ensures
            out.merkle_root@ == s.merkle_root@,
            out.file_name@ == s.file_name@,
            out.file_size == s.file_size,
            out.verified_bytes == s.verified_bytes,
            out.pending_cnt == s@.pending().len(),
            text::texts(out.peers@) == s@.peers,
            out.tmp_path@ == s.tmp_path@,
            out.dst_path@ == s.dst_path@,
    {
        RecoverInfo {
            merkle_root: s.merkle_root.clone(),
            file_name: s.file_name.clone(),
            file_size: s.file_size,
            verified_bytes: s.verified_bytes,
            pending_cnt: s.pending_chunks().len(),
            peers: clone_strings(s.peers.as_slice()),
            tmp_path: s.tmp_path.clone(),
            dst_path: s.dst_path.clone(),
        }
    }
}

/// The chunk hashes that a manifest gives, where its text could be read as one.
pub open spec fn manifest_texts(parsed: Option<FileManifest>) -> Option<Seq<Seq<char>>> {
    match parsed {
        Some(manifest) => Some(manifest.hashes()),
        None => None,
    }
}

/// The chunk hashes of a manifest, where its text could be read as one.
pub fn parse_hashes(parsed: &Option<FileManifest>) -> (out: Option<Vec<String>>)
    ensures
        out is Some == parsed is Some,
        out matches Some(hashes) ==> Some(text::texts(hashes@)) == manifest_texts(*parsed),
{
    match parsed {
        Some(manifest) => Some(manifest_hashes(manifest)),
        None => None,
    }
}

/// The download of a published file: its chunks laid out, with the hashes of the manifest where
/// there is one that could be read, and its seeders as peers.
pub open spec fn state_of_metadata(
    meta: FileMetadata,
    parsed: Option<FileManifest>,
    tmp_path: Seq<char>,
    dst_path: Seq<char>,
    now: u64,
) -> State {
    let fresh = State::fresh(
        1,
        meta.merkle_root@,
        meta.file_name@,
        meta.file_size,
        tmp_path,
        dst_path,
        now,
    );
    let hashes = if meta.manifest is Some {
        manifest_texts(parsed)
    } else {
        None
    };
    let seeders = text::texts(meta.seeders@);
    Download {
        manifest: text::opt_text(meta.manifest),
        encrypted: meta.is_encrypted,
        ..chunks_laid_out(fresh, hashes).with_peers(seeders, seeders.len() as int, now)
    }
}

/// Sets up at `now` the download of a published file. `parsed` is what reading the JSON text of
/// `meta.manifest` as a manifest gave.
pub fn from_metadata_at(
    meta: &FileMetadata,
    parsed: &Option<FileManifest>,
    tmp_path: String,
    dst_path: String,
    now: u64,
) -> (out: DlState)
    requires
        chunk::countable(meta.file_size),
    ensures
        out@ == state_of_metadata(*meta, *parsed, tmp_path@, dst_path@, now),
{
    let mut state = DlState::new_at(
        meta.merkle_root.clone(),
        meta.file_name.clone(),
        meta.file_size,
        tmp_path,
        dst_path,
        now,
    );
    let hashes: Option<Vec<String>> = match &meta.manifest {
        Some(_) => parse_hashes(parsed),
        None => None,
    };
    match &hashes {
        Some(list) => state.init_chunks(Some(list.as_slice())),
        None => state.init_chunks(None),
    }
    add_providers_at(&mut state, meta.seeders.as_slice(), now);
    state.manifest = clone_opt(&meta.manifest);
    state.encrypted = meta.is_encrypted;
    state
}

/// Sets up the download of a published file, as `from_metadata_at` does, now.
pub fn from_metadata(
    meta: &FileMetadata,
    parsed: &Option<FileManifest>,
    tmp_path: String,
    dst_path: String,
) -> (out: DlState)
    requires
        chunk::countable(meta.file_size),
    ensures
        exists|now: u64|
            out@ == #[trigger] state_of_metadata(*meta, *parsed, tmp_path@, dst_path@, now),
{
    let now: u64 = now_unix();
    from_metadata_at(meta, parsed, tmp_path, dst_path, now)
}

/// The download after the chunks of a set have arrived: those of them that were pending are
/// downloaded.
pub open spec fn synced(d: State, received: Set<u32>, now: u64) -> State {
    Download {
        chunks: Seq::new(
            d.chunks.len(),
            |i: int|
                if d.chunks[i].state == ChunkState::Pending && i <= u32::MAX && received.contains(
                    i as u32,
                ) {
                    Chunk { state: ChunkState::Downloaded, ..d.chunks[i] }
                } else {
                    d.chunks[i]
                },
        ),
        updated_at: now,
        ..d
    }
}

/// Notes at `now` which chunks have arrived.
pub fn sync_received_at(state: &mut DlState, received: &HashSet<u32>, now: u64)
    ensures
        final(state)@ == synced(old(state)@, received@, now),
{
    broadcast use vstd::std_specs::hash::group_hash_axioms;

    let ghost d = state@;
    for idx in it: received.iter()
        invariant
            it.seq().unref().to_set() == received@,
            state@.chunks =~= synced(d, it.seq().unref().take(it.index()).to_set(), now).chunks,
            it.index() == it.seq().len() ==> it.seq().unref().take(it.index()).to_set()
                == received@,
            state@ == (Download { chunks: state@.chunks, ..d }),
    {
        broadcast use Seq::lemma_push_to_set_commute;

        let i: usize = *idx as usize;
        let ghost before = state@;
        if i < state.chunks.len() && state.chunks[i].state == ChunkState::Pending {
            state.chunks[i].state = ChunkState::Downloaded;
            assert(state@.chunks =~= before.with_state(
                *idx,
                ChunkState::Downloaded,
                before.updated_at,
            ).chunks);
        }
        assert(it.seq().unref().take(it.index() + 1) =~= it.seq().unref().take(it.index()).push(
            *idx,
        ));
        assert(it.index() + 1 == it.seq().len() ==> it.seq().unref().take(it.index() + 1)
            =~= it.seq().unref());
        assert(it.seq().unref().take(it.index()).push(*idx).to_set() == it.seq().unref().take(
            it.index(),
        ).to_set().insert(*idx));
    }
    state.updated_at = now;
}

/// Notes which chunks have arrived.
pub fn sync_received(state: &mut DlState, received: &HashSet<u32>)
    ensures
        exists|now: u64| final(state)@ == #[trigger] synced(old(state)@, received@, now),
{
    let now: u64 = now_unix();
    sync_received_at(state, received, now);
}

/// Lists peers at `now`, each unless it is listed already.
pub fn add_providers_at(state: &mut DlState, providers: &[String], now: u64)
    ensures
        final(state)@ == old(state)@.with_peers(
            text::texts(providers@),
            providers@.len() as int,
            now,
        ),
{
    let ghost d = state@;
    let mut i: usize = 0;
    while i < providers.len()
        invariant
            i <= providers.len(),
            state@ == d.with_peers(text::texts(providers@), i as int, now),
        decreases providers.len() - i,
    {
        assert(text::texts(providers@)[i as int] == providers@[i as int]@);
        state.add_peer_at(providers[i].clone(), now);
        i = i + 1;
    }
}

/// Lists peers, each unless it is listed already.
pub fn add_providers(state: &mut DlState, providers: &[String])
    ensures
        exists|now: u64|
            final(state)@ == #[trigger] old(state)@.with_peers(
                text::texts(providers@),
                providers@.len() as int,
                now,
            ),
{
    let now: u64 = now_unix();
    add_providers_at(state, providers, now);
}

/// What is to be done to finish a download.
#[derive(Debug, Clone)]
pub struct RecoveryPlan {
    pub state: DlState,
    pub to_fetch: Vec<u32>,
    pub verified: bool,
    pub verify_res: Option<VerifyResult>,
}

/// Plans at `now` how to finish a download: with `verify`, the verdicts on its chunks are taken in
/// first, as `verify_all_at` does; then what is still to be fetched is listed.
pub fn plan_recovery_at(
    state: DlState,
    verify: bool,
    tmp_exists: bool,
    verdicts: &[Result<bool, String>],
    now: u64,
) -> (out: Result<RecoveryPlan, String>)
    requires
        verify && tmp_exists ==> verdicts@.len() == check_indices(state@).len(),
        verify && tmp_exists ==> checks_fit(state@, passes(verdicts@)),
    ensures
        out matches Ok(plan) && {
            &&& plan.state@ == (if verify {
                all_checked(state@, tmp_exists, passes(verdicts@), now)
            } else {
                state@
            })
            &&& plan.to_fetch@ == plan.state@.pending()
            &&& plan.verified == verify
            &&& plan.verify_res == (if verify {
                Some(check_counts(state@, tmp_exists, passes(verdicts@)))
            } else {
                None
            })
        },
{
    let mut state = state;
    let verify_res: Option<VerifyResult> = if verify {
        match verify_all_at(&mut state, tmp_exists, verdicts, now) {
            Ok(res) => Some(res),
            Err(e) => return Err(e),
        }
    } else {
        None
    };
    let to_fetch = state.pending_chunks();
    Ok(RecoveryPlan { state, to_fetch, verified: verify, verify_res })
}

/// Plans how to finish a download, as `plan_recovery_at` does, now.
pub fn plan_recovery(
    state: DlState,
    verify: bool,
    tmp_exists: bool,
    verdicts: &[Result<bool, String>],
) -> (out: Result<RecoveryPlan, String>)
    requires
        verify && tmp_exists ==> verdicts@.len() == check_indices(state@).len(),
        verify && tmp_exists ==> checks_fit(state@, passes(verdicts@)),
    ensures
        out matches Ok(plan) && {
            &&& !verify ==> plan.state@ == state@
            &&& verify ==> exists|now: u64|
                plan.state@ == #[trigger] all_checked(state@, tmp_exists, passes(verdicts@), now)
            &&& plan.to_fetch@ == plan.state@.pending()
            &&& plan.verified == verify
            &&& plan.verify_res == (if verify {
                Some(check_counts(state@, tmp_exists, passes(verdicts@)))
            } else {
                None
            })
        },
{
    let now: u64 = now_unix();
    plan_recovery_at(state, verify, tmp_exists, verdicts, now)
}

/// What finishing a download takes: the partial file is moved to its place, then its state file is
/// removed.
pub struct FinalMove {
    pub from: String,
    pub to: String,
    pub meta: String,
}

/// Says how to finish a download, given whether its partial file exists; without one it cannot be.
pub fn finalize(state: &DlState, tmp_exists: bool) -> (out: Result<FinalMove, String>)
    ensures
        match out {
            Ok(step) => {
                &&& tmp_exists
                &&& step.from@ == state.tmp_path@
                &&& step.to@ == state.dst_path@
                &&& step.meta@ == paths::path_with_file_name(
                    state.tmp_path@,
                    meta_name(paths::path_file_name(state.tmp_path@)),
                )
            },
            Err(message) => !tmp_exists && message@ == "tmp file missing: "@ + state.tmp_path@,
        },
{
    if !tmp_exists {
        let mut message = "tmp file missing: ".to_owned();
        message.append(state.tmp_path.as_str());
        return Err(message);
    }
    Ok(
        FinalMove {
            from: state.tmp_path.clone(),
            to: state.dst_path.clone(),
            meta: meta_path(state.tmp_path.as_str()),
        },
    )
}

/// Whether a record is the published one for a download: that of its file, with its peers as
/// seeders and the place where the file ends up.
pub open spec fn publishes(meta: FileMetadata, d: State) -> bool {
    &&& meta.merkle_root@ == d.merkle_root
    &&& meta.file_name@ == d.file_name
    &&& meta.file_size == d.file_size
    &&& text::texts(meta.seeders@) == d.peers
    &&& meta.is_encrypted == d.encrypted
    &&& text::opt_text(meta.manifest) == d.manifest
    &&& text::opt_text(meta.download_path) == Some(d.dst_path)
}

/// The published record for a download: that of its file, with its peers as seeders and the place
/// where the file ends up.
pub fn to_file_meta(state: &DlState) -> (out: FileMetadata)
    ensures
        publishes(out, state@),
{
    FileMetadata {
        merkle_root: state.merkle_root.clone(),
        file_name: state.file_name.clone(),
        file_size: state.file_size,
        seeders: clone_strings(state.peers.as_slice()),
        is_encrypted: state.encrypted,
        manifest: clone_opt(&state.manifest),
        download_path: Some(state.dst_path.clone()),
    }
}

} // verus!
