//! What each call does, told of every input and every result that it may give.

use crate::chunk::ChunkState;
use crate::digest;
use crate::digest::HexError;
use crate::download;
use crate::download::Chunk;
use crate::models::{FileManifest, FileMetadata};
use crate::p2p_chunk_network;
use crate::p2p_chunk_network::laws;
use crate::p2p_chunk_network::{
    ChunkMeta, ChunkNetErr, DiskRead, DlState, NetErr, RecoverySvc, Start, State, VerifyResult,
};
use crate::paths;
use crate::relations;
use crate::text;
use vstd::prelude::*;

verus! {

/// Whether two optional texts are the same.
pub open spec fn same_option(a: Option<String>, b: Option<Seq<char>>) -> bool {
    match (a, b) {
        (Some(x), Some(y)) => x@ == y,
        (None, None) => true,
        _ => false,
    }
}

/// Whether a list of strings has the given texts.
pub open spec fn same_texts(list: Seq<String>, texts: Seq<Seq<char>>) -> bool {
    &&& list.len() == texts.len()
    &&& forall|i: int| 0 <= i < list.len() ==> (#[trigger] list[i])@ == texts[i]
}

/// The value of an error shows which it is and what it holds.
pub proof fn law_error_shows_fields(e: ChunkNetErr)
    ensures
        match e {
            ChunkNetErr::NotFound => e@ is NotFound,
            ChunkNetErr::IoErr(m) => e@ == NetErr::IoErr(m@),
            ChunkNetErr::HashMismatch { idx, expected, got } => e@ == (NetErr::HashMismatch {
                idx,
                expected: expected@,
                got: got@,
            }),
            ChunkNetErr::MerkleInvalid => e@ is MerkleInvalid,
            ChunkNetErr::NoProviders => e@ is NoProviders,
            ChunkNetErr::ManifestMissing => e@ is ManifestMissing,
            ChunkNetErr::ParseErr(m) => e@ == NetErr::ParseErr(m@),
        },
{
}

/// Every error says what it is, with what it holds.
pub proof fn law_error_says_what_it_is(e: &ChunkNetErr, out: String)
    requires
        call_ensures(ChunkNetErr::to_string, (e,), out),
    ensures
        match *e {
            ChunkNetErr::NotFound => out@ == "not found"@,
            ChunkNetErr::IoErr(m) => out@ == "io error: "@ + m@,
            ChunkNetErr::HashMismatch { idx, expected, got } => out@ == "chunk "@ + text::decimal(
                idx as nat,
            ) + " hash mismatch: "@ + expected@ + " != "@ + got@,
            ChunkNetErr::MerkleInvalid => out@ == "merkle root invalid"@,
            ChunkNetErr::NoProviders => out@ == "no providers found"@,
            ChunkNetErr::ManifestMissing => out@ == "manifest missing"@,
            ChunkNetErr::ParseErr(m) => out@ == "parse error: "@ + m@,
        },
{
}

/// The value of a chunk shows every field of it.
pub proof fn law_chunk_shows_fields(c: ChunkMeta)
    ensures
        c@.idx == c.idx,
        c@.offset == c.offset,
        c@.size == c.size,
        c@.hash == c.hash@,
        c@.state == c.state,
{
}

/// The value of a download shows every field of it.
pub proof fn law_value_shows_fields(s: DlState)
    ensures
        s@.version == s.version,
        s@.merkle_root == s.merkle_root@,
        s@.file_name == s.file_name@,
        s@.file_size == s.file_size,
        s@.tmp_path == s.tmp_path@,
        s@.dst_path == s.dst_path@,
        s@.chunks.len() == s.chunks@.len(),
        forall|i: int| 0 <= i < s.chunks@.len() ==> #[trigger] s@.chunks[i] == s.chunks@[i]@,
        s@.verified_bytes == s.verified_bytes,
        same_texts(s.providers@, s@.peers),
        same_option(s.manifest_json, s@.manifest),
        s@.encrypted == s.encrypted,
        s@.updated_at == s.updated_at,
{
}

/// A copy is the same as what it is a copy of.
pub proof fn law_copy_is_same(s: &DlState, t: DlState, c: &ChunkMeta, e: ChunkMeta)
    ensures
        call_ensures(DlState::clone, (s,), t) ==> t@ == s@,
        call_ensures(ChunkMeta::clone, (c,), e) ==> e@ == c@,
{
}

/// A new chunk holds what it is given and has not been fetched.
pub proof fn law_new_chunk(idx: u32, offset: u64, size: u32, hash: String, out: ChunkMeta)
    requires
        call_ensures(ChunkMeta::new, (idx, offset, size, hash), out),
    ensures
        out.idx == idx,
        out.offset == offset,
        out.size == size,
        out.hash@ == hash@,
        out.state == ChunkState::Pending,
{
}

/// A chunk starts where the one before it ends, if that one is whole; and it reaches to where the
/// next one starts, or to the end of the file, or holds nothing where it would start beyond that.
pub proof fn law_place_of_chunk(idx: u32, file_size: u64, offset: u64, size: u32)
    requires
        call_ensures(ChunkMeta::offset_for, (idx,), offset),
        call_ensures(ChunkMeta::size_for, (idx, file_size), size),
    ensures
        offset == idx * 262144,
        offset >= file_size ==> size == 0,
        offset < file_size && file_size <= offset + 262144 ==> offset + size == file_size,
        offset + 262144 <= file_size ==> size == 262144,
{
}

/// Whether nothing is known of a download but the file.
pub open spec fn newly_made(
    d: State,
    merkle_root: Seq<char>,
    file_name: Seq<char>,
    file_size: u64,
    tmp_path: Seq<char>,
    dst_path: Seq<char>,
) -> bool {
    &&& d.version == 1
    &&& d.merkle_root == merkle_root
    &&& d.file_name == file_name
    &&& d.file_size == file_size
    &&& d.tmp_path == tmp_path
    &&& d.dst_path == dst_path
    &&& d.chunks.len() == 0
    &&& d.verified_bytes == 0
    &&& d.peers.len() == 0
    &&& d.manifest is None
    &&& !d.encrypted
}

/// A new download holds what it is given and nothing else.
pub proof fn law_new_download(
    merkle_root: String,
    file_name: String,
    file_size: u64,
    tmp_path: String,
    dst_path: String,
    now: u64,
    out: DlState,
)
    requires
        call_ensures(
            DlState::new_at,
            (merkle_root, file_name, file_size, tmp_path, dst_path, now),
            out,
        ) || call_ensures(
            DlState::new,
            (merkle_root, file_name, file_size, tmp_path, dst_path),
            out,
        ),
    ensures
        newly_made(out@, merkle_root@, file_name@, file_size, tmp_path@, dst_path@),
        call_ensures(
            DlState::new_at,
            (merkle_root, file_name, file_size, tmp_path, dst_path, now),
            out,
        ) ==> out.updated_at == now,
{
}

/// Laying out the chunks cuts up the file; no hash is known.
pub proof fn law_layout(s: &mut DlState)
    requires
        call_ensures(DlState::init_chunks, (s,), ()),
    ensures
        relations::cut_up(final(s)@.chunks, old(s)@.file_size as int),
        forall|i: int|
            0 <= i < final(s)@.chunks.len() ==> (#[trigger] final(s)@.chunks[i]).hash.len() == 0,
        relations::same_but_layout(old(s)@, final(s)@),
        final(s)@.manifest == old(s)@.manifest,
{
}

/// The chunks of every file can be laid out that is shorter than all of a `u64` by one chunk.
pub proof fn law_layout_can_be_made(s: &mut DlState)
    requires
        old(s).file_size + 262144 <= u64::MAX,
    ensures
        call_requires(DlState::init_chunks, (s,)),
{
}

/// Whether there is one chunk for each entry of a manifest, in order, with its index, its hash and
/// its size, as far as 32 bits hold it, and starting at `index * 262144`; none has been fetched.
pub open spec fn from_entries(chunks: Seq<Chunk<Seq<char>>>, manifest: FileManifest) -> bool {
    &&& chunks.len() == manifest.chunks@.len()
    &&& forall|i: int|
        0 <= i < chunks.len() ==> {
            let entry = manifest.chunks@[i];
            &&& (#[trigger] chunks[i]).idx == entry.index
            &&& chunks[i].offset == entry.index * 262144
            &&& entry.size <= 0xffff_ffff ==> chunks[i].size == entry.size
            &&& (entry.size - chunks[i].size) % 0x1_0000_0000 == 0
            &&& chunks[i].hash == entry.hash@
            &&& chunks[i].state == ChunkState::Pending
        }
}

/// Whether a manifest lists the chunks of a file of `file_size` bytes: the entry at position `i`
/// has that index, and the size of what the file has from `i * 262144` on, up to 262144 bytes.
pub open spec fn lists_file(manifest: FileManifest, file_size: u64) -> bool {
    &&& manifest.chunks@.len() == (file_size + 262143) / 262144
    &&& manifest.chunks@.len() <= 0xffff_ffff
    &&& forall|i: int|
        0 <= i < manifest.chunks@.len() ==> {
            &&& (#[trigger] manifest.chunks@[i]).index == i
            &&& i * 262144 + manifest.chunks@[i].size == if (i + 1) * 262144 <= file_size {
                (i + 1) * 262144
            } else {
                file_size as int
            }
        }
}

/// What the chunks of a manifest are.
proof fn lemma_from_entries(d: State, manifest: FileManifest, json: Option<Seq<char>>)
    ensures
        from_entries(p2p_chunk_network::with_manifest(d, manifest, json).chunks, manifest),
{
    let chunks = p2p_chunk_network::with_manifest(d, manifest, json).chunks;
    assert forall|i: int| 0 <= i < chunks.len() implies {
        let entry = manifest.chunks@[i];
        &&& (#[trigger] chunks[i]).idx == entry.index
        &&& chunks[i].offset == entry.index * 262144
        &&& entry.size <= 0xffff_ffff ==> chunks[i].size == entry.size
        &&& (entry.size - chunks[i].size) % 0x1_0000_0000 == 0
        &&& chunks[i].hash == entry.hash@
        &&& chunks[i].state == ChunkState::Pending
    } by {
        assert(chunks[i] == p2p_chunk_network::manifest_chunk(manifest.chunks@[i]));
    }
}

/// The first chunks of a manifest that lists a file hold the first bytes of it.
proof fn lemma_entries_sum(
    chunks: Seq<Chunk<Seq<char>>>,
    manifest: FileManifest,
    file_size: u64,
    n: int,
)
    requires
        from_entries(chunks, manifest),
        lists_file(manifest, file_size),
        0 <= n <= chunks.len(),
    ensures
        relations::size_sum(chunks.take(n)) == if n * 262144 <= file_size {
            n * 262144
        } else {
            file_size as int
        },
    decreases n,
{
    if n > 0 {
        lemma_entries_sum(chunks, manifest, file_size, n - 1);
        assert(chunks.take(n).drop_last() =~= chunks.take(n - 1));
        assert(chunks.take(n).last() == chunks[n - 1]);
        assert(manifest.chunks@[n - 1].size <= 262144);
    }
}

/// The chunks that a manifest gives have the indices, sizes and hashes of its entries. Where the
/// manifest lists the chunks of the file with their lengths, the chunks cut up the file, and hold
/// as many bytes together as it has.
pub proof fn law_manifest_gives_chunks(
    s: &mut DlState,
    manifest: &FileManifest,
    json: Option<String>,
)
    requires
        call_ensures(DlState::init_from_manifest, (s, manifest, json), ()),
    ensures
        from_entries(final(s)@.chunks, *manifest),
        relations::same_but_layout(old(s)@, final(s)@),
        same_option(json, final(s)@.manifest),
        lists_file(*manifest, old(s)@.file_size) ==> {
            &&& relations::cut_up(final(s)@.chunks, old(s)@.file_size as int)
            &&& relations::size_sum(final(s)@.chunks) == old(s)@.file_size
        },
{
    lemma_from_entries(old(s)@, *manifest, text::opt_text(json));
    let chunks = final(s)@.chunks;
    let size = old(s)@.file_size;
    if lists_file(*manifest, size) {
        lemma_entries_sum(chunks, *manifest, size, chunks.len() as int);
        assert(chunks.take(chunks.len() as int) =~= chunks);
        assert forall|i: int| 0 <= i < chunks.len() implies {
            &&& (#[trigger] chunks[i]).idx == i
            &&& chunks[i].offset == i * 262144
            &&& chunks[i].offset < size
            &&& chunks[i].offset + chunks[i].size == if (i + 1) * 262144 <= size {
                (i + 1) * 262144
            } else {
                size as int
            }
            &&& chunks[i].state == ChunkState::Pending
        } by {
            assert(manifest.chunks@[i].index == i);
        }
    }
}

/// A chunk that arrives is downloaded, whatever state it was in, and nothing else changes but the
/// time; the arrival of a chunk that is not there changes nothing.
pub proof fn law_arrival(s: &mut DlState, idx: u32, now: u64)
    requires
        call_ensures(DlState::mark_downloaded_at, (s, idx, now), ()) || call_ensures(
            DlState::mark_downloaded,
            (s, idx),
            (),
        ),
    ensures
        idx < old(s)@.chunks.len() ==> {
            &&& relations::moved(old(s)@, final(s)@, idx, ChunkState::Downloaded)
            &&& final(s)@.verified_bytes == old(s)@.verified_bytes
            &&& call_ensures(DlState::mark_downloaded_at, (s, idx, now), ())
                ==> final(s)@.updated_at == now
        },
        idx >= old(s)@.chunks.len() ==> final(s)@ == old(s)@,
{
}

/// A chunk that has arrived and is found good is verified and its bytes are counted; nothing else
/// changes but the time. A chunk that has not arrived, or that is verified already, stays as it is.
pub proof fn law_found_good(s: &mut DlState, idx: u32, now: u64)
    requires
        call_ensures(DlState::mark_verified_at, (s, idx, now), ()) || call_ensures(
            DlState::mark_verified,
            (s, idx),
            (),
        ),
    ensures
        idx < old(s)@.chunks.len() && old(s)@.chunks[idx as int].state == ChunkState::Downloaded
            ==> {
            &&& relations::moved(old(s)@, final(s)@, idx, ChunkState::Verified)
            &&& final(s)@.verified_bytes == old(s)@.verified_bytes
                + old(s)@.chunks[idx as int].size
            &&& call_ensures(DlState::mark_verified_at, (s, idx, now), ())
                ==> final(s)@.updated_at == now
        },
        idx >= old(s)@.chunks.len() || old(s)@.chunks[idx as int].state != ChunkState::Downloaded
            ==> final(s)@ == old(s)@,
{
}

/// A chunk that failed, or was in whatever state, and arrives and is found good, is verified and
/// counted; it is no longer among those to be fetched, unless another carries its index.
pub proof fn law_fetched_again_is_recovered(
    s: &mut DlState,
    t: &mut DlState,
    idx: u32,
    left: Vec<u32>,
)
    requires
        call_ensures(DlState::mark_downloaded, (s, idx), ()),
        old(t)@ == final(s)@,
        call_ensures(DlState::mark_verified, (t, idx), ()),
        call_ensures(DlState::pending_chunks, (&*final(t),), left),
        idx < old(s)@.chunks.len(),
    ensures
        relations::moved(old(s)@, final(t)@, idx, ChunkState::Verified),
        final(t)@.verified_bytes == old(s)@.verified_bytes + old(s)@.chunks[idx as int].size,
        (forall|i: int|
            0 <= i < old(s)@.chunks.len() ==> (#[trigger] old(s)@.chunks[i]).idx == i)
            ==> !left@.contains(idx),
{
    let d = final(t)@;
    law_arrival(s, idx, 0);
    law_found_good(t, idx, 0);
    if forall|i: int| 0 <= i < old(s)@.chunks.len() ==> (#[trigger] old(s)@.chunks[i]).idx == i {
        download::lemma_indices_contains(d.chunks, download::to_fetch(), idx);
    }
}

/// A chunk can be found good wherever its bytes can be counted within a `u64`.
pub proof fn law_can_be_found_good(s: &mut DlState, idx: u32, now: u64)
    requires
        idx < old(s)@.chunks.len() ==> old(s)@.verified_bytes + old(s)@.chunks[idx as int].size
            <= u64::MAX,
    ensures
        call_requires(DlState::mark_verified, (s, idx)),
        call_requires(DlState::mark_verified_at, (s, idx, now)),
{
}

/// A chunk that is no good has failed, whatever state it was in; the bytes of a verified one are no
/// longer counted, as far as there are any; nothing else changes but the time.
pub proof fn law_found_bad(s: &mut DlState, idx: u32, now: u64)
    requires
        call_ensures(DlState::mark_failed_at, (s, idx, now), ()) || call_ensures(
            DlState::mark_failed,
            (s, idx),
            (),
        ),
    ensures
        idx < old(s)@.chunks.len() ==> {
            let size = old(s)@.chunks[idx as int].size;
            &&& relations::moved(old(s)@, final(s)@, idx, ChunkState::Failed)
            &&& old(s)@.chunks[idx as int].state != ChunkState::Verified
                ==> final(s)@.verified_bytes == old(s)@.verified_bytes
            &&& old(s)@.chunks[idx as int].state == ChunkState::Verified && size
                <= old(s)@.verified_bytes ==> final(s)@.verified_bytes + size
                == old(s)@.verified_bytes
            &&& old(s)@.chunks[idx as int].state == ChunkState::Verified && size
                > old(s)@.verified_bytes ==> final(s)@.verified_bytes == 0
            &&& call_ensures(DlState::mark_failed_at, (s, idx, now), ()) ==> final(s)@.updated_at
                == now
        },
        idx >= old(s)@.chunks.len() ==> final(s)@ == old(s)@,
{
}

/// The chunks that are still to be fetched are the pending and the failed ones, in order.
pub proof fn law_pending_are_listed(s: &DlState, out: Vec<u32>)
    requires
        call_ensures(DlState::pending_chunks, (s,), out),
    ensures
        relations::lists(
            out@,
            s@.chunks,
            |c: Chunk<Seq<char>>|
                c.state == ChunkState::Pending || c.state == ChunkState::Failed,
            |c: Chunk<Seq<char>>| c.idx,
        ),
{
    relations::lemma_indices_list(
        s@.chunks,
        crate::download::to_fetch(),
        |c: Chunk<Seq<char>>|
            c.state == ChunkState::Pending || c.state == ChunkState::Failed,
    );
}

/// A download is complete exactly where every one of its chunks is verified.
pub proof fn law_complete_is_all_verified(s: &DlState, out: bool)
    requires
        call_ensures(DlState::is_complete, (s,), out),
    ensures
        out <==> forall|i: int|
            0 <= i < s@.chunks.len() ==> (#[trigger] s@.chunks[i]).state == ChunkState::Verified,
{
}

/// The progress of a download is the verified part of its file; an empty file is done.
pub proof fn law_progress_is_verified_part(s: &DlState, out: (u64, u64))
    requires
        call_ensures(DlState::progress_parts, (s,), out),
    ensures
        s.file_size > 0 ==> out.0 == s.verified_bytes && out.1 == s.file_size,
        s.file_size == 0 ==> out.0 == 1 && out.1 == 1,
{
}

/// A provider is listed behind the others, unless it is listed already.
pub proof fn law_provider_is_listed(s: &mut DlState, peer: String, now: u64)
    ensures
        call_ensures(DlState::add_provider_at, (s, peer, now), ()) ==> relations::listing(
            old(s)@,
            final(s)@,
            seq![peer@],
            now,
        ),
        call_ensures(DlState::add_provider, (s, peer), ()) ==> exists|time: u64|
            #[trigger] relations::listing(old(s)@, final(s)@, seq![peer@], time),
{
    relations::lemma_listing_one(old(s)@, peer@, now);
    if call_ensures(DlState::add_provider, (s, peer), ()) {
        let time = choose|time: u64| final(s)@ == #[trigger] old(s)@.with_peer(peer@, time);
        relations::lemma_listing_one(old(s)@, peer@, time);
    }
}


/// Over hashes that are the hexadecimal forms of 32-byte digests, in letters of either case, the
/// root is that of the tree over the digests, in lower-case hexadecimal.
pub proof fn law_root_of_hashes(
    hashes: &[String],
    digests: Seq<Seq<u8>>,
    out: Result<String, ChunkNetErr>,
)
    requires
        call_ensures(p2p_chunk_network::compute_merkle_root, (hashes,), out),
        hashes@.len() > 0,
        digests.len() == hashes@.len(),
        forall|i: int|
            #![trigger digests[i]]
            0 <= i < digests.len() ==> digests[i].len() == 32 && digest::hex_bytes(hashes@[i]@)
                == Ok::<Seq<u8>, HexError>(digests[i]),
    ensures
        digest::merkle_root(digests) is Some,
        out matches Ok(root) && root@ == digest::hex_text(digest::merkle_root(digests)->0),
{
    let texts = text::texts(hashes@);
    digest::lemma_root_exists(digests);
    assert forall|i: int| 0 <= i < texts.len() implies p2p_chunk_network::hash_error(
        #[trigger] texts[i],
    ) is None by {
        assert(texts[i] == hashes@[i]@);
        assert(digests[i].len() == 32);
    }
    laws::lemma_no_error_before(texts, texts.len() as int);
    assert forall|i: int| 0 <= i < digests.len() implies p2p_chunk_network::hash_bytes(texts)[i]
        == #[trigger] digests[i] by {
        assert(texts[i] == hashes@[i]@);
    }
    assert(p2p_chunk_network::hash_bytes(texts) =~= digests);
}

/// Whether a text is the hexadecimal form of 32 bytes.
pub open spec fn is_hash(hash: Seq<char>) -> bool {
    digest::hex_bytes(hash) matches Ok(bytes) && bytes.len() == 32
}

/// No hashes are a missing manifest. Otherwise the first hash that is none is reported: with the
/// message for what is wrong with its digits, or as one of the wrong length.
pub proof fn law_bad_hash_is_reported(
    hashes: &[String],
    n: int,
    out: Result<String, ChunkNetErr>,
)
    requires
        call_ensures(p2p_chunk_network::compute_merkle_root, (hashes,), out),
        0 <= n <= hashes@.len(),
        forall|i: int| 0 <= i < n ==> is_hash((#[trigger] hashes@[i])@),
        n < hashes@.len() ==> !is_hash(hashes@[n]@),
    ensures
        hashes@.len() == 0 ==> (out matches Err(e) && e is ManifestMissing),
        n < hashes@.len() ==> (out matches Err(e) && e matches ChunkNetErr::ParseErr(message) && (
        match digest::hex_bytes(hashes@[n]@) {
            Err(wrong) => message@ == digest::hex_error_text(wrong),
            Ok(_) => message@ == "invalid hash len"@,
        })),
        0 < n == hashes@.len() ==> out is Ok,
{
    let texts = text::texts(hashes@);
    assert forall|i: int| 0 <= i < n implies p2p_chunk_network::hash_error(
        #[trigger] texts[i],
    ) is None by {
        assert(texts[i] == hashes@[i]@);
        assert(is_hash(hashes@[i]@));
    }
    laws::lemma_no_error_before(texts, n);
    if n < hashes@.len() {
        assert(texts[n] == hashes@[n]@);
        laws::law_first_bad_hash_is_reported(texts, n);
        assert(out is Err);
        law_error_shows_fields(out->Err_0);
    }
    if hashes@.len() == 0 {
        law_error_shows_fields(out->Err_0);
    }
}

/// A root is verified exactly by being the one that is computed, letter for letter; where none can
/// be computed, the error is the same.
pub proof fn law_root_is_verified_by_computing(
    root: &str,
    hashes: &[String],
    computed: Result<String, ChunkNetErr>,
    out: Result<bool, ChunkNetErr>,
)
    requires
        call_ensures(p2p_chunk_network::compute_merkle_root, (hashes,), computed),
        call_ensures(p2p_chunk_network::verify_merkle_root, (root, hashes), out),
    ensures
        computed matches Ok(r) ==> (out matches Ok(good) && good == (r@ == root@)),
        computed matches Err(e) ==> (out matches Err(same) && same@ == e@),
{
}

/// The hash of bytes is what reads as their SHA-256 digest, in digits and the letters a to f; bytes
/// are verified exactly by having the hash, letter for letter.
pub proof fn law_hash_reads_as_digest(
    data: &[u8],
    hash: String,
    expected: &str,
    out: bool,
)
    requires
        call_ensures(p2p_chunk_network::hash_chunk, (data,), hash),
        call_ensures(p2p_chunk_network::verify_chunk_hash, (data, expected), out),
    ensures
        digest::hex_bytes(hash@) == Ok::<Seq<u8>, HexError>(digest::sha256_digest(data@)),
        forall|i: int|
            0 <= i < hash@.len() ==> '0' <= #[trigger] hash@[i] <= '9' || 'a' <= hash@[i] <= 'f',
        hash@.len() == 64,
        out <==> hash@ == expected@,
{
    digest::law_hex_comes_back(digest::sha256_digest(data@));
}

/// All bytes can be hashed whose length in bits fits in a `u64`.
pub proof fn law_bytes_can_be_hashed(data: &[u8], expected: &str)
    requires
        data@.len() * 8 <= u64::MAX,
    ensures
        call_requires(p2p_chunk_network::hash_chunk, (data,)),
        call_requires(p2p_chunk_network::verify_chunk_hash, (data, expected)),
{
}

/// The name of a state file is the name of the partial file, or `download` where it has none, and
/// the ending of state files.
pub proof fn law_state_file_name(name: Option<&str>, out: String)
    requires
        call_ensures(p2p_chunk_network::meta_file_name, (name,), out),
    ensures
        name matches Some(n) ==> out@ == n@ + ".chiral.chunk.meta.json"@,
        name is None ==> out@ == "download"@ + ".chiral.chunk.meta.json"@,
{
}

/// The state file stands beside the partial file, under the name that `meta_file_name` gives; it is
/// written first under the extension `tmp`.
pub proof fn law_state_file_place(
    tmp: &str,
    path: String,
    staging: String,
    name: Option<&str>,
    meta: String,
)
    requires
        call_ensures(p2p_chunk_network::meta_path, (tmp,), path),
        call_ensures(p2p_chunk_network::staging_path, (tmp,), staging),
        call_ensures(p2p_chunk_network::meta_file_name, (name,), meta),
        paths::path_file_name(tmp@) == (match name {
            Some(n) => Some(n@),
            None => None,
        }),
    ensures
        path@ == paths::path_with_file_name(tmp@, meta@),
        staging@ == paths::path_with_extension(path@, "tmp"@),
{
}

/// Whether a path has the marker of state files in it.
pub open spec fn is_marked(path: Seq<char>) -> bool {
    exists|before: Seq<char>, behind: Seq<char>|
        path == #[trigger] (before + ".chiral.chunk.meta"@ + behind)
}

/// A scan looks at JSON files whose path has the marker in it and at no others. It looks for the
/// file whose name stands before the ending of state files, or for one of the whole name where that
/// ending is missing; a file without a name has an empty one.
pub proof fn law_scan_looks_for(
    extension: Option<&str>,
    path: &str,
    name: Option<&str>,
    out: Option<String>,
)
    requires
        call_ensures(p2p_chunk_network::scan_target, (extension, path, name), out),
    ensures
        out is Some <==> (extension matches Some(e) && e@ == "json"@) && is_marked(path@),
        out matches Some(target) ==> name matches Some(n) ==> {
            &&& forall|stem: Seq<char>|
                n@ == #[trigger] (stem + ".chiral.chunk.meta.json"@) ==> target@ == stem
            &&& (forall|stem: Seq<char>| n@ != #[trigger] (stem + ".chiral.chunk.meta.json"@))
                ==> target@ == n@
        },
        out matches Some(target) ==> name is None ==> target@.len() == 0,
{
    let tail = ".chiral.chunk.meta.json"@;
    let part = ".chiral.chunk.meta"@;
    reveal_strlit("");
    reveal_strlit(".chiral.chunk.meta.json");
    if text::occurs_in(part, path@) {
        let i = choose|i: int|
            0 <= i <= path@.len() - part.len() && #[trigger] path@.subrange(i, i + part.len())
                == part;
        assert(path@ =~= path@.take(i) + part + path@.skip(i + part.len()));
    }
    if is_marked(path@) {
        let (before, behind) = choose|before: Seq<char>, behind: Seq<char>|
            path@ == #[trigger] (before + part + behind);
        let i = before.len() as int;
        assert(path@.subrange(i, i + part.len()) =~= part);
    }
    if let Some(n) = name {
        if text::has_suffix(n@, tail) {
            assert(n@ =~= n@.take(n@.len() - tail.len()) + tail);
        }
        assert forall|stem: Seq<char>| n@ == #[trigger] (stem + tail) implies
            text::has_suffix(n@, tail) && n@.take(n@.len() - tail.len()) == stem by {
            assert(n@.skip(n@.len() - tail.len()) =~= tail);
            assert(n@.take(n@.len() - tail.len()) =~= stem);
        }
    }
}

/// A scan offers what could be read and is not complete, as it was read, and nothing else.
pub proof fn law_scan_offers_unfinished(
    loaded: Result<DlState, ChunkNetErr>,
    done: bool,
    out: Option<DlState>,
)
    requires
        call_ensures(p2p_chunk_network::scan_entry, (loaded,), out),
        loaded matches Ok(state) ==> call_ensures(DlState::is_complete, (&state,), done),
    ensures
        loaded matches Ok(state) ==> if done {
            out is None
        } else {
            out == Some(state)
        },
        loaded is Err ==> out is None,
{
}

/// A chunk with a hash is read from where it starts, in full; one without is not read.
pub proof fn law_chunk_is_read_in_full(chunk: &ChunkMeta, out: Option<(u64, u32)>)
    requires
        call_ensures(p2p_chunk_network::read_range, (chunk,), out),
    ensures
        chunk.hash@.len() > 0 ==> (out matches Some(range) && range.0 == chunk.offset && range.1
            == chunk.size),
        chunk.hash@.len() == 0 ==> out is None,
{
}

/// A chunk is good where it has no hash, or where the bytes that were read verify against it. What
/// could not be read is an error that says why; what was not read is no good.
pub proof fn law_chunk_is_judged_by_hash(
    chunk: &ChunkMeta,
    read: &DiskRead,
    out: Result<bool, ChunkNetErr>,
)
    requires
        call_ensures(p2p_chunk_network::verify_chunk_from_disk, (chunk, read), out),
    ensures
        chunk.hash@.len() == 0 ==> (out matches Ok(good) && good),
        chunk.hash@.len() > 0 ==> match *read {
            DiskRead::Data(data) => out matches Ok(good) && good == (digest::hex_text(
                digest::sha256_digest(data@),
            ) == chunk.hash@),
            DiskRead::Failed(e) => out matches Err(err) && err matches ChunkNetErr::IoErr(message)
                && message@ == e@,
            DiskRead::NotRead => out matches Ok(good) && !good,
        },
{
    if out is Err {
        law_error_shows_fields(out->Err_0);
    }
}

/// Every chunk can be judged by what was read, if as many bytes were read as it has; and also where
/// reading it failed, or where it has no hash and was not read.
pub proof fn law_chunk_can_be_judged(chunk: &ChunkMeta, read: &DiskRead)
    requires
        *read matches DiskRead::Data(data) ==> data@.len() == chunk.size,
        *read is NotRead ==> chunk.hash@.len() == 0,
    ensures
        call_requires(p2p_chunk_network::verify_chunk_from_disk, (chunk, read)),
{
}

/// The test for chunks that are to be checked: those that have arrived.
pub open spec fn asked_for() -> spec_fn(Chunk<Seq<char>>) -> bool {
    |c: Chunk<Seq<char>>| c.state == ChunkState::Downloaded
}

/// The chunks to check are those that have arrived, in order.
pub proof fn law_chunks_asked_for(s: &DlState, out: Vec<ChunkMeta>)
    requires
        call_ensures(p2p_chunk_network::chunks_to_check, (s,), out),
    ensures
        relations::lists(
            out@.map_values(|c: ChunkMeta| c@),
            s@.chunks,
            asked_for(),
            |c: Chunk<Seq<char>>| c,
        ),
{
    assert(download::in_state(ChunkState::Downloaded) =~= asked_for());
    relations::lemma_filter_lists(s@.chunks, asked_for());
    assert(out@.map_values(|c: ChunkMeta| c@) =~= p2p_chunk_network::chunk_views(out@));
}

/// Whether a verdict says that a chunk is good.
pub open spec fn says_good(verdict: Result<bool, ChunkNetErr>) -> bool {
    verdict == Ok::<bool, ChunkNetErr>(true)
}

/// Whether a check has settled a download by the verdicts on its chunks: each chunk that had
/// arrived is verified where its verdict says so and has failed otherwise; the others stand as they
/// stood. The verified bytes are those of the verified chunks if they were before. The time is
/// `now` where a chunk has changed, and else as it was.
pub open spec fn settled_by(
    before: State,
    after: State,
    verdicts: Seq<Result<bool, ChunkNetErr>>,
    now: u64,
) -> bool {
    &&& relations::same_but_chunks(before, after)
    &&& forall|i: int|
        0 <= i < before.chunks.len() ==> (#[trigger] after.chunks[i]).state == if asked_for()(
            before.chunks[i],
        ) {
            if says_good(verdicts[relations::count(before.chunks, asked_for(), i)]) {
                ChunkState::Verified
            } else {
                ChunkState::Failed
            }
        } else {
            before.chunks[i].state
        }
    &&& before.accounted() ==> after.accounted()
    &&& after.updated_at == if after.chunks == before.chunks {
        before.updated_at
    } else {
        now
    }
}

/// Whether the counts of a check are those of its verdicts: how many are good, and how many are
/// not.
pub open spec fn counted_by(
    verdicts: Seq<Result<bool, ChunkNetErr>>,
    out: VerifyResult,
) -> bool {
    &&& out.verified == relations::count(
        verdicts,
        |v: Result<bool, ChunkNetErr>| says_good(v),
        verdicts.len() as int,
    )
    &&& out.failed == relations::count(
        verdicts,
        |v: Result<bool, ChunkNetErr>| !says_good(v),
        verdicts.len() as int,
    )
}

/// Failing chunks changes nothing but chunks, the count of verified bytes and the time, and that
/// only where there is one to fail.
proof fn lemma_each_failed_frame(d: State, idxs: Seq<u32>, n: int, now: u64)
    requires
        0 <= n <= idxs.len(),
        forall|k: int| 0 <= k < idxs.len() ==> #[trigger] idxs[k] < d.chunks.len(),
    ensures
        ({
            let after = p2p_chunk_network::each_failed(d, idxs, n, now);
            &&& after == (State {
                chunks: after.chunks,
                verified_bytes: after.verified_bytes,
                updated_at: after.updated_at,
                ..d
            })
            &&& after.chunks.len() == d.chunks.len()
            &&& n > 0 ==> after.updated_at == now
        }),
    decreases n,
{
    if n > 0 {
        lemma_each_failed_frame(d, idxs, n - 1, now);
    }
}

/// Verifying chunks changes nothing but chunks, the count of verified bytes and the time, and that
/// only where there is one to verify.
proof fn lemma_each_verified_frame(d: State, idxs: Seq<u32>, n: int, now: u64)
    requires
        0 <= n <= idxs.len(),
        n > 0 ==> d.has(idxs[0], ChunkState::Downloaded),
    ensures
        ({
            let after = p2p_chunk_network::each_verified(d, idxs, n, now);
            &&& after == (State {
                chunks: after.chunks,
                verified_bytes: after.verified_bytes,
                updated_at: after.updated_at,
                ..d
            })
            &&& n > 0 ==> after.updated_at == now
        }),
    decreases n,
{
    if n > 0 {
        lemma_each_verified_frame(d, idxs, n - 1, now);
    }
}

/// When a check changes the time, and that it changes nothing else but chunks and their bytes.
proof fn lemma_checked_frame(d: State, pass: Seq<bool>, now: u64)
    requires
        d.indexed(),
        pass.len() == p2p_chunk_network::check_indices(d).len(),
    ensures
        ({
            let after = p2p_chunk_network::all_checked(d, pass, now);
            &&& after == (State {
                chunks: after.chunks,
                verified_bytes: after.verified_bytes,
                updated_at: after.updated_at,
                ..d
            })
            &&& after.updated_at == if after.chunks == d.chunks {
                d.updated_at
            } else {
                now
            }
        }),
{
    let idxs = p2p_chunk_network::check_indices(d);
    let test = download::in_state::<Seq<char>>(ChunkState::Downloaded);
    let n = pass.len() as int;
    let bad = p2p_chunk_network::bad_indices(d, pass);
    let good = p2p_chunk_network::good_indices(d, bad);
    let middle = p2p_chunk_network::each_failed(d, bad, bad.len() as int, now);
    let after = p2p_chunk_network::all_checked(d, pass, now);
    laws::law_check_settles_chunks(d, pass, now);
    assert forall|x: u32| #[trigger] bad.contains(x) implies d.has(x, ChunkState::Downloaded)
        && after.chunks[x as int] != d.chunks[x as int] by {
        laws::lemma_failing_contains(idxs, pass, n, x);
        let k = choose|k: int| 0 <= k < n && #[trigger] idxs[k] == x && !pass[k];
        assert(idxs.contains(idxs[k]));
        download::lemma_indices_of_indexed(d, test, x);
        assert(after.chunks[idxs[k] as int].state == ChunkState::Failed);
    }
    assert forall|k: int| 0 <= k < bad.len() implies #[trigger] bad[k] < d.chunks.len() by {
        assert(bad.contains(bad[k]));
    }
    lemma_each_failed_frame(d, bad, bad.len() as int, now);
    laws::lemma_each_failed_chunks(d, bad, bad.len() as int, now);
    assert(bad.take(bad.len() as int) =~= bad);
    if good.len() > 0 {
        let x = good[0];
        assert(good.contains(x));
        download::lemma_indices_of_indexed(d, p2p_chunk_network::good_test(bad), x);
        download::lemma_indices_of_indexed(d, test, x);
        assert(middle.chunks[x as int] == d.chunks[x as int]);
        let k = choose|k: int| 0 <= k < idxs.len() && idxs[k] == x;
        assert(after.chunks[idxs[k] as int].state != ChunkState::Downloaded);
        assert(after.chunks != d.chunks);
    }
    lemma_each_verified_frame(middle, good, good.len() as int, now);
    if bad.len() > 0 {
        assert(bad.contains(bad[0]));
        assert(after.chunks != d.chunks);
    }
}

/// What a check does.
proof fn lemma_check_settles(d: State, verdicts: Seq<Result<bool, ChunkNetErr>>, now: u64)
    requires
        d.indexed(),
        verdicts.len() == relations::count(d.chunks, asked_for(), d.chunks.len() as int),
    ensures
        settled_by(
            d,
            p2p_chunk_network::all_checked(d, p2p_chunk_network::passes(verdicts), now),
            verdicts,
            now,
        ),
{
    let pass = p2p_chunk_network::passes(verdicts);
    let after = p2p_chunk_network::all_checked(d, pass, now);
    let idxs = p2p_chunk_network::check_indices(d);
    let test = download::in_state::<Seq<char>>(ChunkState::Downloaded);
    relations::lemma_indices_list(d.chunks, test, asked_for());
    laws::law_check_settles_chunks(d, pass, now);
    lemma_checked_frame(d, pass, now);
    if d.accounted() {
        laws::law_check_keeps_count(d, pass, now);
    }
    assert forall|i: int| 0 <= i < d.chunks.len() implies {
        &&& (#[trigger] after.chunks[i]).state == if asked_for()(d.chunks[i]) {
            if says_good(verdicts[relations::count(d.chunks, asked_for(), i)]) {
                ChunkState::Verified
            } else {
                ChunkState::Failed
            }
        } else {
            d.chunks[i].state
        }
        &&& after.chunks[i].idx == d.chunks[i].idx
        &&& after.chunks[i].offset == d.chunks[i].offset
        &&& after.chunks[i].size == d.chunks[i].size
        &&& after.chunks[i].hash == d.chunks[i].hash
    } by {
        if asked_for()(d.chunks[i]) {
            let k = relations::count(d.chunks, asked_for(), i);
            assert(idxs[k] == i);
            assert(pass[k] == says_good(verdicts[k]));
            assert(after.chunks[idxs[k] as int].state == if pass[k] {
                ChunkState::Verified
            } else {
                ChunkState::Failed
            });
        }
    }
}

/// Verdicts are good or they are not.
proof fn lemma_count_verdicts(verdicts: Seq<Result<bool, ChunkNetErr>>, n: int)
    requires
        0 <= n <= verdicts.len(),
    ensures
        ({
            let good = relations::count(verdicts, |v: Result<bool, ChunkNetErr>| says_good(v), n);
            let bad = relations::count(verdicts, |v: Result<bool, ChunkNetErr>| !says_good(v), n);
            &&& good == download::count_true(p2p_chunk_network::passes(verdicts), n)
            &&& good + bad == n
            &&& 0 <= good
            &&& 0 <= bad
        }),
    decreases n,
{
    if n > 0 {
        lemma_count_verdicts(verdicts, n - 1);
        assert(p2p_chunk_network::passes(verdicts)[n - 1] == says_good(verdicts[n - 1]));
    }
}

/// Whether a chunk that was asked for and carries the index `p` was found to be no good.
pub open spec fn found_bad(
    before: State,
    verdicts: Seq<Result<bool, ChunkNetErr>>,
    p: int,
) -> bool {
    exists|i: int|
        0 <= i < before.chunks.len() && asked_for()(#[trigger] before.chunks[i])
            && before.chunks[i].idx == p && !says_good(
            verdicts[relations::count(before.chunks, asked_for(), i)],
        )
}

/// Whether a check has settled a download by the verdicts on its chunks, whatever indices they
/// carry: the chunk at a position has failed where one that was asked for carries its index and is
/// no good; where one does and all of them are good, it is verified, if it has arrived; else it
/// stays as it was. As many bytes are counted beyond those of the verified chunks as before. The
/// time is `now` unless nothing changed.
pub open spec fn settled_at_large(
    before: State,
    after: State,
    verdicts: Seq<Result<bool, ChunkNetErr>>,
    now: u64,
) -> bool {
    &&& relations::same_but_chunks(before, after)
    &&& forall|p: int|
        0 <= p < before.chunks.len() ==> (#[trigger] after.chunks[p]).state == if found_bad(
            before,
            verdicts,
            p,
        ) {
            ChunkState::Failed
        } else if before.chunks[p].state == ChunkState::Downloaded && !relations::none_naming(
            before.chunks,
            asked_for(),
            p,
        ) {
            ChunkState::Verified
        } else {
            before.chunks[p].state
        }
    &&& relations::excess(before) >= 0 ==> relations::excess(after) == relations::excess(before)
    &&& after.updated_at == now || after == before
}

/// What failing the first `n` of some indices does, whatever they are.
proof fn lemma_each_failed_at_large(d: State, idxs: Seq<u32>, n: int, now: u64)
    requires
        0 <= n <= idxs.len(),
    ensures
        ({
            let after = p2p_chunk_network::each_failed(d, idxs, n, now);
            &&& relations::same_but_chunks(d, after)
            &&& forall|p: int|
                0 <= p < d.chunks.len() ==> (#[trigger] after.chunks[p]).state
                    == if relations::none_among(idxs, n, p) {
                    d.chunks[p].state
                } else {
                    ChunkState::Failed
                }
            &&& relations::excess(d) >= 0 ==> relations::excess(after) == relations::excess(d)
            &&& after.updated_at == now || after == d
        }),
    decreases n,
{
    if n > 0 {
        let before = p2p_chunk_network::each_failed(d, idxs, n - 1, now);
        let after = p2p_chunk_network::each_failed(d, idxs, n, now);
        let idx = idxs[n - 1];
        lemma_each_failed_at_large(d, idxs, n - 1, now);
        if relations::excess(d) >= 0 {
            relations::lemma_steps_keep_excess(before, idx, now);
        }
        assert forall|p: int| 0 <= p < d.chunks.len() implies (#[trigger] after.chunks[p]).state
            == if relations::none_among(idxs, n, p) {
            d.chunks[p].state
        } else {
            ChunkState::Failed
        } by {
            lemma_none_among_step(idxs, n, p);
            assert(before.chunks[p].state == if relations::none_among(idxs, n - 1, p) {
                d.chunks[p].state
            } else {
                ChunkState::Failed
            });
        }
    }
}

/// None of the first `n` indices is `p` where none before the last is, nor the last.
proof fn lemma_none_among_step(idxs: Seq<u32>, n: int, p: int)
    requires
        0 < n <= idxs.len(),
    ensures
        relations::none_among(idxs, n, p) <==> relations::none_among(idxs, n - 1, p) && idxs[n - 1]
            != p,
{
}

/// What verifying the first `n` of some indices does, whatever they are.
proof fn lemma_each_verified_at_large(d: State, idxs: Seq<u32>, n: int, now: u64)
    requires
        0 <= n <= idxs.len(),
    ensures
        ({
            let after = p2p_chunk_network::each_verified(d, idxs, n, now);
            &&& relations::same_but_chunks(d, after)
            &&& forall|p: int|
                0 <= p < d.chunks.len() ==> (#[trigger] after.chunks[p]).state
                    == if d.chunks[p].state == ChunkState::Downloaded && !relations::none_among(
                    idxs,
                    n,
                    p,
                ) {
                    ChunkState::Verified
                } else {
                    d.chunks[p].state
                }
            &&& relations::excess(d) >= 0 ==> relations::excess(after) == relations::excess(d)
            &&& after.updated_at == now || after == d
        }),
    decreases n,
{
    if n > 0 {
        let before = p2p_chunk_network::each_verified(d, idxs, n - 1, now);
        let after = p2p_chunk_network::each_verified(d, idxs, n, now);
        let idx = idxs[n - 1];
        lemma_each_verified_at_large(d, idxs, n - 1, now);
        if relations::excess(d) >= 0 {
            relations::lemma_steps_keep_excess(before, idx, now);
        }
        assert forall|p: int| 0 <= p < d.chunks.len() implies (#[trigger] after.chunks[p]).state
            == if d.chunks[p].state == ChunkState::Downloaded && !relations::none_among(
            idxs,
            n,
            p,
        ) {
            ChunkState::Verified
        } else {
            d.chunks[p].state
        } by {
            lemma_none_among_step(idxs, n, p);
            assert(before.chunks[p].state == if d.chunks[p].state == ChunkState::Downloaded
                && !relations::none_among(idxs, n - 1, p) {
                ChunkState::Verified
            } else {
                d.chunks[p].state
            });
        }
    }
}

/// The indices of chunks that are no good are those of a chunk that was found to be no good.
proof fn lemma_bad_are_found(d: State, verdicts: Seq<Result<bool, ChunkNetErr>>, p: int)
    requires
        verdicts.len() == relations::count(d.chunks, asked_for(), d.chunks.len() as int),
    ensures
        ({
            let bad = p2p_chunk_network::bad_indices(d, p2p_chunk_network::passes(verdicts));
            relations::none_among(bad, bad.len() as int, p) <==> !found_bad(d, verdicts, p)
        }),
{
    let pass = p2p_chunk_network::passes(verdicts);
    let bad = p2p_chunk_network::bad_indices(d, pass);
    let idxs = p2p_chunk_network::check_indices(d);
    let n = pass.len() as int;
    let test = download::in_state::<Seq<char>>(ChunkState::Downloaded);
    assert(test =~= asked_for());
    relations::lemma_indices_list(d.chunks, test, asked_for());
    if !relations::none_among(bad, bad.len() as int, p) {
        let m = choose|m: int| 0 <= m < bad.len() && #[trigger] bad[m] == p;
        assert(bad.contains(bad[m]));
        laws::lemma_failing_contains(idxs, pass, n, bad[m]);
        let k = choose|k: int| 0 <= k < n && #[trigger] idxs[k] == bad[m] && !pass[k];
        relations::lemma_filter_comes_from(d.chunks, asked_for(), k);
        let i = choose|i: int|
            0 <= i < d.chunks.len() && asked_for()(#[trigger] d.chunks[i]) && relations::count(
                d.chunks,
                asked_for(),
                i,
            ) == k && d.chunks[i] == d.chunks.filter(asked_for())[k];
        assert(idxs[k] == d.chunks[i].idx);
        assert(pass[k] == says_good(verdicts[k]));
    }
    if found_bad(d, verdicts, p) {
        let i = choose|i: int|
            0 <= i < d.chunks.len() && asked_for()(#[trigger] d.chunks[i]) && d.chunks[i].idx == p
                && !says_good(verdicts[relations::count(d.chunks, asked_for(), i)]);
        let k = relations::count(d.chunks, asked_for(), i);
        assert(idxs[k] == d.chunks[i].idx);
        assert(pass[k] == says_good(verdicts[k]));
        laws::lemma_failing_contains(idxs, pass, n, d.chunks[i].idx);
        let m = choose|m: int| 0 <= m < bad.len() && bad[m] == d.chunks[i].idx;
        assert(bad[m] == p);
    }
}

/// The indices of the other chunks that have arrived are those that such a chunk carries and none
/// that is no good.
proof fn lemma_good_are_found(d: State, bad: Seq<u32>, p: int)
    ensures
        ({
            let good = p2p_chunk_network::good_indices(d, bad);
            relations::none_among(good, good.len() as int, p) <==> relations::none_naming(
                d.chunks,
                asked_for(),
                p,
            ) || !relations::none_among(bad, bad.len() as int, p)
        }),
{
    let test = p2p_chunk_network::good_test(bad);
    let good = p2p_chunk_network::good_indices(d, bad);
    relations::lemma_indices_list(d.chunks, test, test);
    if !relations::none_among(bad, bad.len() as int, p) {
        let m = choose|m: int| 0 <= m < bad.len() && #[trigger] bad[m] == p;
        assert(bad.contains(bad[m]));
        assert(relations::none_naming(d.chunks, test, p));
        relations::lemma_none_is_listed(d.chunks, test, p);
    } else if relations::none_naming(d.chunks, asked_for(), p) {
        assert forall|j: int| 0 <= j < d.chunks.len() && test(#[trigger] d.chunks[j]) implies
            d.chunks[j].idx != p by {
            assert(asked_for()(d.chunks[j]));
        }
        relations::lemma_none_is_listed(d.chunks, test, p);
    } else {
        let i = choose|i: int|
            0 <= i < d.chunks.len() && asked_for()(#[trigger] d.chunks[i]) && d.chunks[i].idx == p;
        if bad.contains(d.chunks[i].idx) {
            let m = choose|m: int| 0 <= m < bad.len() && bad[m] == d.chunks[i].idx;
            assert(bad[m] == p);
        }
        assert(test(d.chunks[i]));
        assert(good[relations::count(d.chunks, test, i)] == p);
    }
}

/// What a check does, whatever indices the chunks carry.
proof fn lemma_check_settles_at_large(d: State, verdicts: Seq<Result<bool, ChunkNetErr>>, now: u64)
    requires
        verdicts.len() == relations::count(d.chunks, asked_for(), d.chunks.len() as int),
    ensures
        settled_at_large(
            d,
            p2p_chunk_network::all_checked(d, p2p_chunk_network::passes(verdicts), now),
            verdicts,
            now,
        ),
{
    let pass = p2p_chunk_network::passes(verdicts);
    let bad = p2p_chunk_network::bad_indices(d, pass);
    let good = p2p_chunk_network::good_indices(d, bad);
    let middle = p2p_chunk_network::each_failed(d, bad, bad.len() as int, now);
    let after = p2p_chunk_network::all_checked(d, pass, now);
    lemma_each_failed_at_large(d, bad, bad.len() as int, now);
    lemma_each_verified_at_large(middle, good, good.len() as int, now);
    assert forall|p: int| 0 <= p < d.chunks.len() implies (#[trigger] after.chunks[p]).state
        == if found_bad(d, verdicts, p) {
        ChunkState::Failed
    } else if d.chunks[p].state == ChunkState::Downloaded && !relations::none_naming(
        d.chunks,
        asked_for(),
        p,
    ) {
        ChunkState::Verified
    } else {
        d.chunks[p].state
    } by {
        lemma_bad_are_found(d, verdicts, p);
        lemma_good_are_found(d, bad, p);
        assert(middle.chunks[p].state == if relations::none_among(bad, bad.len() as int, p) {
            d.chunks[p].state
        } else {
            ChunkState::Failed
        });
    }
    assert forall|i: int| 0 <= i < d.chunks.len() implies {
        &&& (#[trigger] after.chunks[i]).idx == d.chunks[i].idx
        &&& after.chunks[i].offset == d.chunks[i].offset
        &&& after.chunks[i].size == d.chunks[i].size
        &&& after.chunks[i].hash == d.chunks[i].hash
    } by {
        assert(middle.chunks[i].idx == d.chunks[i].idx);
    }
}

/// A check settles the chunks that have arrived by their verdicts, and counts them. It gives a
/// result whatever the verdicts.
pub proof fn law_check_settles(
    s: &mut DlState,
    verdicts: &[Result<bool, ChunkNetErr>],
    now: u64,
    out: Result<VerifyResult, ChunkNetErr>,
)
    requires
        verdicts@.len() == relations::count(
            old(s)@.chunks,
            asked_for(),
            old(s)@.chunks.len() as int,
        ),
        verdicts@.len() <= u32::MAX,
    ensures
        call_ensures(p2p_chunk_network::verify_all_chunks_at, (s, verdicts, now), out) ==> {
            &&& settled_at_large(old(s)@, final(s)@, verdicts@, now)
            &&& old(s)@.indexed() ==> settled_by(old(s)@, final(s)@, verdicts@, now)
            &&& out matches Ok(counts) && counted_by(verdicts@, counts)
        },
        call_ensures(p2p_chunk_network::verify_all_chunks, (s, verdicts), out) ==> {
            &&& exists|time: u64|
                #[trigger] settled_at_large(old(s)@, final(s)@, verdicts@, time)
            &&& old(s)@.indexed() ==> exists|time: u64|
                #[trigger] settled_by(old(s)@, final(s)@, verdicts@, time)
            &&& out matches Ok(counts) && counted_by(verdicts@, counts)
        },
{
    lemma_count_verdicts(verdicts@, verdicts@.len() as int);
    lemma_check_settles_at_large(old(s)@, verdicts@, now);
    if old(s)@.indexed() {
        lemma_check_settles(old(s)@, verdicts@, now);
    }
    if call_ensures(p2p_chunk_network::verify_all_chunks, (s, verdicts), out) {
        let time = choose|time: u64|
            final(s)@ == #[trigger] p2p_chunk_network::all_checked(
                old(s)@,
                p2p_chunk_network::passes(verdicts@),
                time,
            );
        lemma_check_settles_at_large(old(s)@, verdicts@, time);
        if old(s)@.indexed() {
            lemma_check_settles(old(s)@, verdicts@, time);
        }
    }
}

/// A check judges chunks by their bytes: each chunk that has arrived ends up verified where it has
/// no hash, or where the bytes that were read of it have a SHA-256 whose lower-case hexadecimal
/// form is the hash, and has failed otherwise; every other chunk stands as it stood.
pub proof fn law_check_judges_by_bytes(
    s: &mut DlState,
    reads: Seq<DiskRead>,
    verdicts: &[Result<bool, ChunkNetErr>],
    now: u64,
    out: Result<VerifyResult, ChunkNetErr>,
)
    requires
        call_ensures(p2p_chunk_network::verify_all_chunks_at, (s, verdicts, now), out)
            || call_ensures(p2p_chunk_network::verify_all_chunks, (s, verdicts), out),
        old(s)@.indexed(),
        verdicts@.len() == relations::count(
            old(s)@.chunks,
            asked_for(),
            old(s)@.chunks.len() as int,
        ),
        verdicts@.len() <= u32::MAX,
        forall|i: int|
            0 <= i < old(s)@.chunks.len() && asked_for()(#[trigger] old(s)@.chunks[i])
                ==> call_ensures(
                p2p_chunk_network::verify_chunk_from_disk,
                (
                    &old(s).chunks@[i],
                    &reads[relations::count(old(s)@.chunks, asked_for(), i)],
                ),
                verdicts@[relations::count(old(s)@.chunks, asked_for(), i)],
            ),
    ensures
        forall|i: int|
            0 <= i < old(s)@.chunks.len() ==> {
                let c = old(s)@.chunks[i];
                let read = reads[relations::count(old(s)@.chunks, asked_for(), i)];
                (#[trigger] final(s)@.chunks[i]).state == if c.state == ChunkState::Downloaded {
                    if c.hash.len() == 0 || (read matches DiskRead::Data(data) && digest::hex_text(
                        digest::sha256_digest(data@),
                    ) == c.hash) {
                        ChunkState::Verified
                    } else {
                        ChunkState::Failed
                    }
                } else {
                    c.state
                }
            },
{
    law_check_settles(s, verdicts, now, out);
    assert forall|i: int| 0 <= i < old(s)@.chunks.len() implies {
        let c = old(s)@.chunks[i];
        let read = reads[relations::count(old(s)@.chunks, asked_for(), i)];
        (#[trigger] final(s)@.chunks[i]).state == if c.state == ChunkState::Downloaded {
            if c.hash.len() == 0 || (read matches DiskRead::Data(data) && digest::hex_text(
                digest::sha256_digest(data@),
            ) == c.hash) {
                ChunkState::Verified
            } else {
                ChunkState::Failed
            }
        } else {
            c.state
        }
    } by {
        let c = old(s)@.chunks[i];
        assert(c == old(s).chunks@[i]@);
        if asked_for()(c) {
            let k = relations::count(old(s)@.chunks, asked_for(), i);
            law_chunk_is_judged_by_hash(&old(s).chunks@[i], &reads[k], verdicts@[k]);
        }
    }
}

/// A check can be made wherever the verdicts answer what was asked and are found to fit.
pub proof fn law_check_can_be_made(
    s: &mut DlState,
    verdicts: &[Result<bool, ChunkNetErr>],
    found: Vec<String>,
    now: u64,
)
    requires
        verdicts@.len() == relations::count(
            old(s)@.chunks,
            asked_for(),
            old(s)@.chunks.len() as int,
        ),
        call_ensures(p2p_chunk_network::verdicts_fit, (&*old(s), verdicts), true),
    ensures
        call_requires(p2p_chunk_network::verify_all_chunks_at, (s, verdicts, now)),
        call_requires(p2p_chunk_network::verify_all_chunks, (s, verdicts)),
        call_requires(p2p_chunk_network::resume_recovery_at, (s, found, verdicts, now)),
        call_requires(p2p_chunk_network::resume_recovery, (s, found, verdicts)),
{
    relations::lemma_indices_list(
        old(s)@.chunks,
        download::in_state(ChunkState::Downloaded),
        asked_for(),
    );
}

/// What failing the first `n` of some chunks leaves counted is bounded by what was counted before
/// and by the bytes of all chunks.
proof fn lemma_each_failed_bounded(d: State, idxs: Seq<u32>, n: int, now: u64)
    requires
        d.verified_bytes >= 0,
    ensures
        relations::bounded(
            p2p_chunk_network::each_failed(d, idxs, n, now),
            d.verified_bytes,
            relations::size_sum(d.chunks),
        ),
    decreases n,
{
    let size = relations::size_sum(d.chunks);
    if n > 0 {
        let before = p2p_chunk_network::each_failed(d, idxs, n - 1, now);
        lemma_each_failed_bounded(d, idxs, n - 1, now);
        relations::lemma_steps_bounded(before, d.verified_bytes, size, idxs[n - 1], now);
    } else {
        relations::lemma_verified_within_size(d.chunks);
    }
}

/// What noting the first `n` good chunks counts is bounded by what was counted before and by the
/// bytes of all chunks.
proof fn lemma_checked_bounded(d: State, pass: Seq<bool>, n: int, now: u64)
    requires
        d.verified_bytes >= 0,
    ensures
        relations::bounded(
            p2p_chunk_network::checked(d, pass, n, now),
            d.verified_bytes,
            relations::size_sum(d.chunks),
        ),
    decreases n,
{
    let size = relations::size_sum(d.chunks);
    let bad = p2p_chunk_network::bad_indices(d, pass);
    if n > 0 {
        let before = p2p_chunk_network::checked(d, pass, n - 1, now);
        lemma_checked_bounded(d, pass, n - 1, now);
        relations::lemma_steps_bounded(
            before,
            d.verified_bytes,
            size,
            p2p_chunk_network::good_indices(d, bad)[n - 1],
            now,
        );
    } else {
        lemma_each_failed_bounded(d, bad, bad.len() as int, now);
    }
}

/// Verdicts that can be counted in a `u32` are always found to fit where the bytes of all chunks
/// can be counted on top of those counted so far.
pub proof fn law_verdicts_fit(s: &DlState, verdicts: &[Result<bool, ChunkNetErr>], out: bool)
    requires
        call_ensures(p2p_chunk_network::verdicts_fit, (s, verdicts), out),
        verdicts@.len() <= u32::MAX,
        s@.verified_bytes + relations::size_sum(s@.chunks) <= u64::MAX,
    ensures
        out,
{
    let d = s@;
    let pass = p2p_chunk_network::passes(verdicts@);
    download::lemma_count_true_bounds(pass, pass.len() as int);
    assert forall|n: int| 0 <= n <= p2p_chunk_network::good_len(d, pass) implies (
    #[trigger] p2p_chunk_network::checked(d, pass, n, d.updated_at)).verified_bytes
        <= u64::MAX by {
        lemma_checked_bounded(d, pass, n, d.updated_at);
        relations::lemma_verified_within_size(
            p2p_chunk_network::checked(d, pass, n, d.updated_at).chunks,
        );
    }
}

/// The bytes of those of the first `n` chunks that have arrived and are found good.
pub open spec fn newly_good(d: State, verdicts: Seq<Result<bool, ChunkNetErr>>, n: int) -> int
    decreases n,
{
    if n <= 0 {
        0
    } else {
        let c = d.chunks[n - 1];
        newly_good(d, verdicts, n - 1) + if asked_for()(c) && says_good(
            verdicts[relations::count(d.chunks, asked_for(), n - 1)],
        ) {
            c.size as int
        } else {
            0
        }
    }
}

/// Counting further never lowers the bytes.
proof fn lemma_newly_good_grows(d: State, verdicts: Seq<Result<bool, ChunkNetErr>>, n: int, m: int)
    requires
        0 <= n <= m,
    ensures
        newly_good(d, verdicts, n) <= newly_good(d, verdicts, m),
    decreases m,
{
    if m > n {
        lemma_newly_good_grows(d, verdicts, n, m - 1);
    }
}

/// Failing chunks never adds to the count, and leaves their sizes as they are.
proof fn lemma_each_failed_adds_nothing(d: State, idxs: Seq<u32>, n: int, now: u64)
    requires
        d.verified_bytes >= 0,
    ensures
        p2p_chunk_network::each_failed(d, idxs, n, now).verified_bytes <= d.verified_bytes,
    decreases n,
{
    if n > 0 {
        lemma_each_failed_adds_nothing(d, idxs, n - 1, now);
    }
}

/// What a check has counted when it has come to the chunk at position `i` is no more than was
/// counted before and the bytes of the good ones before that.
proof fn lemma_checked_up_to(d: State, verdicts: Seq<Result<bool, ChunkNetErr>>, i: int, now: u64)
    requires
        d.indexed(),
        d.verified_bytes >= 0,
        verdicts.len() == relations::count(d.chunks, asked_for(), d.chunks.len() as int),
        0 <= i <= d.chunks.len(),
    ensures
        ({
            let pass = p2p_chunk_network::passes(verdicts);
            let test = p2p_chunk_network::good_test(p2p_chunk_network::bad_indices(d, pass));
            let n = relations::count(d.chunks, test, i);
            p2p_chunk_network::checked(d, pass, n, now).verified_bytes <= d.verified_bytes
                + newly_good(d, verdicts, i)
        }),
    decreases i,
{
    let pass = p2p_chunk_network::passes(verdicts);
    let bad = p2p_chunk_network::bad_indices(d, pass);
    let test = p2p_chunk_network::good_test(bad);
    let good = p2p_chunk_network::good_indices(d, bad);
    let middle = p2p_chunk_network::each_failed(d, bad, bad.len() as int, now);
    lemma_each_failed_adds_nothing(d, bad, bad.len() as int, now);
    if i > 0 {
        lemma_checked_up_to(d, verdicts, i - 1, now);
        relations::lemma_indices_list(d.chunks, test, test);
        let k = relations::count(d.chunks, test, i - 1);
        relations::lemma_count_bounds(d.chunks, test, 0, i - 1);
        if test(d.chunks[i - 1]) {
            assert(good[k] == i - 1);
            lemma_bad_are_found(d, verdicts, i - 1);
            assert(relations::none_among(bad, bad.len() as int, i - 1)) by {
                if !relations::none_among(bad, bad.len() as int, i - 1) {
                    let m = choose|m: int| 0 <= m < bad.len() && #[trigger] bad[m] == i - 1;
                    assert(bad.contains(bad[m]));
                }
            }
            assert(asked_for()(d.chunks[i - 1]));
            assert(says_good(verdicts[relations::count(d.chunks, asked_for(), i - 1)]));
            lemma_each_failed_at_large(d, bad, bad.len() as int, now);
            lemma_each_verified_at_large(middle, good, k, now);
            let before = p2p_chunk_network::checked(d, pass, k, now);
            assert(before.chunks[i - 1].size == middle.chunks[i - 1].size);
            assert(middle.chunks[i - 1].size == d.chunks[i - 1].size);
        }
    }
}

/// Verdicts that can be counted in a `u32` are found to fit wherever the bytes of the chunks that
/// they find good can be counted on top of those counted so far.
pub proof fn law_newly_good_fit(s: &DlState, verdicts: &[Result<bool, ChunkNetErr>], out: bool)
    requires
        call_ensures(p2p_chunk_network::verdicts_fit, (s, verdicts), out),
        verdicts@.len() == relations::count(s@.chunks, asked_for(), s@.chunks.len() as int),
        verdicts@.len() <= u32::MAX,
        s@.indexed(),
        s@.verified_bytes + newly_good(s@, verdicts@, s@.chunks.len() as int) <= u64::MAX,
    ensures
        out,
{
    let d = s@;
    let pass = p2p_chunk_network::passes(verdicts@);
    let bad = p2p_chunk_network::bad_indices(d, pass);
    let test = p2p_chunk_network::good_test(bad);
    let len = d.chunks.len() as int;
    download::lemma_count_true_bounds(pass, pass.len() as int);
    relations::lemma_indices_list(d.chunks, test, test);
    assert forall|n: int| 0 <= n <= p2p_chunk_network::good_len(d, pass) implies (
    #[trigger] p2p_chunk_network::checked(d, pass, n, d.updated_at)).verified_bytes
        <= u64::MAX by {
        if n == p2p_chunk_network::good_len(d, pass) {
            lemma_checked_up_to(d, verdicts@, len, d.updated_at);
        } else {
            relations::lemma_filter_comes_from(d.chunks, test, n);
            let i = choose|i: int|
                0 <= i < d.chunks.len() && test(#[trigger] d.chunks[i]) && relations::count(
                    d.chunks,
                    test,
                    i,
                ) == n && d.chunks[i] == d.chunks.filter(test)[n];
            lemma_checked_up_to(d, verdicts@, i, d.updated_at);
            lemma_newly_good_grows(d, verdicts@, i, len);
        }
    }
}

/// What a lookup found is taken as it is, but to find nobody is an error.
pub proof fn law_nobody_found_is_an_error(
    found: Vec<String>,
    out: Result<Vec<String>, ChunkNetErr>,
)
    requires
        call_ensures(p2p_chunk_network::query_providers, (found,), out),
    ensures
        found@.len() > 0 ==> (out matches Ok(same) && same@ == found@),
        found@.len() == 0 ==> (out matches Err(e) && e is NoProviders),
{
    if out is Err {
        law_error_shows_fields(out->Err_0);
    }
}

/// The texts of what a lookup found.
pub open spec fn found_texts(found: Vec<String>) -> Seq<Seq<char>> {
    Seq::new(found@.len(), |i: int| found@[i]@)
}

/// The providers that a lookup found are listed behind the others, in their order, each unless it
/// is listed already, and counted if they are new. To find nobody is an error and changes nothing.
pub proof fn law_found_are_listed(
    s: &mut DlState,
    found: Vec<String>,
    now: u64,
    out: Result<usize, ChunkNetErr>,
)
    requires
        call_ensures(p2p_chunk_network::refresh_providers_at, (s, found, now), out)
            || call_ensures(p2p_chunk_network::refresh_providers, (s, found), out),
    ensures
        exists|time: u64|
            #[trigger] relations::listing(old(s)@, final(s)@, found_texts(found), time),
        call_ensures(p2p_chunk_network::refresh_providers_at, (s, found, now), out)
            ==> relations::listing(old(s)@, final(s)@, found_texts(found), now),
        found@.len() > 0 ==> (out matches Ok(added) && added == relations::count_new(
            old(s)@.peers,
            found_texts(found),
            found@.len() as int,
        )),
        found@.len() == 0 ==> (out matches Err(e) && e is NoProviders) && final(s)@ == old(s)@,
{
    let texts = found_texts(found);
    assert(texts =~= text::texts(found@));
    relations::lemma_listing(old(s)@, texts, now);
    if call_ensures(p2p_chunk_network::refresh_providers, (s, found), out) {
        let time = choose|time: u64|
            final(s)@ == #[trigger] p2p_chunk_network::refreshed(
                old(s)@,
                text::texts(found@),
                time,
            );
        relations::lemma_listing(old(s)@, texts, time);
    }
    assert(old(s)@.peers.len() == old(s).providers@.len());
    assert(final(s)@.peers.len() == final(s).providers@.len());
    assert(final(s).providers.len() <= usize::MAX);
    relations::lemma_count_new_bounds(old(s)@.peers, texts, 0, texts.len() as int);
    if out is Err {
        law_error_shows_fields(out->Err_0);
    }
}

/// The hashes of the entries of a manifest, in order.
pub open spec fn entry_hashes(manifest: FileManifest) -> Seq<Seq<char>> {
    Seq::new(manifest.chunks@.len(), |i: int| manifest.chunks@[i].hash@)
}

/// A recovery is asked for.
///
/// - Where it is under way already, nothing changes.
/// - Where there is no manifest to go by, it is started.
/// - Where the Merkle root is the one over the hashes of the manifest, it is started; a file of any
///   number of chunks is.
/// - Where the root over them is another, it is refused, and is not under way.
/// - Where there is no root over them, the error says why, and it stays under way.
pub proof fn law_recovery_is_asked_for(
    svc: &mut RecoverySvc,
    state: &DlState,
    parsed: &Option<FileManifest>,
    out: Result<Start, ChunkNetErr>,
)
    requires
        call_ensures(RecoverySvc::start_recovery, (svc, state, parsed), out),
    ensures
        ({
            let root = state.merkle_root@;
            let active = old(svc)@.contains(root);
            let readable = state.manifest_json is Some && *parsed is Some;
            let over = p2p_chunk_network::root_of(entry_hashes(parsed->0));
            &&& active ==> out == Ok::<Start, ChunkNetErr>(Start::AlreadyActive) && final(svc)@
                == old(svc)@
            &&& !active && !readable ==> out == Ok::<Start, ChunkNetErr>(Start::Started)
                && final(svc)@ == old(svc)@.insert(root)
            &&& !active && readable && over == Ok::<Seq<char>, NetErr>(root) ==> out == Ok::<
                Start,
                ChunkNetErr,
            >(Start::Started) && final(svc)@ == old(svc)@.insert(root)
            &&& !active && readable && over is Ok && over->Ok_0 != root ==> (out matches Err(e)
                && e is MerkleInvalid) && final(svc)@ == old(svc)@
            &&& !active && readable && over is Err ==> (out matches Err(e) && e@ == over->Err_0)
                && final(svc)@ == old(svc)@.insert(root)
        }),
{
    if *parsed is Some {
        assert(entry_hashes(parsed->0) =~= parsed->0.hashes());
    }
    assert(old(svc)@.contains(state.merkle_root@) ==> old(svc)@.insert(state.merkle_root@)
        =~= old(svc)@);
    if out is Err {
        law_error_shows_fields(out->Err_0);
    }
}

/// A download that is not under way, and whose Merkle root is the one that is computed over the
/// hashes of its manifest, is always started, and is under way then.
pub proof fn law_right_root_is_started(
    svc: &mut RecoverySvc,
    state: &DlState,
    manifest: FileManifest,
    hashes: &[String],
    computed: Result<String, ChunkNetErr>,
    out: Result<Start, ChunkNetErr>,
)
    requires
        call_ensures(RecoverySvc::start_recovery, (svc, state, &Some(manifest)), out),
        !old(svc)@.contains(state.merkle_root@),
        state.manifest_json is Some,
        same_texts(hashes@, entry_hashes(manifest)),
        call_ensures(p2p_chunk_network::compute_merkle_root, (hashes,), computed),
        computed matches Ok(root) && root@ == state.merkle_root@,
    ensures
        out == Ok::<Start, ChunkNetErr>(Start::Started),
        final(svc)@.contains(state.merkle_root@),
{
    law_recovery_is_asked_for(svc, state, &Some(manifest), out);
    assert(text::texts(hashes@) =~= entry_hashes(manifest));
}

/// A service starts with no recovery under way; one that is over is no longer; and it says of each
/// whether it is under way.
pub proof fn law_recoveries_under_way(
    fresh: RecoverySvc,
    svc: &mut RecoverySvc,
    over: &str,
    asked: &str,
    out: bool,
)
    ensures
        call_ensures(RecoverySvc::new, (), fresh) ==> forall|root: Seq<char>|
            !(#[trigger] fresh@.contains(root)),
        call_ensures(RecoverySvc::complete_recovery, (svc, over), ()) ==> forall|root: Seq<char>|
            #[trigger] final(svc)@.contains(root) <==> old(svc)@.contains(root) && root != over@,
        call_ensures(RecoverySvc::is_active, (&fresh, asked), out) ==> out == fresh@.contains(
            asked@,
        ),
{
}

/// A recovery that has been started is taken further by listing whom a lookup found, and then
/// settling the chunks that have arrived by their verdicts.
pub proof fn law_recovery_goes_on(
    s: &mut DlState,
    found: Vec<String>,
    verdicts: &[Result<bool, ChunkNetErr>],
    now: u64,
    out: Result<VerifyResult, ChunkNetErr>,
)
    requires
        call_ensures(p2p_chunk_network::resume_recovery_at, (s, found, verdicts, now), out)
            || call_ensures(p2p_chunk_network::resume_recovery, (s, found, verdicts), out),
        verdicts@.len() == relations::count(
            old(s)@.chunks,
            asked_for(),
            old(s)@.chunks.len() as int,
        ),
        verdicts@.len() <= u32::MAX,
    ensures
        exists|middle: State, time: u64|
            #[trigger] relations::listing(old(s)@, middle, found_texts(found), time)
                && settled_at_large(middle, final(s)@, verdicts@, time) && (old(s)@.indexed()
                ==> settled_by(middle, final(s)@, verdicts@, time)),
        call_ensures(p2p_chunk_network::resume_recovery_at, (s, found, verdicts, now), out)
            ==> exists|middle: State|
            #[trigger] relations::listing(old(s)@, middle, found_texts(found), now)
                && settled_at_large(middle, final(s)@, verdicts@, now) && (old(s)@.indexed()
                ==> settled_by(middle, final(s)@, verdicts@, now)),
        out matches Ok(counts) && counted_by(verdicts@, counts),
{
    let texts = found_texts(found);
    assert(texts =~= text::texts(found@));
    lemma_count_verdicts(verdicts@, verdicts@.len() as int);
    if call_ensures(p2p_chunk_network::resume_recovery_at, (s, found, verdicts, now), out) {
        let middle = p2p_chunk_network::refreshed(old(s)@, texts, now);
        relations::lemma_listing(old(s)@, texts, now);
        lemma_check_settles_at_large(middle, verdicts@, now);
        if old(s)@.indexed() {
            lemma_check_settles(middle, verdicts@, now);
        }
        assert(relations::listing(old(s)@, middle, texts, now));
    }
    if call_ensures(p2p_chunk_network::resume_recovery, (s, found, verdicts), out) {
        let time = choose|time: u64|
            final(s)@ == p2p_chunk_network::all_checked(
                #[trigger] p2p_chunk_network::refreshed(old(s)@, text::texts(found@), time),
                p2p_chunk_network::passes(verdicts@),
                time,
            );
        let middle = p2p_chunk_network::refreshed(old(s)@, texts, time);
        relations::lemma_listing(old(s)@, texts, time);
        lemma_check_settles_at_large(middle, verdicts@, time);
        if old(s)@.indexed() {
            lemma_check_settles(middle, verdicts@, time);
        }
        assert(relations::listing(old(s)@, middle, texts, time));
    }
}

/// Whether a download is that of a published file, of which nothing has been fetched: with the
/// chunks of its manifest where there is one that could be read, and else with the file cut up; and
/// with the seeders as providers.
pub open spec fn set_up_from(
    d: State,
    meta: FileMetadata,
    parsed: Option<FileManifest>,
    tmp_path: Seq<char>,
    dst_path: Seq<char>,
) -> bool {
    &&& d.version == 1
    &&& d.merkle_root == meta.merkle_root@
    &&& d.file_name == meta.file_name@
    &&& d.file_size == meta.file_size
    &&& d.tmp_path == tmp_path
    &&& d.dst_path == dst_path
    &&& d.verified_bytes == 0
    &&& d.encrypted == meta.is_encrypted
    &&& meta.manifest is Some && parsed is Some ==> {
        &&& from_entries(d.chunks, parsed->0)
        &&& same_option(meta.manifest, d.manifest)
    }
    &&& meta.manifest is None || parsed is None ==> {
        &&& relations::cut_up(d.chunks, meta.file_size as int)
        &&& forall|i: int| 0 <= i < d.chunks.len() ==> (#[trigger] d.chunks[i]).hash.len() == 0
        &&& d.manifest is None
    }
    &&& relations::joined(
        Seq::empty(),
        Seq::new(meta.seeders@.len(), |i: int| meta.seeders@[i]@),
        d.peers,
    )
}

/// What laying out chunks makes of them.
proof fn lemma_laid_out(d: State)
    ensures
        ({
            let chunks = p2p_chunk_network::chunks_laid_out(d).chunks;
            &&& relations::cut_up(chunks, d.file_size as int)
            &&& forall|i: int| 0 <= i < chunks.len() ==> (#[trigger] chunks[i]).hash.len() == 0
        }),
{
}

/// What setting up a download from a published record makes of it.
proof fn lemma_set_up(
    meta: FileMetadata,
    parsed: Option<FileManifest>,
    tmp_path: Seq<char>,
    dst_path: Seq<char>,
    now: u64,
)
    ensures
        ({
            let d = p2p_chunk_network::state_of_metadata(meta, parsed, tmp_path, dst_path, now);
            &&& set_up_from(d, meta, parsed, tmp_path, dst_path)
            &&& d.updated_at == now
        }),
{
    let fresh = State {
        encrypted: meta.is_encrypted,
        ..State::fresh(
            1,
            meta.merkle_root@,
            meta.file_name@,
            meta.file_size,
            tmp_path,
            dst_path,
            now,
        )
    };
    let readable = meta.manifest is Some && parsed is Some;
    let with_chunks = if readable {
        p2p_chunk_network::with_manifest(fresh, parsed->0, text::opt_text(meta.manifest))
    } else {
        p2p_chunk_network::chunks_laid_out(fresh)
    };
    let seeders = Seq::new(meta.seeders@.len(), |i: int| meta.seeders@[i]@);
    let d = p2p_chunk_network::state_of_metadata(meta, parsed, tmp_path, dst_path, now);
    assert(seeders =~= text::texts(meta.seeders@));
    relations::lemma_listing(with_chunks, seeders, now);
    if readable {
        lemma_from_entries(fresh, parsed->0, text::opt_text(meta.manifest));
    } else {
        lemma_laid_out(fresh);
    }
    assert(d.chunks == with_chunks.chunks);
    assert(relations::joined(Seq::empty(), seeders, d.peers));
}

/// A published file is set up with the chunks of its manifest, or cut up where there is none that
/// could be read, and with its seeders as providers. Where the manifest lists the chunks of the
/// file with their lengths, the chunks cut up the file. There is always a result.
pub proof fn law_published_file_is_set_up(
    meta: &FileMetadata,
    parsed: &Option<FileManifest>,
    tmp_path: String,
    dst_path: String,
    now: u64,
    out: Result<DlState, ChunkNetErr>,
)
    requires
        call_ensures(
            p2p_chunk_network::from_file_metadata_at,
            (meta, parsed, tmp_path, dst_path, now),
            out,
        ) || call_ensures(
            p2p_chunk_network::from_file_metadata,
            (meta, parsed, tmp_path, dst_path),
            out,
        ),
    ensures
        out matches Ok(state) && {
            &&& set_up_from(state@, *meta, *parsed, tmp_path@, dst_path@)
            &&& call_ensures(
                p2p_chunk_network::from_file_metadata_at,
                (meta, parsed, tmp_path, dst_path, now),
                out,
            ) ==> state.updated_at == now
            &&& meta.manifest is Some && *parsed is Some && lists_file(
                parsed->0,
                meta.file_size,
            ) ==> relations::size_sum(state@.chunks) == meta.file_size
        },
{
    lemma_set_up(*meta, *parsed, tmp_path@, dst_path@, now);
    let d = out->Ok_0@;
    if call_ensures(
        p2p_chunk_network::from_file_metadata,
        (meta, parsed, tmp_path, dst_path),
        out,
    ) {
        let time = choose|time: u64|
            d == #[trigger] p2p_chunk_network::state_of_metadata(
                *meta,
                *parsed,
                tmp_path@,
                dst_path@,
                time,
            );
        lemma_set_up(*meta, *parsed, tmp_path@, dst_path@, time);
    }
    if meta.manifest is Some && *parsed is Some && lists_file(parsed->0, meta.file_size) {
        lemma_entries_sum(d.chunks, parsed->0, meta.file_size, d.chunks.len() as int);
        assert(d.chunks.take(d.chunks.len() as int) =~= d.chunks);
    }
}

/// Every published file can be set up that has a manifest that could be read, or that is shorter
/// than all of a `u64` by one chunk.
pub proof fn law_published_file_can_be_set_up(
    meta: &FileMetadata,
    parsed: &Option<FileManifest>,
    tmp_path: String,
    dst_path: String,
    now: u64,
)
    requires
        (meta.manifest is Some && *parsed is Some) || meta.file_size + 262144 <= u64::MAX,
    ensures
        call_requires(
            p2p_chunk_network::from_file_metadata_at,
            (meta, parsed, tmp_path, dst_path, now),
        ),
        call_requires(
            p2p_chunk_network::from_file_metadata,
            (meta, parsed, tmp_path, dst_path),
        ),
{
}

} // verus!
