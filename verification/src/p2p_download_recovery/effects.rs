//! What each call does, told of every input and every result that it may give.

use crate::chunk::ChunkState;
use crate::digest;
use crate::download;
use crate::download::Chunk;
use crate::models::{FileManifest, FileMetadata};
use crate::p2p_download_recovery;
use crate::p2p_download_recovery::laws;
use crate::p2p_download_recovery::{
    ChunkMeta, ChunkRead, DlState, FinalMove, RecoverInfo, RecoveryPlan, ScanAction, State,
    VerifyResult,
};
use crate::paths;
use crate::relations;
use crate::text;
use std::collections::HashSet;
use vstd::prelude::*;

verus! {

/// Whether two optional texts are the same.
pub open spec fn same_option(a: Option<String>, b: Option<Seq<char>>) -> bool {
    match (a, b) {
        (Some(x), Some(y)) => x@ == y,
        (None, None) => true,
        _ => false,
    }
}

/// Whether a list of strings has the given texts.
pub open spec fn same_texts(list: Seq<String>, texts: Seq<Seq<char>>) -> bool {
    &&& list.len() == texts.len()
    &&& forall|i: int| 0 <= i < list.len() ==> (#[trigger] list[i])@ == texts[i]
}

/// The value of a chunk shows every field of it.
pub proof fn law_chunk_shows_fields(c: ChunkMeta)
    ensures
        c@.idx == c.idx,
        c@.offset == c.offset,
        c@.size == c.size,
        same_option(c.hash, c@.hash),
        c@.state == c.state,
{
}

/// The value of a download shows every field of it.
pub proof fn law_value_shows_fields(s: DlState)
    ensures
        s@.version == s.version,
        s@.merkle_root == s.merkle_root@,
        s@.file_name == s.file_name@,
        s@.file_size == s.file_size,
        s@.tmp_path == s.tmp_path@,
        s@.dst_path == s.dst_path@,
        s@.chunks.len() == s.chunks@.len(),
        forall|i: int| 0 <= i < s.chunks@.len() ==> #[trigger] s@.chunks[i] == s.chunks@[i]@,
        s@.verified_bytes == s.verified_bytes,
        same_texts(s.peers@, s@.peers),
        same_option(s.manifest, s@.manifest),
        s@.encrypted == s.encrypted,
        s@.updated_at == s.updated_at,
{
}

/// A copy is the same as what it is a copy of.
pub proof fn law_copy_is_same(s: &DlState, t: DlState, c: &ChunkMeta, e: ChunkMeta)
    ensures
        call_ensures(DlState::clone, (s,), t) ==> t@ == s@,
        call_ensures(ChunkMeta::clone, (c,), e) ==> e@ == c@,
{
}

/// A new chunk holds what it is given and has not been fetched.
pub proof fn law_new_chunk(idx: u32, offset: u64, size: u32, hash: Option<String>, out: ChunkMeta)
    requires
        call_ensures(ChunkMeta::new, (idx, offset, size, hash), out),
    ensures
        out.idx == idx,
        out.offset == offset,
        out.size == size,
        same_option(hash, out@.hash),
        out.state == ChunkState::Pending,
{
}

/// Whether nothing is known of a download but the file.
pub open spec fn newly_made(
    d: State,
    merkle_root: Seq<char>,
    file_name: Seq<char>,
    file_size: u64,
    tmp_path: Seq<char>,
    dst_path: Seq<char>,
) -> bool {
    &&& d.version == 1
    &&& d.merkle_root == merkle_root
    &&& d.file_name == file_name
    &&& d.file_size == file_size
    &&& d.tmp_path == tmp_path
    &&& d.dst_path == dst_path
    &&& d.chunks.len() == 0
    &&& d.verified_bytes == 0
    &&& d.peers.len() == 0
    &&& d.manifest is None
    &&& !d.encrypted
}

/// A new download holds what it is given and nothing else.
pub proof fn law_new_download(
    merkle_root: String,
    file_name: String,
    file_size: u64,
    tmp_path: String,
    dst_path: String,
    now: u64,
    out: DlState,
)
    requires
        call_ensures(
            DlState::new_at,
            (merkle_root, file_name, file_size, tmp_path, dst_path, now),
            out,
        ) || call_ensures(
            DlState::new,
            (merkle_root, file_name, file_size, tmp_path, dst_path),
            out,
        ),
    ensures
        newly_made(out@, merkle_root@, file_name@, file_size, tmp_path@, dst_path@),
        call_ensures(
            DlState::new_at,
            (merkle_root, file_name, file_size, tmp_path, dst_path, now),
            out,
        ) ==> out.updated_at == now,
{
}

/// Whether each chunk carries the hash that stands at its position in a list, as far as the list
/// reaches, and no hash beyond it.
pub open spec fn hashed_by(chunks: Seq<Chunk<Option<Seq<char>>>>, list: Seq<Seq<char>>) -> bool {
    forall|i: int|
        0 <= i < chunks.len() ==> (#[trigger] chunks[i]).hash == if i < list.len() {
            Some(list[i])
        } else {
            None
        }
}

/// The hashes that are given, or none at all.
pub open spec fn given(hashes: Option<&[String]>) -> Seq<Seq<char>> {
    match hashes {
        Some(list) => Seq::new(list@.len(), |i: int| list@[i]@),
        None => Seq::empty(),
    }
}

/// Laying out the chunks cuts up the file and gives each chunk the hash at its position. Where
/// there are as many hashes as chunks, the hashes of the chunks are those given, in order.
pub proof fn law_layout_takes_hashes(s: &mut DlState, hashes: Option<&[String]>)
    requires
        call_ensures(DlState::init_chunks, (s, hashes), ()),
    ensures
        relations::cut_up(final(s)@.chunks, old(s)@.file_size as int),
        hashed_by(final(s)@.chunks, given(hashes)),
        relations::same_but_layout(old(s)@, final(s)@),
        final(s)@.manifest == old(s)@.manifest,
        given(hashes).len() == final(s)@.chunks.len() ==> forall|i: int|
            0 <= i < given(hashes).len() ==> (#[trigger] final(s)@.chunks[i]).hash == Some(
                given(hashes)[i],
            ),
{
}

/// The chunks of every file can be laid out that is shorter than all of a `u64` by one chunk.
pub proof fn law_layout_can_be_made(s: &mut DlState, hashes: Option<&[String]>)
    requires
        old(s).file_size + 262144 <= u64::MAX,
    ensures
        call_requires(DlState::init_chunks, (s, hashes)),
{
}

/// A pending chunk that arrives is downloaded, and nothing else changes but the time; any other
/// arrival changes nothing.
pub proof fn law_arrival(s: &mut DlState, idx: u32, now: u64)
    requires
        call_ensures(DlState::mark_downloaded_at, (s, idx, now), ()) || call_ensures(
            DlState::mark_downloaded,
            (s, idx),
            (),
        ),
    ensures
        idx < old(s)@.chunks.len() && old(s)@.chunks[idx as int].state == ChunkState::Pending ==> {
            &&& relations::moved(old(s)@, final(s)@, idx, ChunkState::Downloaded)
            &&& final(s)@.verified_bytes == old(s)@.verified_bytes
            &&& call_ensures(DlState::mark_downloaded_at, (s, idx, now), ())
                ==> final(s)@.updated_at == now
        },
        idx >= old(s)@.chunks.len() || old(s)@.chunks[idx as int].state != ChunkState::Pending
            ==> final(s)@ == old(s)@,
{
}

/// A chunk that is found good is verified and its bytes are counted, unless it was verified before;
/// nothing else changes but the time.
pub proof fn law_found_good(s: &mut DlState, idx: u32, now: u64)
    requires
        call_ensures(DlState::mark_verified_at, (s, idx, now), ()) || call_ensures(
            DlState::mark_verified,
            (s, idx),
            (),
        ),
    ensures
        idx < old(s)@.chunks.len() && old(s)@.chunks[idx as int].state != ChunkState::Verified ==> {
            &&& relations::moved(old(s)@, final(s)@, idx, ChunkState::Verified)
            &&& final(s)@.verified_bytes == old(s)@.verified_bytes
                + old(s)@.chunks[idx as int].size
            &&& call_ensures(DlState::mark_verified_at, (s, idx, now), ())
                ==> final(s)@.updated_at == now
        },
        idx >= old(s)@.chunks.len() || old(s)@.chunks[idx as int].state == ChunkState::Verified
            ==> final(s)@ == old(s)@,
{
}

/// A chunk can be found good wherever its bytes can be counted within a `u64`.
pub proof fn law_can_be_found_good(s: &mut DlState, idx: u32, now: u64)
    requires
        idx < old(s)@.chunks.len() ==> old(s)@.verified_bytes + old(s)@.chunks[idx as int].size
            <= u64::MAX,
    ensures
        call_requires(DlState::mark_verified, (s, idx)),
        call_requires(DlState::mark_verified_at, (s, idx, now)),
{
}

/// A chunk that is no good has failed, whatever state it was in; the bytes of a verified one are no
/// longer counted, as far as there are any; nothing else changes but the time.
pub proof fn law_found_bad(s: &mut DlState, idx: u32, now: u64)
    requires
        call_ensures(DlState::mark_failed_at, (s, idx, now), ()) || call_ensures(
            DlState::mark_failed,
            (s, idx),
            (),
        ),
    ensures
        idx < old(s)@.chunks.len() ==> {
            let size = old(s)@.chunks[idx as int].size;
            &&& relations::moved(old(s)@, final(s)@, idx, ChunkState::Failed)
            &&& old(s)@.chunks[idx as int].state != ChunkState::Verified
                ==> final(s)@.verified_bytes == old(s)@.verified_bytes
            &&& old(s)@.chunks[idx as int].state == ChunkState::Verified && size
                <= old(s)@.verified_bytes ==> final(s)@.verified_bytes + size
                == old(s)@.verified_bytes
            &&& old(s)@.chunks[idx as int].state == ChunkState::Verified && size
                > old(s)@.verified_bytes ==> final(s)@.verified_bytes == 0
            &&& call_ensures(DlState::mark_failed_at, (s, idx, now), ()) ==> final(s)@.updated_at
                == now
        },
        idx >= old(s)@.chunks.len() ==> final(s)@ == old(s)@,
{
}

/// The chunks that are still to be fetched are the pending and the failed ones, in order.
pub proof fn law_pending_are_listed(s: &DlState, out: Vec<u32>)
    requires
        call_ensures(DlState::pending_chunks, (s,), out),
    ensures
        relations::lists(
            out@,
            s@.chunks,
            |c: Chunk<Option<Seq<char>>>|
                c.state == ChunkState::Pending || c.state == ChunkState::Failed,
            |c: Chunk<Option<Seq<char>>>| c.idx,
        ),
{
    relations::lemma_indices_list(
        s@.chunks,
        download::to_fetch(),
        |c: Chunk<Option<Seq<char>>>|
            c.state == ChunkState::Pending || c.state == ChunkState::Failed,
    );
}

/// The chunks that are still to be checked are those that are downloaded, in order.
pub proof fn law_unverified_are_listed(s: &DlState, out: Vec<u32>)
    requires
        call_ensures(DlState::unverified_chunks, (s,), out),
    ensures
        relations::lists(
            out@,
            s@.chunks,
            |c: Chunk<Option<Seq<char>>>| c.state == ChunkState::Downloaded,
            |c: Chunk<Option<Seq<char>>>| c.idx,
        ),
{
    relations::lemma_indices_list(
        s@.chunks,
        download::in_state(ChunkState::Downloaded),
        |c: Chunk<Option<Seq<char>>>| c.state == ChunkState::Downloaded,
    );
}

/// A download is complete exactly where it has chunks and every one of them is verified.
pub proof fn law_complete_is_all_verified(s: &DlState, out: bool)
    requires
        call_ensures(DlState::is_complete, (s,), out),
    ensures
        out <==> s@.chunks.len() > 0 && forall|i: int|
            0 <= i < s@.chunks.len() ==> (#[trigger] s@.chunks[i]).state == ChunkState::Verified,
{
}

/// The progress of a download is the verified part of its file; an empty file is done.
pub proof fn law_progress_is_verified_part(s: &DlState, out: (u64, u64))
    requires
        call_ensures(DlState::progress_parts, (s,), out),
    ensures
        s.file_size > 0 ==> out.0 == s.verified_bytes && out.1 == s.file_size,
        s.file_size == 0 ==> out.0 == 1 && out.1 == 1,
{
}

/// A peer is listed behind the others, unless it is listed already.
pub proof fn law_peer_is_listed(s: &mut DlState, peer: String, now: u64)
    ensures
        call_ensures(DlState::add_peer_at, (s, peer, now), ()) ==> relations::listing(
            old(s)@,
            final(s)@,
            seq![peer@],
            now,
        ),
        call_ensures(DlState::add_peer, (s, peer), ()) ==> exists|time: u64|
            #[trigger] relations::listing(old(s)@, final(s)@, seq![peer@], time),
{
    relations::lemma_listing_one(old(s)@, peer@, now);
    if call_ensures(DlState::add_peer, (s, peer), ()) {
        let time = choose|time: u64| final(s)@ == #[trigger] old(s)@.with_peer(peer@, time);
        relations::lemma_listing_one(old(s)@, peer@, time);
    }
}

/// Peers are listed behind the others, in their order, each unless it is listed already.
pub proof fn law_peers_are_listed(s: &mut DlState, peers: &[String], now: u64)
    ensures
        ({
            let given = Seq::new(peers@.len(), |i: int| peers@[i]@);
            &&& call_ensures(p2p_download_recovery::add_providers_at, (s, peers, now), ())
                ==> relations::listing(old(s)@, final(s)@, given, now)
            &&& call_ensures(p2p_download_recovery::add_providers, (s, peers), ())
                ==> exists|time: u64|
                #[trigger] relations::listing(old(s)@, final(s)@, given, time)
        }),
{
    let given = Seq::new(peers@.len(), |i: int| peers@[i]@);
    assert(given =~= text::texts(peers@));
    relations::lemma_listing(old(s)@, given, now);
    if call_ensures(p2p_download_recovery::add_providers, (s, peers), ()) {
        let n = peers@.len() as int;
        let time = choose|time: u64|
            final(s)@ == #[trigger] old(s)@.with_peers(text::texts(peers@), n, time);
        relations::lemma_listing(old(s)@, given, time);
    }
}

/// The name of a state file is a dot, the name of the partial file, or `dl` where it has none, and
/// the ending of state files.
pub proof fn law_state_file_name(name: Option<&str>, out: String)
    requires
        call_ensures(p2p_download_recovery::meta_file_name, (name,), out),
    ensures
        name matches Some(n) ==> out@ == "."@ + n@ + ".chiral.p2p.meta.json"@,
        name is None ==> out@ == "."@ + "dl"@ + ".chiral.p2p.meta.json"@,
{
}

/// The state file stands beside the partial file, under the name that `meta_file_name` gives; it is
/// written first under the extension `tmp`.
pub proof fn law_state_file_place(
    tmp: &str,
    path: String,
    staging: String,
    name: Option<&str>,
    meta: String,
)
    requires
        call_ensures(p2p_download_recovery::meta_path, (tmp,), path),
        call_ensures(p2p_download_recovery::staging_path, (tmp,), staging),
        call_ensures(p2p_download_recovery::meta_file_name, (name,), meta),
        paths::path_file_name(tmp@) == (match name {
            Some(n) => Some(n@),
            None => None,
        }),
    ensures
        path@ == paths::path_with_file_name(tmp@, meta@),
        staging@ == paths::path_with_extension(path@, "tmp"@),
{
}

/// A file is a state file exactly where its name is something followed by the ending of state
/// files.
pub proof fn law_state_file_by_name(name: &str, out: bool)
    requires
        call_ensures(p2p_download_recovery::is_meta_file, (name,), out),
    ensures
        out <==> exists|stem: Seq<char>| name@ == #[trigger] (stem + ".chiral.p2p.meta.json"@),
{
    let tail = ".chiral.p2p.meta.json"@;
    if out {
        let stem = name@.take(name@.len() - tail.len());
        assert(name@ =~= stem + tail);
    }
    if exists|stem: Seq<char>| name@ == #[trigger] (stem + tail) {
        let stem = choose|stem: Seq<char>| name@ == #[trigger] (stem + tail);
        assert(name@.skip(name@.len() - tail.len()) =~= tail);
    }
}

/// A state of a later version than the first is refused by its number; any other is taken as it is.
pub proof fn law_later_version_is_refused(state: DlState, out: Result<DlState, String>)
    requires
        call_ensures(p2p_download_recovery::check_version, (state,), out),
    ensures
        state.version <= 1 ==> (out matches Ok(same) && same == state),
        state.version > 1 ==> (out matches Err(message) && message@ == "version "@
            + text::decimal(state.version as nat) + " unsupported"@),
{
}

/// A scan resumes what is not complete, removes the state of what is, and ignores what it cannot
/// read.
pub proof fn law_scan_resumes_unfinished(
    loaded: Result<DlState, String>,
    done: bool,
    out: ScanAction,
)
    requires
        call_ensures(p2p_download_recovery::scan_entry, (loaded,), out),
        loaded matches Ok(state) ==> call_ensures(DlState::is_complete, (&state,), done),
    ensures
        loaded matches Ok(state) ==> if done {
            out is RemoveMeta
        } else {
            out matches ScanAction::Resume(same) && same == state
        },
        loaded is Err ==> out is Ignore,
{
}

/// A chunk with a hash is read from where it starts, in full; one without is not read.
pub proof fn law_chunk_is_read_in_full(chunk: &ChunkMeta, out: Option<(u64, u32)>)
    requires
        call_ensures(p2p_download_recovery::read_range, (chunk,), out),
    ensures
        chunk.hash is Some ==> (out matches Some(range) && range.0 == chunk.offset && range.1
            == chunk.size),
        chunk.hash is None ==> out is None,
{
}

/// A chunk is good where it has no hash, or where the bytes that were read have a SHA-256 whose
/// hexadecimal form is the hash but for the case of its letters. What could not be opened or
/// reached is an error that says so; what is too short or was not read is no good.
pub proof fn law_chunk_is_judged_by_hash(
    chunk: &ChunkMeta,
    read: &ChunkRead,
    out: Result<bool, String>,
)
    requires
        call_ensures(p2p_download_recovery::verify_chunk, (chunk, read), out),
    ensures
        chunk.hash is None ==> (out matches Ok(good) && good),
        chunk.hash matches Some(hash) ==> match *read {
            ChunkRead::Data(data) => out matches Ok(good) && good == text::same_ignoring_case(
                digest::hex_text(digest::sha256_digest(data@)),
                hash@,
            ),
            ChunkRead::OpenFailed(e) => out matches Err(message) && message@ == "open failed: "@
                + e@,
            ChunkRead::SeekFailed(e) => out matches Err(message) && message@ == "seek chunk "@
                + text::decimal(chunk.idx as nat) + " failed: "@ + e@,
            ChunkRead::Short => out matches Ok(good) && !good,
            ChunkRead::NotRead => out matches Ok(good) && !good,
        },
{
}

/// Every chunk can be judged by what was read, if as many bytes were read as it has; and also where
/// reading it failed, or where it has no hash and was not read.
pub proof fn law_chunk_can_be_judged(chunk: &ChunkMeta, read: &ChunkRead)
    requires
        *read matches ChunkRead::Data(data) ==> data@.len() == chunk.size,
        *read is NotRead ==> chunk.hash is None,
    ensures
        call_requires(p2p_download_recovery::verify_chunk, (chunk, read)),
{
}

/// The counts of a check start at nothing.
pub proof fn law_counts_start_at_zero(out: VerifyResult)
    requires
        call_ensures(<VerifyResult as Default>::default, (), out),
    ensures
        out.total == 0,
        out.verified == 0,
        out.failed == 0,
        out.skipped == 0,
{
}

/// The test for chunks that are to be checked: those that should be in the partial file and whose
/// hash is known.
pub open spec fn asked_for() -> spec_fn(Chunk<Option<Seq<char>>>) -> bool {
    |c: Chunk<Option<Seq<char>>>|
        (c.state == ChunkState::Downloaded || c.state == ChunkState::Verified) && c.hash is Some
}

/// The chunks to check are those that are downloaded or verified and have a hash, in order.
pub proof fn law_chunks_asked_for(s: &DlState, out: Vec<ChunkMeta>)
    requires
        call_ensures(p2p_download_recovery::chunks_to_check, (s,), out),
    ensures
        relations::lists(
            out@.map_values(|c: ChunkMeta| c@),
            s@.chunks,
            asked_for(),
            |c: Chunk<Option<Seq<char>>>| c,
        ),
{
    assert(p2p_download_recovery::checkable() =~= asked_for());
    relations::lemma_filter_lists(s@.chunks, asked_for());
    assert(out@.map_values(|c: ChunkMeta| c@) =~= p2p_download_recovery::chunk_views(out@));
}

/// Whether a verdict says that a chunk is good.
pub open spec fn says_good(verdict: Result<bool, String>) -> bool {
    verdict == Ok::<bool, String>(true)
}

/// Whether a check has settled a download by the verdicts on its chunks: of the chunks that were
/// asked for, each is verified where its verdict says so and has failed otherwise; the others stand
/// as they stood. The verified bytes are those of the verified chunks if they were before. The time
/// is `now` where a chunk has changed, and else as it was.
pub open spec fn settled_by(
    before: State,
    after: State,
    verdicts: Seq<Result<bool, String>>,
    now: u64,
) -> bool {
    &&& relations::same_but_chunks(before, after)
    &&& forall|i: int|
        0 <= i < before.chunks.len() ==> (#[trigger] after.chunks[i]).state == if asked_for()(
            before.chunks[i],
        ) {
            if says_good(verdicts[relations::count(before.chunks, asked_for(), i)]) {
                ChunkState::Verified
            } else {
                ChunkState::Failed
            }
        } else {
            before.chunks[i].state
        }
    &&& before.accounted() ==> after.accounted()
    &&& after.updated_at == if after.chunks == before.chunks {
        before.updated_at
    } else {
        now
    }
}

/// Whether the counts of a check are those of its verdicts: how many chunks there are, how many of
/// the verdicts are good, how many are not, and how many chunks are present but have no hash.
pub open spec fn counted_by(
    before: State,
    verdicts: Seq<Result<bool, String>>,
    out: VerifyResult,
) -> bool {
    &&& out.total == before.chunks.len()
    &&& out.verified == relations::count(
        verdicts,
        |v: Result<bool, String>| says_good(v),
        verdicts.len() as int,
    )
    &&& out.failed == relations::count(
        verdicts,
        |v: Result<bool, String>| !says_good(v),
        verdicts.len() as int,
    )
    &&& out.skipped == relations::count(
        before.chunks,
        |c: Chunk<Option<Seq<char>>>|
            (c.state == ChunkState::Downloaded || c.state == ChunkState::Verified)
                && c.hash is None,
        before.chunks.len() as int,
    )
}

/// When a check has changed the time: only where it has changed a chunk, and always then.
proof fn lemma_checked_time(d: State, pass: Seq<bool>, n: int, now: u64)
    requires
        d.indexed(),
        pass.len() == p2p_download_recovery::check_indices(d).len(),
        0 <= n <= pass.len(),
    ensures
        ({
            let idxs = p2p_download_recovery::check_indices(d);
            let after = p2p_download_recovery::checked(d, idxs, pass, n, now);
            ||| after.updated_at == d.updated_at && after.chunks == d.chunks
            ||| after.updated_at == now && exists|k: int|
                0 <= k < n && after.chunks[#[trigger] idxs[k] as int] != d.chunks[idxs[k] as int]
        }),
    decreases n,
{
    let idxs = p2p_download_recovery::check_indices(d);
    download::lemma_indices_increase(d.chunks, p2p_download_recovery::checkable());
    if n > 0 {
        lemma_checked_time(d, pass, n - 1, now);
        laws::lemma_checked_chunks(d, pass, n - 1, now);
        laws::lemma_checked_chunks(d, pass, n, now);
        let before = p2p_download_recovery::checked(d, idxs, pass, n - 1, now);
        let after = p2p_download_recovery::checked(d, idxs, pass, n, now);
        let idx = idxs[n - 1];
        assert(idxs.contains(idx));
        download::lemma_indices_of_indexed(d, p2p_download_recovery::checkable(), idx);
        assert(!idxs.take(n - 1).contains(idx));
        assert(before.chunks[idx as int] == d.chunks[idx as int]);
        if after != before {
            assert(after.chunks[idx as int] != d.chunks[idx as int]);
            assert(after.chunks[idxs[n - 1] as int] != d.chunks[idxs[n - 1] as int]);
        } else if before.chunks != d.chunks || before.updated_at != d.updated_at {
            let k = choose|k: int|
                0 <= k < n - 1 && before.chunks[#[trigger] idxs[k] as int]
                    != d.chunks[idxs[k] as int];
            assert(after.chunks[idxs[k] as int] != d.chunks[idxs[k] as int]);
        }
    }
}

/// What a check with the partial file there does.
proof fn lemma_check_settles(d: State, verdicts: Seq<Result<bool, String>>, now: u64)
    requires
        d.indexed(),
        verdicts.len() == relations::count(d.chunks, asked_for(), d.chunks.len() as int),
    ensures
        settled_by(
            d,
            p2p_download_recovery::all_checked(
                d,
                true,
                p2p_download_recovery::passes(verdicts),
                now,
            ),
            verdicts,
            now,
        ),
{
    let pass = p2p_download_recovery::passes(verdicts);
    let after = p2p_download_recovery::all_checked(d, true, pass, now);
    let idxs = p2p_download_recovery::check_indices(d);
    let n = pass.len() as int;
    assert(p2p_download_recovery::checkable() =~= asked_for());
    relations::lemma_indices_list(d.chunks, p2p_download_recovery::checkable(), asked_for());
    laws::law_check_settles_chunks(d, pass, now);
    lemma_checked_time(d, pass, n, now);
    lemma_checked_frame(d, idxs, pass, n, now);
    if d.accounted() {
        laws::law_check_keeps_count(d, true, pass, now);
    }
    assert forall|i: int| 0 <= i < d.chunks.len() implies {
        &&& (#[trigger] after.chunks[i]).state == if asked_for()(d.chunks[i]) {
            if says_good(verdicts[relations::count(d.chunks, asked_for(), i)]) {
                ChunkState::Verified
            } else {
                ChunkState::Failed
            }
        } else {
            d.chunks[i].state
        }
        &&& after.chunks[i].idx == d.chunks[i].idx
        &&& after.chunks[i].offset == d.chunks[i].offset
        &&& after.chunks[i].size == d.chunks[i].size
        &&& after.chunks[i].hash == d.chunks[i].hash
    } by {
        if asked_for()(d.chunks[i]) {
            let k = relations::count(d.chunks, asked_for(), i);
            assert(idxs[k] == i);
            assert(pass[k] == says_good(verdicts[k]));
            assert(after.chunks[idxs[k] as int].state == if pass[k] {
                ChunkState::Verified
            } else {
                ChunkState::Failed
            });
        }
    }
}

/// A check changes nothing but chunks, the count of verified bytes and the time.
proof fn lemma_checked_frame(d: State, idxs: Seq<u32>, pass: Seq<bool>, n: int, now: u64)
    ensures
        ({
            let after = p2p_download_recovery::checked(d, idxs, pass, n, now);
            after == (State {
                chunks: after.chunks,
                verified_bytes: after.verified_bytes,
                updated_at: after.updated_at,
                ..d
            })
        }),
    decreases n,
{
    if n > 0 {
        lemma_checked_frame(d, idxs, pass, n - 1, now);
    }
}

/// The counts of a check with the partial file there.
proof fn lemma_check_counts(d: State, verdicts: Seq<Result<bool, String>>)
    requires
        d.chunks.len() <= usize::MAX,
        verdicts.len() == relations::count(d.chunks, asked_for(), d.chunks.len() as int),
    ensures
        counted_by(
            d,
            verdicts,
            p2p_download_recovery::check_counts(
                d,
                true,
                p2p_download_recovery::passes(verdicts),
            ),
        ),
{
    let pass = p2p_download_recovery::passes(verdicts);
    let n = verdicts.len() as int;
    let bare = |c: Chunk<Option<Seq<char>>>|
        (c.state == ChunkState::Downloaded || c.state == ChunkState::Verified) && c.hash is None;
    relations::lemma_filter_lists(d.chunks, p2p_download_recovery::present());
    lemma_count_verdicts(verdicts, n);
    lemma_count_split(d.chunks, d.chunks.len() as int);
    relations::lemma_count_bounds(d.chunks, bare, 0, d.chunks.len() as int);
    relations::lemma_count_bounds(d.chunks, asked_for(), 0, d.chunks.len() as int);
    relations::lemma_count_bounds(
        verdicts,
        |v: Result<bool, String>| says_good(v),
        0,
        n,
    );
}

/// Verdicts are good or they are not.
proof fn lemma_count_verdicts(verdicts: Seq<Result<bool, String>>, n: int)
    requires
        0 <= n <= verdicts.len(),
    ensures
        ({
            let good = relations::count(verdicts, |v: Result<bool, String>| says_good(v), n);
            let bad = relations::count(verdicts, |v: Result<bool, String>| !says_good(v), n);
            &&& good == download::count_true(p2p_download_recovery::passes(verdicts), n)
            &&& good + bad == n
        }),
    decreases n,
{
    if n > 0 {
        lemma_count_verdicts(verdicts, n - 1);
        assert(p2p_download_recovery::passes(verdicts)[n - 1] == says_good(verdicts[n - 1]));
    }
}

/// Of the chunks that are present, each has a hash or has none.
proof fn lemma_count_split(chunks: Seq<Chunk<Option<Seq<char>>>>, n: int)
    requires
        0 <= n <= chunks.len(),
    ensures
        relations::count(chunks, p2p_download_recovery::present(), n) == relations::count(
            chunks,
            asked_for(),
            n,
        ) + relations::count(
            chunks,
            |c: Chunk<Option<Seq<char>>>|
                (c.state == ChunkState::Downloaded || c.state == ChunkState::Verified)
                    && c.hash is None,
            n,
        ),
    decreases n,
{
    if n > 0 {
        lemma_count_split(chunks, n - 1);
    }
}

/// Whether a check has settled a download by the verdicts on its chunks, whatever indices they
/// carry: where chunks that were asked for carry the index of a position, the verdict on the last
/// of them settles the chunk at that position; where none does, that chunk stays as it was. As many
/// bytes are counted beyond those of the verified chunks as before. The time is `now` unless
/// nothing changed.
pub open spec fn settled_at_large(
    before: State,
    after: State,
    verdicts: Seq<Result<bool, String>>,
    now: u64,
) -> bool {
    &&& relations::same_but_chunks(before, after)
    &&& forall|p: int, i: int|
        0 <= p < before.chunks.len() && #[trigger] relations::last_naming(
            before.chunks,
            asked_for(),
            p,
            i,
        ) ==> after.chunks[p].state == if says_good(
            verdicts[relations::count(before.chunks, asked_for(), i)],
        ) {
            ChunkState::Verified
        } else {
            ChunkState::Failed
        }
    &&& forall|p: int|
        0 <= p < before.chunks.len() && #[trigger] relations::none_naming(
            before.chunks,
            asked_for(),
            p,
        ) ==> after.chunks[p].state == before.chunks[p].state
    &&& relations::excess(before) >= 0 ==> relations::excess(after) == relations::excess(before)
    &&& after.updated_at == now || after == before
}

/// What checking the first `n` of some indices has done: the last that names a position settles the
/// chunk there.
proof fn lemma_checked_at_large(d: State, idxs: Seq<u32>, pass: Seq<bool>, n: int, now: u64)
    requires
        0 <= n <= idxs.len(),
    ensures
        ({
            let after = p2p_download_recovery::checked(d, idxs, pass, n, now);
            &&& relations::same_but_chunks(d, after)
            &&& forall|p: int, k: int|
                0 <= p < d.chunks.len() && #[trigger] relations::last_among(idxs, n, p, k)
                    ==> after.chunks[p].state == if pass[k] {
                    ChunkState::Verified
                } else {
                    ChunkState::Failed
                }
            &&& forall|p: int|
                0 <= p < d.chunks.len() && #[trigger] relations::none_among(idxs, n, p)
                    ==> after.chunks[p].state == d.chunks[p].state
            &&& after.updated_at == now || after == d
        }),
    decreases n,
{
    if n > 0 {
        let before = p2p_download_recovery::checked(d, idxs, pass, n - 1, now);
        let after = p2p_download_recovery::checked(d, idxs, pass, n, now);
        let idx = idxs[n - 1];
        lemma_checked_at_large(d, idxs, pass, n - 1, now);
        assert forall|p: int, k: int|
            0 <= p < d.chunks.len() && #[trigger] relations::last_among(idxs, n, p, k) implies
            after.chunks[p].state == if pass[k] {
            ChunkState::Verified
        } else {
            ChunkState::Failed
        } by {
            if k < n - 1 {
                assert(idx != p);
                assert(relations::last_among(idxs, n - 1, p, k));
            }
        }
        assert forall|p: int|
            0 <= p < d.chunks.len() && #[trigger] relations::none_among(idxs, n, p) implies
            after.chunks[p].state == d.chunks[p].state by {
            assert(idx != p);
            assert(relations::none_among(idxs, n - 1, p));
        }
    }
}

/// Checking leaves as many bytes counted beyond those of the verified chunks as before.
proof fn lemma_checked_keeps_excess(d: State, idxs: Seq<u32>, pass: Seq<bool>, n: int, now: u64)
    requires
        relations::excess(d) >= 0,
    ensures
        relations::excess(p2p_download_recovery::checked(d, idxs, pass, n, now))
            == relations::excess(d),
    decreases n,
{
    if n > 0 {
        let before = p2p_download_recovery::checked(d, idxs, pass, n - 1, now);
        lemma_checked_keeps_excess(d, idxs, pass, n - 1, now);
        relations::lemma_steps_keep_excess(before, idxs[n - 1], now);
    }
}

/// What a check with the partial file there does, whatever indices the chunks carry.
proof fn lemma_check_settles_at_large(d: State, verdicts: Seq<Result<bool, String>>, now: u64)
    requires
        verdicts.len() == relations::count(d.chunks, asked_for(), d.chunks.len() as int),
    ensures
        settled_at_large(
            d,
            p2p_download_recovery::all_checked(
                d,
                true,
                p2p_download_recovery::passes(verdicts),
                now,
            ),
            verdicts,
            now,
        ),
{
    let pass = p2p_download_recovery::passes(verdicts);
    let after = p2p_download_recovery::all_checked(d, true, pass, now);
    let idxs = p2p_download_recovery::check_indices(d);
    let n = pass.len() as int;
    assert(p2p_download_recovery::checkable() =~= asked_for());
    relations::lemma_indices_list(d.chunks, p2p_download_recovery::checkable(), asked_for());
    lemma_checked_at_large(d, idxs, pass, n, now);
    if relations::excess(d) >= 0 {
        lemma_checked_keeps_excess(d, idxs, pass, n, now);
    }
    assert forall|p: int, i: int|
        0 <= p < d.chunks.len() && #[trigger] relations::last_naming(
            d.chunks,
            asked_for(),
            p,
            i,
        ) implies after.chunks[p].state == if says_good(
        verdicts[relations::count(d.chunks, asked_for(), i)],
    ) {
        ChunkState::Verified
    } else {
        ChunkState::Failed
    } by {
        let k = relations::count(d.chunks, asked_for(), i);
        relations::lemma_last_is_listed(d.chunks, asked_for(), p, i);
        assert(relations::last_among(idxs, n, p, k));
        assert(pass[k] == says_good(verdicts[k]));
    }
    assert forall|p: int|
        0 <= p < d.chunks.len() && #[trigger] relations::none_naming(
            d.chunks,
            asked_for(),
            p,
        ) implies after.chunks[p].state == d.chunks[p].state by {
        relations::lemma_none_is_listed(d.chunks, asked_for(), p);
        assert(relations::none_among(idxs, n, p));
    }
}

/// A check with the partial file there settles the chunks that are downloaded or verified and have
/// a hash by their verdicts, and counts them. It gives a result whatever the verdicts.
pub proof fn law_check_settles(
    s: &mut DlState,
    verdicts: &[Result<bool, String>],
    now: u64,
    out: Result<VerifyResult, String>,
)
    requires
        verdicts@.len() == relations::count(
            old(s)@.chunks,
            asked_for(),
            old(s)@.chunks.len() as int,
        ),
    ensures
        call_ensures(p2p_download_recovery::verify_all_at, (s, true, verdicts, now), out) ==> {
            &&& settled_at_large(old(s)@, final(s)@, verdicts@, now)
            &&& old(s)@.indexed() ==> settled_by(old(s)@, final(s)@, verdicts@, now)
            &&& out matches Ok(counts) && counted_by(old(s)@, verdicts@, counts)
        },
        call_ensures(p2p_download_recovery::verify_all, (s, true, verdicts), out) ==> {
            &&& exists|time: u64|
                #[trigger] settled_at_large(old(s)@, final(s)@, verdicts@, time)
            &&& old(s)@.indexed() ==> exists|time: u64|
                #[trigger] settled_by(old(s)@, final(s)@, verdicts@, time)
            &&& out matches Ok(counts) && counted_by(old(s)@, verdicts@, counts)
        },
{
    assert(old(s)@.chunks.len() == old(s).chunks@.len());
    assert(old(s).chunks.len() <= usize::MAX);
    lemma_check_counts(old(s)@, verdicts@);
    lemma_check_settles_at_large(old(s)@, verdicts@, now);
    if old(s)@.indexed() {
        lemma_check_settles(old(s)@, verdicts@, now);
    }
    if call_ensures(p2p_download_recovery::verify_all, (s, true, verdicts), out) {
        let time = choose|time: u64|
            final(s)@ == #[trigger] p2p_download_recovery::all_checked(
                old(s)@,
                true,
                p2p_download_recovery::passes(verdicts@),
                time,
            );
        lemma_check_settles_at_large(old(s)@, verdicts@, time);
        if old(s)@.indexed() {
            lemma_check_settles(old(s)@, verdicts@, time);
        }
    }
}

/// A check with the partial file there judges chunks by their bytes: each chunk that was downloaded
/// or verified and has a hash ends up verified where the bytes that were read of it have a SHA-256
/// whose hexadecimal form is the hash but for the case of letters, and has failed otherwise; every
/// other chunk stands as it stood.
pub proof fn law_check_judges_by_bytes(
    s: &mut DlState,
    reads: Seq<ChunkRead>,
    verdicts: &[Result<bool, String>],
    now: u64,
    out: Result<VerifyResult, String>,
)
    requires
        call_ensures(p2p_download_recovery::verify_all_at, (s, true, verdicts, now), out)
            || call_ensures(p2p_download_recovery::verify_all, (s, true, verdicts), out),
        old(s)@.indexed(),
        verdicts@.len() == relations::count(
            old(s)@.chunks,
            asked_for(),
            old(s)@.chunks.len() as int,
        ),
        forall|i: int|
            0 <= i < old(s)@.chunks.len() && asked_for()(#[trigger] old(s)@.chunks[i])
                ==> call_ensures(
                p2p_download_recovery::verify_chunk,
                (
                    &old(s).chunks@[i],
                    &reads[relations::count(old(s)@.chunks, asked_for(), i)],
                ),
                verdicts@[relations::count(old(s)@.chunks, asked_for(), i)],
            ),
    ensures
        forall|i: int|
            0 <= i < old(s)@.chunks.len() ==> {
                let c = old(s)@.chunks[i];
                let read = reads[relations::count(old(s)@.chunks, asked_for(), i)];
                (#[trigger] final(s)@.chunks[i]).state == if (c.state == ChunkState::Downloaded
                    || c.state == ChunkState::Verified) && c.hash is Some {
                    if read matches ChunkRead::Data(data) && text::same_ignoring_case(
                        digest::hex_text(digest::sha256_digest(data@)),
                        c.hash->0,
                    ) {
                        ChunkState::Verified
                    } else {
                        ChunkState::Failed
                    }
                } else {
                    c.state
                }
            },
{
    law_check_settles(s, verdicts, now, out);
    assert forall|i: int| 0 <= i < old(s)@.chunks.len() implies {
        let c = old(s)@.chunks[i];
        let read = reads[relations::count(old(s)@.chunks, asked_for(), i)];
        (#[trigger] final(s)@.chunks[i]).state == if (c.state == ChunkState::Downloaded || c.state
            == ChunkState::Verified) && c.hash is Some {
            if read matches ChunkRead::Data(data) && text::same_ignoring_case(
                digest::hex_text(digest::sha256_digest(data@)),
                c.hash->0,
            ) {
                ChunkState::Verified
            } else {
                ChunkState::Failed
            }
        } else {
            c.state
        }
    } by {
        let c = old(s)@.chunks[i];
        assert(c == old(s).chunks@[i]@);
        if asked_for()(c) {
            let k = relations::count(old(s)@.chunks, asked_for(), i);
            law_chunk_is_judged_by_hash(&old(s).chunks@[i], &reads[k], verdicts@[k]);
        }
    }
}

/// A check without the partial file changes nothing and skips every chunk.
pub proof fn law_check_without_file(
    s: &mut DlState,
    verdicts: &[Result<bool, String>],
    now: u64,
    out: Result<VerifyResult, String>,
)
    requires
        call_ensures(p2p_download_recovery::verify_all_at, (s, false, verdicts, now), out)
            || call_ensures(p2p_download_recovery::verify_all, (s, false, verdicts), out),
    ensures
        final(s)@ == old(s)@,
        out matches Ok(counts) && {
            &&& counts.total == old(s).chunks@.len()
            &&& counts.verified == 0
            &&& counts.failed == 0
            &&& counts.skipped == old(s).chunks@.len()
        },
{
    assert(old(s)@.chunks.len() == old(s).chunks@.len());
    assert(old(s).chunks.len() <= usize::MAX);
}

/// A check can be made wherever the verdicts answer what was asked and are found to fit, and
/// without the partial file always.
pub proof fn law_check_can_be_made(
    s: &mut DlState,
    tmp_exists: bool,
    verdicts: &[Result<bool, String>],
    now: u64,
)
    requires
        tmp_exists ==> verdicts@.len() == relations::count(
            old(s)@.chunks,
            asked_for(),
            old(s)@.chunks.len() as int,
        ),
        tmp_exists ==> call_ensures(
            p2p_download_recovery::verdicts_fit,
            (&*old(s), verdicts),
            true,
        ),
    ensures
        call_requires(p2p_download_recovery::verify_all_at, (s, tmp_exists, verdicts, now)),
        call_requires(p2p_download_recovery::verify_all, (s, tmp_exists, verdicts)),
{
    assert(p2p_download_recovery::checkable() =~= asked_for());
    relations::lemma_indices_list(old(s)@.chunks, asked_for(), asked_for());
}

/// What checking the first `n` chunks counts is bounded by what was counted before and by the bytes
/// of all chunks.
proof fn lemma_checked_bounded(d: State, idxs: Seq<u32>, pass: Seq<bool>, n: int, now: u64)
    requires
        d.verified_bytes >= 0,
    ensures
        relations::bounded(
            p2p_download_recovery::checked(d, idxs, pass, n, now),
            d.verified_bytes,
            relations::size_sum(d.chunks),
        ),
    decreases n,
{
    let size = relations::size_sum(d.chunks);
    if n > 0 {
        let before = p2p_download_recovery::checked(d, idxs, pass, n - 1, now);
        lemma_checked_bounded(d, idxs, pass, n - 1, now);
        relations::lemma_steps_bounded(before, d.verified_bytes, size, idxs[n - 1], now);
    } else {
        relations::lemma_verified_within_size(d.chunks);
    }
}

/// Verdicts are always found to fit where the bytes of all chunks can be counted on top of those
/// counted so far; and so they are of a sound download.
pub proof fn law_verdicts_fit(s: &DlState, verdicts: &[Result<bool, String>], out: bool)
    requires
        call_ensures(p2p_download_recovery::verdicts_fit, (s, verdicts), out),
    ensures
        s@.verified_bytes + relations::size_sum(s@.chunks) <= u64::MAX ==> out,
        s@.sound() ==> out,
{
    let d = s@;
    let pass = p2p_download_recovery::passes(verdicts@);
    let idxs = p2p_download_recovery::check_indices(d);
    if d.verified_bytes + relations::size_sum(d.chunks) <= u64::MAX {
        assert forall|n: int| 0 <= n <= pass.len() implies (
        #[trigger] p2p_download_recovery::checked(d, idxs, pass, n, d.updated_at)).verified_bytes
            <= u64::MAX by {
            lemma_checked_bounded(d, idxs, pass, n, d.updated_at);
            relations::lemma_verified_within_size(
                p2p_download_recovery::checked(d, idxs, pass, n, d.updated_at).chunks,
            );
        }
    }
    if d.sound() {
        laws::law_check_keeps_soundness(d, true, pass, d.updated_at);
    }
}

/// The bytes of those of the first `n` chunks that are downloaded, were asked for and are found
/// good.
pub open spec fn newly_good(d: State, verdicts: Seq<Result<bool, String>>, n: int) -> int
    decreases n,
{
    if n <= 0 {
        0
    } else {
        let c = d.chunks[n - 1];
        newly_good(d, verdicts, n - 1) + if asked_for()(c) && c.state == ChunkState::Downloaded
            && says_good(verdicts[relations::count(d.chunks, asked_for(), n - 1)]) {
            c.size as int
        } else {
            0
        }
    }
}

/// Counting further never lowers the bytes.
proof fn lemma_newly_good_grows(d: State, verdicts: Seq<Result<bool, String>>, n: int, m: int)
    requires
        0 <= n <= m,
    ensures
        newly_good(d, verdicts, n) <= newly_good(d, verdicts, m),
    decreases m,
{
    if m > n {
        lemma_newly_good_grows(d, verdicts, n, m - 1);
    }
}

/// What a check has counted when it has come to the chunk at position `i` is no more than was
/// counted before and the bytes of the newly good ones before that.
proof fn lemma_checked_up_to(d: State, verdicts: Seq<Result<bool, String>>, i: int, now: u64)
    requires
        d.indexed(),
        verdicts.len() == relations::count(d.chunks, asked_for(), d.chunks.len() as int),
        0 <= i <= d.chunks.len(),
    ensures
        ({
            let idxs = p2p_download_recovery::check_indices(d);
            let pass = p2p_download_recovery::passes(verdicts);
            let n = relations::count(d.chunks, asked_for(), i);
            p2p_download_recovery::checked(d, idxs, pass, n, now).verified_bytes <= (
            if d.verified_bytes > 0 {
                d.verified_bytes
            } else {
                0
            }) + newly_good(d, verdicts, i)
        }),
    decreases i,
{
    let idxs = p2p_download_recovery::check_indices(d);
    let pass = p2p_download_recovery::passes(verdicts);
    if i > 0 {
        lemma_checked_up_to(d, verdicts, i - 1, now);
        lemma_newly_good_grows(d, verdicts, 0, i - 1);
        assert(p2p_download_recovery::checkable() =~= asked_for());
        relations::lemma_indices_list(d.chunks, p2p_download_recovery::checkable(), asked_for());
        let k = relations::count(d.chunks, asked_for(), i - 1);
        relations::lemma_count_bounds(d.chunks, asked_for(), 0, i - 1);
        relations::lemma_count_bounds(d.chunks, asked_for(), i, d.chunks.len() as int);
        if asked_for()(d.chunks[i - 1]) {
            assert(idxs[k] == i - 1);
            laws::lemma_checked_chunks(d, pass, k, now);
            download::lemma_indices_increase(d.chunks, p2p_download_recovery::checkable());
            assert(!idxs.take(k).contains(idxs[k]));
            assert(pass[k] == says_good(verdicts[k]));
            let before = p2p_download_recovery::checked(d, idxs, pass, k, now);
            assert(before.chunks[i - 1] == d.chunks[i - 1]);
        }
    }
}

/// Verdicts are found to fit wherever the bytes of the chunks that they newly find good can be
/// counted on top of those counted so far.
pub proof fn law_newly_good_fit(s: &DlState, verdicts: &[Result<bool, String>], out: bool)
    requires
        call_ensures(p2p_download_recovery::verdicts_fit, (s, verdicts), out),
        verdicts@.len() == relations::count(s@.chunks, asked_for(), s@.chunks.len() as int),
        s@.indexed(),
        s@.verified_bytes + newly_good(s@, verdicts@, s@.chunks.len() as int) <= u64::MAX,
    ensures
        out,
{
    let d = s@;
    let pass = p2p_download_recovery::passes(verdicts@);
    let idxs = p2p_download_recovery::check_indices(d);
    let len = d.chunks.len() as int;
    assert(p2p_download_recovery::checkable() =~= asked_for());
    relations::lemma_indices_list(d.chunks, p2p_download_recovery::checkable(), asked_for());
    assert forall|n: int| 0 <= n <= pass.len() implies (#[trigger] p2p_download_recovery::checked(
        d,
        idxs,
        pass,
        n,
        d.updated_at,
    )).verified_bytes <= u64::MAX by {
        if n == pass.len() {
            lemma_checked_up_to(d, verdicts@, len, d.updated_at);
        } else {
            relations::lemma_filter_comes_from(d.chunks, asked_for(), n);
            let i = choose|i: int|
                0 <= i < d.chunks.len() && asked_for()(#[trigger] d.chunks[i]) && relations::count(
                    d.chunks,
                    asked_for(),
                    i,
                ) == n && d.chunks[i] == d.chunks.filter(asked_for())[n];
            lemma_checked_up_to(d, verdicts@, i, d.updated_at);
            lemma_newly_good_grows(d, verdicts@, i, len);
        }
    }
}

/// A summary holds what it sums up, and counts the chunks that are pending or have failed.
pub proof fn law_summary_counts_pending(s: &DlState, out: RecoverInfo)
    requires
        call_ensures(RecoverInfo::from, (s,), out),
    ensures
        out.merkle_root@ == s.merkle_root@,
        out.file_name@ == s.file_name@,
        out.file_size == s.file_size,
        out.verified_bytes == s.verified_bytes,
        out.pending_cnt == relations::count(
            s@.chunks,
            |c: Chunk<Option<Seq<char>>>|
                c.state == ChunkState::Pending || c.state == ChunkState::Failed,
            s@.chunks.len() as int,
        ),
        same_texts(out.peers@, s@.peers),
        out.tmp_path@ == s.tmp_path@,
        out.dst_path@ == s.dst_path@,
{
    relations::lemma_indices_list(
        s@.chunks,
        download::to_fetch(),
        |c: Chunk<Option<Seq<char>>>|
            c.state == ChunkState::Pending || c.state == ChunkState::Failed,
    );
}

/// The hashes of the entries of a manifest, in order.
pub open spec fn entry_hashes(manifest: FileManifest) -> Seq<Seq<char>> {
    Seq::new(manifest.chunks@.len(), |i: int| manifest.chunks@[i].hash@)
}

/// The hashes of a manifest are those of its entries, in order; there are none where there is no
/// manifest.
pub proof fn law_hashes_of_manifest(parsed: &Option<FileManifest>, out: Option<Vec<String>>)
    requires
        call_ensures(p2p_download_recovery::parse_hashes, (parsed,), out),
    ensures
        *parsed is None <==> out is None,
        *parsed matches Some(manifest) ==> (out matches Some(hashes) && same_texts(
            hashes@,
            entry_hashes(manifest),
        )),
{
    if let Some(manifest) = *parsed {
        let hashes = out->0;
        assert(text::texts(hashes@) =~= manifest.hashes());
        assert forall|i: int| 0 <= i < hashes@.len() implies (#[trigger] hashes@[i])@
            == entry_hashes(manifest)[i] by {
            assert(text::texts(hashes@)[i] == manifest.hashes()[i]);
        }
        assert(hashes@.len() == text::texts(hashes@).len());
    }
}

/// Whether a download is that of a published file, of which nothing has been fetched: its chunks
/// cut up, each with the hash that its entry of the manifest has, and with the seeders as peers.
pub open spec fn set_up_from(
    d: State,
    meta: FileMetadata,
    parsed: Option<FileManifest>,
    tmp_path: Seq<char>,
    dst_path: Seq<char>,
) -> bool {
    &&& d.version == 1
    &&& d.merkle_root == meta.merkle_root@
    &&& d.file_name == meta.file_name@
    &&& d.file_size == meta.file_size
    &&& d.tmp_path == tmp_path
    &&& d.dst_path == dst_path
    &&& d.verified_bytes == 0
    &&& same_option(meta.manifest, d.manifest)
    &&& d.encrypted == meta.is_encrypted
    &&& relations::cut_up(d.chunks, meta.file_size as int)
    &&& hashed_by(
        d.chunks,
        if meta.manifest is Some && parsed is Some {
            entry_hashes(parsed->0)
        } else {
            Seq::empty()
        },
    )
    &&& relations::joined(
        Seq::empty(),
        Seq::new(meta.seeders@.len(), |i: int| meta.seeders@[i]@),
        d.peers,
    )
}

/// What laying out chunks makes of them.
proof fn lemma_laid_out(d: State, hashes: Option<Seq<Seq<char>>>)
    ensures
        ({
            let chunks = p2p_download_recovery::chunks_laid_out(d, hashes).chunks;
            &&& relations::cut_up(chunks, d.file_size as int)
            &&& hashed_by(
                chunks,
                match hashes {
                    Some(list) => list,
                    None => Seq::empty(),
                },
            )
        }),
{
}

/// What setting up a download from a published record makes of it.
proof fn lemma_set_up(
    meta: FileMetadata,
    parsed: Option<FileManifest>,
    tmp_path: Seq<char>,
    dst_path: Seq<char>,
    now: u64,
)
    ensures
        ({
            let d = p2p_download_recovery::state_of_metadata(
                meta,
                parsed,
                tmp_path,
                dst_path,
                now,
            );
            &&& set_up_from(d, meta, parsed, tmp_path, dst_path)
            &&& d.updated_at == now
        }),
{
    let fresh = State::fresh(
        1,
        meta.merkle_root@,
        meta.file_name@,
        meta.file_size,
        tmp_path,
        dst_path,
        now,
    );
    let hashes = if meta.manifest is Some {
        p2p_download_recovery::manifest_texts(parsed)
    } else {
        None
    };
    let laid_out = p2p_download_recovery::chunks_laid_out(fresh, hashes);
    let seeders = Seq::new(meta.seeders@.len(), |i: int| meta.seeders@[i]@);
    let d = p2p_download_recovery::state_of_metadata(meta, parsed, tmp_path, dst_path, now);
    assert(seeders =~= text::texts(meta.seeders@));
    let listed = laid_out.with_peers(seeders, seeders.len() as int, now);
    relations::lemma_listing(laid_out, seeders, now);
    lemma_laid_out(fresh, hashes);
    if parsed is Some {
        assert(entry_hashes(parsed->0) =~= parsed->0.hashes());
    }
    assert(d.chunks == laid_out.chunks);
    assert(relations::cut_up(d.chunks, meta.file_size as int));
    assert(d.peers == listed.peers);
    assert(relations::joined(Seq::empty(), seeders, d.peers));
}

/// A published file is set up with its chunks cut up, each with the hash of its entry in the
/// manifest, and with its seeders as peers. Where the manifest has as many entries as the file has
/// chunks, the hashes of the chunks are those of the manifest, in order.
pub proof fn law_published_file_is_set_up(
    meta: &FileMetadata,
    parsed: &Option<FileManifest>,
    tmp_path: String,
    dst_path: String,
    now: u64,
    out: DlState,
)
    requires
        call_ensures(
            p2p_download_recovery::from_metadata_at,
            (meta, parsed, tmp_path, dst_path, now),
            out,
        ) || call_ensures(
            p2p_download_recovery::from_metadata,
            (meta, parsed, tmp_path, dst_path),
            out,
        ),
    ensures
        set_up_from(out@, *meta, *parsed, tmp_path@, dst_path@),
        call_ensures(
            p2p_download_recovery::from_metadata_at,
            (meta, parsed, tmp_path, dst_path, now),
            out,
        ) ==> out.updated_at == now,
        meta.manifest is Some && *parsed is Some && entry_hashes(parsed->0).len()
            == out@.chunks.len() ==> forall|i: int|
            0 <= i < out@.chunks.len() ==> (#[trigger] out@.chunks[i]).hash == Some(
                entry_hashes(parsed->0)[i],
            ),
{
    lemma_set_up(*meta, *parsed, tmp_path@, dst_path@, now);
    if call_ensures(
        p2p_download_recovery::from_metadata,
        (meta, parsed, tmp_path, dst_path),
        out,
    ) {
        let time = choose|time: u64|
            out@ == #[trigger] p2p_download_recovery::state_of_metadata(
                *meta,
                *parsed,
                tmp_path@,
                dst_path@,
                time,
            );
        lemma_set_up(*meta, *parsed, tmp_path@, dst_path@, time);
    }
}

/// Every published file can be set up that is shorter than all of a `u64` by one chunk.
pub proof fn law_published_file_can_be_set_up(
    meta: &FileMetadata,
    parsed: &Option<FileManifest>,
    tmp_path: String,
    dst_path: String,
    now: u64,
)
    requires
        meta.file_size + 262144 <= u64::MAX,
    ensures
        call_requires(
            p2p_download_recovery::from_metadata_at,
            (meta, parsed, tmp_path, dst_path, now),
        ),
        call_requires(
            p2p_download_recovery::from_metadata,
            (meta, parsed, tmp_path, dst_path),
        ),
{
}

/// Of the chunks that are said to have arrived, those that were pending are downloaded; no other
/// chunk changes, nor anything else but the time.
pub proof fn law_arrivals(s: &mut DlState, received: &HashSet<u32>, now: u64)
    requires
        call_ensures(p2p_download_recovery::sync_received_at, (s, received, now), ())
            || call_ensures(p2p_download_recovery::sync_received, (s, received), ()),
    ensures
        relations::same_but_chunks(old(s)@, final(s)@),
        final(s)@.verified_bytes == old(s)@.verified_bytes,
        forall|i: int|
            0 <= i < old(s)@.chunks.len() ==> (#[trigger] final(s)@.chunks[i]).state == if i
                <= u32::MAX && received@.contains(i as u32) && old(s)@.chunks[i].state
                == ChunkState::Pending {
                ChunkState::Downloaded
            } else {
                old(s)@.chunks[i].state
            },
        call_ensures(p2p_download_recovery::sync_received_at, (s, received, now), ())
            ==> final(s)@.updated_at == now,
{
}

/// A plan is made of a download after the check that was asked for, or as it is where none was;
/// what it fetches are the chunks that are pending or have failed, in order.
pub proof fn law_plan_fetches_what_is_left(
    state: DlState,
    verify: bool,
    tmp_exists: bool,
    verdicts: &[Result<bool, String>],
    now: u64,
    out: Result<RecoveryPlan, String>,
)
    requires
        call_ensures(
            p2p_download_recovery::plan_recovery_at,
            (state, verify, tmp_exists, verdicts, now),
            out,
        ) || call_ensures(
            p2p_download_recovery::plan_recovery,
            (state, verify, tmp_exists, verdicts),
            out,
        ),
        verify && tmp_exists ==> verdicts@.len() == relations::count(
            state@.chunks,
            asked_for(),
            state@.chunks.len() as int,
        ),
    ensures
        out matches Ok(plan) && {
            &&& plan.verified == verify
            &&& plan.verify_res is Some <==> verify
            &&& relations::lists(
                plan.to_fetch@,
                plan.state@.chunks,
                |c: Chunk<Option<Seq<char>>>|
                    c.state == ChunkState::Pending || c.state == ChunkState::Failed,
                |c: Chunk<Option<Seq<char>>>| c.idx,
            )
            &&& !(verify && tmp_exists) ==> plan.state@ == state@
            &&& verify && tmp_exists ==> counted_by(state@, verdicts@, plan.verify_res->0)
            &&& verify && tmp_exists ==> exists|time: u64|
                #[trigger] settled_at_large(state@, plan.state@, verdicts@, time)
            &&& verify && tmp_exists && state@.indexed() ==> exists|time: u64|
                #[trigger] settled_by(state@, plan.state@, verdicts@, time)
            &&& verify && tmp_exists && state@.indexed() && call_ensures(
                p2p_download_recovery::plan_recovery_at,
                (state, verify, tmp_exists, verdicts, now),
                out,
            ) ==> settled_by(state@, plan.state@, verdicts@, now)
            &&& verify && !tmp_exists ==> {
                &&& plan.verify_res->0.total == state.chunks@.len()
                &&& plan.verify_res->0.verified == 0
                &&& plan.verify_res->0.failed == 0
                &&& plan.verify_res->0.skipped == state.chunks@.len()
            }
        },
{
    let plan = out->Ok_0;
    assert(state@.chunks.len() == state.chunks@.len());
    assert(state.chunks.len() <= usize::MAX);
    relations::lemma_indices_list(
        plan.state@.chunks,
        download::to_fetch(),
        |c: Chunk<Option<Seq<char>>>|
            c.state == ChunkState::Pending || c.state == ChunkState::Failed,
    );
    if verify && tmp_exists {
        lemma_check_counts(state@, verdicts@);
        lemma_check_settles_at_large(state@, verdicts@, now);
        if state@.indexed() {
            lemma_check_settles(state@, verdicts@, now);
        }
        if call_ensures(
            p2p_download_recovery::plan_recovery,
            (state, verify, tmp_exists, verdicts),
            out,
        ) {
            let time = choose|time: u64|
                plan.state@ == #[trigger] p2p_download_recovery::all_checked(
                    state@,
                    tmp_exists,
                    p2p_download_recovery::passes(verdicts@),
                    time,
                );
            lemma_check_settles_at_large(state@, verdicts@, time);
            if state@.indexed() {
                lemma_check_settles(state@, verdicts@, time);
            }
        }
    }
}

/// A plan can be made wherever no check is asked for, or one that can be made.
pub proof fn law_plan_can_be_made(
    state: DlState,
    verify: bool,
    tmp_exists: bool,
    verdicts: &[Result<bool, String>],
    now: u64,
)
    requires
        verify && tmp_exists ==> verdicts@.len() == relations::count(
            state@.chunks,
            asked_for(),
            state@.chunks.len() as int,
        ),
        verify && tmp_exists ==> call_ensures(
            p2p_download_recovery::verdicts_fit,
            (&state, verdicts),
            true,
        ),
    ensures
        call_requires(
            p2p_download_recovery::plan_recovery_at,
            (state, verify, tmp_exists, verdicts, now),
        ),
        call_requires(
            p2p_download_recovery::plan_recovery,
            (state, verify, tmp_exists, verdicts),
        ),
{
    assert(p2p_download_recovery::checkable() =~= asked_for());
    relations::lemma_indices_list(state@.chunks, asked_for(), asked_for());
}

/// A download is finished by moving its partial file to its place and removing its state file; it
/// cannot be where there is no partial file, and the message says which is missing.
pub proof fn law_finishing_moves_the_file(
    s: &DlState,
    tmp_exists: bool,
    out: Result<FinalMove, String>,
    tmp: &str,
    meta: String,
)
    requires
        call_ensures(p2p_download_recovery::finalize, (s, tmp_exists), out),
        tmp@ == s.tmp_path@,
        call_ensures(p2p_download_recovery::meta_path, (tmp,), meta),
    ensures
        tmp_exists ==> (out matches Ok(step) && step.from@ == s.tmp_path@ && step.to@
            == s.dst_path@ && step.meta@ == meta@),
        !tmp_exists ==> (out matches Err(message) && message@ == "tmp file missing: "@
            + s.tmp_path@),
{
}

/// The published record of a download is that of its file, with its peers as seeders and with the
/// place where the file ends up.
pub proof fn law_record_of_download(s: &DlState, out: FileMetadata)
    requires
        call_ensures(p2p_download_recovery::to_file_meta, (s,), out),
    ensures
        out.merkle_root@ == s.merkle_root@,
        out.file_name@ == s.file_name@,
        out.file_size == s.file_size,
        same_texts(out.seeders@, s@.peers),
        out.is_encrypted == s.encrypted,
        same_option(out.manifest, s@.manifest),
        out.download_path matches Some(path) && path@ == s.dst_path@,
{
    assert(text::texts(out.seeders@).len() == out.seeders@.len());
    assert forall|i: int| 0 <= i < out.seeders@.len() implies (#[trigger] out.seeders@[i])@
        == s@.peers[i] by {
        assert(text::texts(out.seeders@)[i] == s@.peers[i]);
    }
}

} // verus!
