//! What holds of recovery as a whole.

use crate::chunk;
use crate::chunk::ChunkState;
use crate::digest;
use crate::download;
use crate::download::{Chunk, Download};
use crate::models::{FileManifest, FileMetadata};
use crate::p2p_download_recovery;
use crate::p2p_download_recovery::{ChunkRead, State};
use crate::text;
use vstd::prelude::*;

verus! {

/// The chunks that are laid out for a file cover it: they lie end to end from its start to its
/// last byte, each holds at least one byte and at most `CHUNK_SIZE`, and all are still to be
/// fetched. This holds of every file whose chunks can be counted in a `u32`.
pub proof fn law_layout_covers_file(d: State, hashes: Option<Seq<Seq<char>>>)
    requires
        chunk::fits_u32_chunks(d.file_size),
    ensures
        p2p_download_recovery::chunks_laid_out(d, hashes).laid_out(),
        p2p_download_recovery::chunks_laid_out(d, hashes).covers_file(),
        forall|i: int|
            #![trigger p2p_download_recovery::chunks_laid_out(d, hashes).chunks[i]]
            0 <= i < p2p_download_recovery::chunks_laid_out(d, hashes).chunks.len()
                ==> p2p_download_recovery::chunks_laid_out(d, hashes).chunks[i].state
                == ChunkState::Pending,
{
    chunk::lemma_count_exact(d.file_size);
    chunk::lemma_chunks_cover_file(d.file_size as int);
    p2p_download_recovery::chunks_laid_out(d, hashes).lemma_laid_out_covers();
}

/// A download whose chunks have just been laid out, with no bytes counted, is sound.
pub proof fn law_layout_is_sound(d: State, hashes: Option<Seq<Seq<char>>>)
    requires
        chunk::fits_u32_chunks(d.file_size),
        d.verified_bytes == 0,
    ensures
        p2p_download_recovery::chunks_laid_out(d, hashes).sound(),
{
    law_layout_covers_file(d, hashes);
    download::lemma_total_of_unverified(p2p_download_recovery::chunks_laid_out(d, hashes).chunks);
}

/// Every step keeps the count of verified bytes right.
pub proof fn law_steps_keep_count(
    d: State,
    idx: u32,
    peer: Seq<char>,
    received: Set<u32>,
    now: u64,
)
    requires
        d.accounted(),
    ensures
        p2p_download_recovery::downloaded(d, idx, now).accounted(),
        p2p_download_recovery::verified(d, idx, now).accounted(),
        d.failed(idx, now).accounted(),
        d.with_peer(peer, now).accounted(),
        p2p_download_recovery::synced(d, received, now).accounted(),
{
    if idx < d.chunks.len() {
        d.lemma_failed_accounted(idx, now);
        if !d.has(idx, ChunkState::Verified) {
            d.lemma_verified_accounted(idx, now);
            d.lemma_moved_accounted(idx, ChunkState::Downloaded, now);
        }
    }
    lemma_sync_keeps_total(d, received, now, d.chunks.len() as int);
    assert(d.chunks.take(d.chunks.len() as int) =~= d.chunks);
    let after = p2p_download_recovery::synced(d, received, now);
    assert(after.chunks.take(d.chunks.len() as int) =~= after.chunks);
}

/// Every step keeps a download sound, and in a sound one every chunk can be counted.
pub proof fn law_steps_keep_soundness(
    d: State,
    idx: u32,
    peer: Seq<char>,
    received: Set<u32>,
    now: u64,
)
    requires
        d.sound(),
    ensures
        p2p_download_recovery::can_verify(d, idx),
        p2p_download_recovery::downloaded(d, idx, now).sound(),
        p2p_download_recovery::verified(d, idx, now).sound(),
        d.failed(idx, now).sound(),
        d.with_peer(peer, now).sound(),
        p2p_download_recovery::synced(d, received, now).sound(),
{
    law_steps_keep_count(d, idx, peer, received, now);
    if idx < d.chunks.len() {
        d.lemma_state_keeps_layout(idx, ChunkState::Downloaded, now);
        d.lemma_state_keeps_layout(idx, ChunkState::Verified, now);
        d.lemma_state_keeps_layout(idx, ChunkState::Failed, now);
        if !d.has(idx, ChunkState::Verified) {
            d.lemma_sound_has_room(idx);
        }
    }
}

/// Noting which chunks have arrived leaves the verified bytes as they are.
proof fn lemma_sync_keeps_total(d: State, received: Set<u32>, now: u64, n: int)
    requires
        0 <= n <= d.chunks.len(),
    ensures
        download::verified_total(
            p2p_download_recovery::synced(d, received, now).chunks.take(n),
        ) == download::verified_total(d.chunks.take(n)),
    decreases n,
{
    if n > 0 {
        let after = p2p_download_recovery::synced(d, received, now).chunks;
        lemma_sync_keeps_total(d, received, now, n - 1);
        assert(after.take(n).drop_last() =~= after.take(n - 1));
        assert(d.chunks.take(n).drop_last() =~= d.chunks.take(n - 1));
    }
}

/// A sound download never counts more bytes than its file has. It counts all of them exactly where
/// it is complete, unless the file is empty: an empty file has no chunks and is never complete.
pub proof fn law_progress_within_file(d: State)
    requires
        d.sound(),
    ensures
        0 <= d.verified_bytes <= d.file_size,
        d.file_size > 0 ==> (p2p_download_recovery::complete(d) <==> d.verified_bytes
            == d.file_size),
        d.file_size == 0 ==> !p2p_download_recovery::complete(d),
{
    d.lemma_sound_bounds();
    d.lemma_laid_out_covers();
}

/// Failing a chunk undoes having verified it, as far as the count of bytes goes: whatever was
/// counted for it is no longer counted, and the chunk is to be fetched again.
pub proof fn law_failing_undoes_verifying(d: State, idx: u32, now: u64, later: u64)
    requires
        idx < d.chunks.len(),
        !d.has(idx, ChunkState::Verified),
        d.verified_bytes >= 0,
    ensures
        ({
            let good = p2p_download_recovery::verified(d, idx, now);
            let bad = good.failed(idx, later);
            &&& good.verified_bytes == d.verified_bytes + d.chunks[idx as int].size
            &&& bad.verified_bytes == d.verified_bytes
            &&& bad.has(idx, ChunkState::Failed)
            &&& bad.chunks == d.failed(idx, later).chunks
        }),
{
    let good = p2p_download_recovery::verified(d, idx, now);
    assert(good.failed(idx, later).chunks =~= d.failed(idx, later).chunks);
}

/// Saying the same thing of a chunk twice is saying it once.
pub proof fn law_marking_twice_is_once(d: State, idx: u32, now: u64)
    requires
        d.verified_bytes >= 0,
    ensures
        ({
            let once = p2p_download_recovery::downloaded(d, idx, now);
            p2p_download_recovery::downloaded(once, idx, now) == once
        }),
        ({
            let once = p2p_download_recovery::verified(d, idx, now);
            p2p_download_recovery::verified(once, idx, now) == once
        }),
        d.failed(idx, now).failed(idx, now) == d.failed(idx, now),
{
    let once = d.failed(idx, now);
    assert(once.failed(idx, now).chunks =~= once.chunks);
}

/// A chunk that has been verified stays so however often it arrives again.
pub proof fn law_arrival_keeps_verified(d: State, idx: u32, received: Set<u32>, now: u64)
    requires
        d.has(idx, ChunkState::Verified),
    ensures
        p2p_download_recovery::downloaded(d, idx, now) == d,
        p2p_download_recovery::synced(d, received, now).has(idx, ChunkState::Verified),
{
}

/// Every chunk is on exactly one of three lists: those still to be fetched, those still to be
/// checked, and those verified.
pub proof fn law_lists_split_chunks(d: State, idx: u32)
    requires
        d.indexed(),
        idx < d.chunks.len(),
    ensures
        ({
            let fetch = d.pending().contains(idx);
            let check = download::indices(
                d.chunks,
                download::in_state(ChunkState::Downloaded),
            ).contains(idx);
            let done = d.has(idx, ChunkState::Verified);
            &&& fetch || check || done
            &&& !(fetch && check)
            &&& !(fetch && done)
            &&& !(check && done)
        }),
{
    download::lemma_indices_of_indexed(d, download::to_fetch(), idx);
    download::lemma_indices_of_indexed(d, download::in_state(ChunkState::Downloaded), idx);
}

/// A download is complete exactly where it has chunks, none of which is still to be fetched or to
/// be checked.
pub proof fn law_complete_when_nothing_left(d: State)
    ensures
        p2p_download_recovery::complete(d) <==> {
            &&& d.chunks.len() > 0
            &&& d.pending().len() == 0
            &&& download::indices(
                d.chunks,
                download::in_state(ChunkState::Downloaded),
            ).len() == 0
        },
{
    let fetch = d.pending();
    let check = download::indices(d.chunks, download::in_state(ChunkState::Downloaded));
    if d.all_verified() {
        if fetch.len() > 0 {
            download::lemma_indices_contains(d.chunks, download::to_fetch(), fetch[0]);
            assert(fetch.contains(fetch[0]));
        }
        if check.len() > 0 {
            download::lemma_indices_contains(
                d.chunks,
                download::in_state(ChunkState::Downloaded),
                check[0],
            );
            assert(check.contains(check[0]));
        }
    } else {
        let i = choose|i: int|
            0 <= i < d.chunks.len() && (#[trigger] d.chunks[i]).state != ChunkState::Verified;
        let idx = d.chunks[i].idx;
        download::lemma_indices_contains(d.chunks, download::to_fetch(), idx);
        download::lemma_indices_contains(
            d.chunks,
            download::in_state(ChunkState::Downloaded),
            idx,
        );
    }
}

/// The chunks that are still to be fetched are listed in order, each once.
pub proof fn law_pending_in_order(d: State)
    requires
        d.indexed(),
    ensures
        forall|i: int, j: int|
            0 <= i < j < d.pending().len() ==> #[trigger] d.pending()[i]
                < #[trigger] d.pending()[j],
{
    download::lemma_indices_increase(d.chunks, download::to_fetch());
}

/// Listing peers, one or many, keeps those listed before, in their order, lists those that were
/// given and no others, and lists none twice unless one was before. Listing them again changes
/// nothing.
pub proof fn law_peers_listed_once(d: State, peers: Seq<Seq<char>>, now: u64, later: u64)
    ensures
        ({
            let after = d.with_peers(peers, peers.len() as int, now);
            &&& d.peers_distinct() ==> after.peers_distinct()
            &&& d.peers.is_prefix_of(after.peers)
            &&& forall|k: int|
                0 <= k < peers.len() ==> after.peers.contains(#[trigger] peers[k])
            &&& forall|p: Seq<char>| #[trigger] after.peers.contains(p) ==> d.peers.contains(p)
                || peers.contains(p)
            &&& after.with_peers(peers, peers.len() as int, later) == after
        }),
{
    let n = peers.len() as int;
    let after = d.with_peers(peers, n, now);
    d.lemma_with_peers(peers, n, now);
    assert(peers.take(n) =~= peers);
    after.lemma_with_known_peers(peers, n, later);
}

/// Noting that one chunk has arrived is the same by itself as in a set of one, but for the time.
pub proof fn law_sync_is_marking(d: State, idx: u32, now: u64, later: u64)
    ensures
        p2p_download_recovery::synced(d, set![idx], now).chunks
            == p2p_download_recovery::downloaded(d, idx, later).chunks,
{
    assert(p2p_download_recovery::synced(d, set![idx], now).chunks
        =~= p2p_download_recovery::downloaded(d, idx, later).chunks);
}

/// Chunks may be noted as arrived in batches, in any order: what counts is all of them together.
pub proof fn law_sync_in_batches(d: State, first: Set<u32>, second: Set<u32>, now: u64, later: u64)
    ensures
        ({
            let one = p2p_download_recovery::synced(d, first, now);
            let both = p2p_download_recovery::synced(one, second, later);
            both == p2p_download_recovery::synced(d, first.union(second), later)
        }),
{
    let one = p2p_download_recovery::synced(d, first, now);
    assert(p2p_download_recovery::synced(one, second, later).chunks
        =~= p2p_download_recovery::synced(d, first.union(second), later).chunks);
}

/// What checking the first `n` chunks has done to each chunk.
pub proof fn lemma_checked_chunks(d: State, pass: Seq<bool>, n: int, now: u64)
    requires
        d.indexed(),
        pass.len() == p2p_download_recovery::check_indices(d).len(),
        0 <= n <= pass.len(),
    ensures
        ({
            let idxs = p2p_download_recovery::check_indices(d);
            let after = p2p_download_recovery::checked(d, idxs, pass, n, now);
            &&& after.chunks.len() == d.chunks.len()
            &&& forall|k: int|
                #![trigger idxs[k]]
                0 <= k < n ==> after.chunks[idxs[k] as int] == (Chunk {
                    state: if pass[k] {
                        ChunkState::Verified
                    } else {
                        ChunkState::Failed
                    },
                    ..d.chunks[idxs[k] as int]
                })
            &&& forall|i: int|
                0 <= i < d.chunks.len() && !idxs.take(n).contains(i as u32)
                    ==> #[trigger] after.chunks[i] == d.chunks[i]
        }),
    decreases n,
{
    let idxs = p2p_download_recovery::check_indices(d);
    download::lemma_indices_increase(d.chunks, p2p_download_recovery::checkable());
    if n > 0 {
        lemma_checked_chunks(d, pass, n - 1, now);
        let before = p2p_download_recovery::checked(d, idxs, pass, n - 1, now);
        let after = p2p_download_recovery::checked(d, idxs, pass, n, now);
        let idx = idxs[n - 1];
        assert(!idxs.take(n - 1).contains(idx));
        assert(before.chunks[idx as int] == d.chunks[idx as int]);
        assert forall|k: int| #![trigger idxs[k]] 0 <= k < n implies after.chunks[idxs[k] as int]
            == (Chunk {
            state: if pass[k] {
                ChunkState::Verified
            } else {
                ChunkState::Failed
            },
            ..d.chunks[idxs[k] as int]
        }) by {
            if k < n - 1 {
                assert(idxs[k] != idx);
            }
        }
        assert forall|i: int|
            0 <= i < d.chunks.len() && !idxs.take(n).contains(i as u32) implies
            #[trigger] after.chunks[i] == d.chunks[i] by {
            assert(idxs.take(n)[n - 1] == idx);
            assert(i != idx);
            if idxs.take(n - 1).contains(i as u32) {
                let k = choose|k: int| 0 <= k < n - 1 && #[trigger] idxs.take(n - 1)[k] == i;
                assert(idxs.take(n)[k] == i);
            }
        }
    }
}

/// A check settles every chunk that can be checked: one that passed is verified, one that did not
/// has failed and is to be fetched again. It leaves every other chunk as it was, and nothing of a
/// chunk but its state changes.
pub proof fn law_check_settles_chunks(d: State, pass: Seq<bool>, now: u64)
    requires
        d.indexed(),
        pass.len() == p2p_download_recovery::check_indices(d).len(),
    ensures
        ({
            let idxs = p2p_download_recovery::check_indices(d);
            let after = p2p_download_recovery::all_checked(d, true, pass, now);
            &&& after.indexed()
            &&& after.chunks.len() == d.chunks.len()
            &&& forall|k: int|
                #![trigger idxs[k]]
                0 <= k < pass.len() ==> after.chunks[idxs[k] as int] == (Chunk {
                    state: if pass[k] {
                        ChunkState::Verified
                    } else {
                        ChunkState::Failed
                    },
                    ..d.chunks[idxs[k] as int]
                })
            &&& forall|k: int|
                #![trigger idxs[k]]
                0 <= k < pass.len() ==> (after.pending().contains(idxs[k]) <==> !pass[k])
            &&& forall|i: int|
                0 <= i < d.chunks.len() && !p2p_download_recovery::checkable()(d.chunks[i])
                    ==> #[trigger] after.chunks[i] == d.chunks[i]
        }),
{
    let idxs = p2p_download_recovery::check_indices(d);
    let n = pass.len() as int;
    let after = p2p_download_recovery::all_checked(d, true, pass, now);
    lemma_checked_chunks(d, pass, n, now);
    download::lemma_indices_increase(d.chunks, p2p_download_recovery::checkable());
    assert(idxs.take(n) =~= idxs);
    assert forall|i: int|
        0 <= i < d.chunks.len() && !p2p_download_recovery::checkable()(d.chunks[i]) implies
        #[trigger] after.chunks[i] == d.chunks[i] by {
        download::lemma_indices_of_indexed(d, p2p_download_recovery::checkable(), i as u32);
    }
    assert forall|i: int| 0 <= i < after.chunks.len() implies (#[trigger] after.chunks[i]).idx
        == i by {
        if idxs.contains(i as u32) {
            let k = choose|k: int| 0 <= k < idxs.len() && idxs[k] == i as u32;
            assert(after.chunks[idxs[k] as int].idx == d.chunks[idxs[k] as int].idx);
        }
    }
    assert forall|k: int| #![trigger idxs[k]] 0 <= k < pass.len() implies (
    after.pending().contains(idxs[k]) <==> !pass[k]) by {
        download::lemma_indices_of_indexed(after, download::to_fetch(), idxs[k]);
    }
}

/// A check settles each chunk by its bytes: with each verdict that of checking the chunk against
/// what was read of it, a chunk ends up verified exactly where the SHA-256 of the bytes that were
/// read is its hash, in either case of the letters, and has failed otherwise.
pub proof fn law_check_follows_bytes(
    d: State,
    reads: Seq<ChunkRead>,
    verdicts: Seq<Result<bool, String>>,
    now: u64,
)
    requires
        d.indexed(),
        reads.len() == verdicts.len(),
        verdicts.len() == d.chunks.filter(p2p_download_recovery::checkable()).len(),
        forall|k: int|
            #![trigger verdicts[k]]
            0 <= k < verdicts.len() ==> p2p_download_recovery::verdict_text(verdicts[k])
                == p2p_download_recovery::chunk_verdict(
                d.chunks.filter(p2p_download_recovery::checkable())[k],
                reads[k],
            ),
    ensures
        ({
            let pass = p2p_download_recovery::passes(verdicts);
            let after = p2p_download_recovery::all_checked(d, true, pass, now);
            let asked = d.chunks.filter(p2p_download_recovery::checkable());
            forall|k: int|
                #![trigger asked[k]]
                0 <= k < asked.len() ==> {
                    let good = reads[k] matches ChunkRead::Data(data) && text::same_ignoring_case(
                        digest::hex_text(digest::sha256_digest(data@)),
                        asked[k].hash->0,
                    );
                    &&& asked[k].hash is Some
                    &&& d.chunks[asked[k].idx as int] == asked[k]
                    &&& after.chunks[asked[k].idx as int] == (Chunk {
                        state: if good {
                            ChunkState::Verified
                        } else {
                            ChunkState::Failed
                        },
                        ..asked[k]
                    })
                }
        }),
{
    let pass = p2p_download_recovery::passes(verdicts);
    let after = p2p_download_recovery::all_checked(d, true, pass, now);
    let asked = d.chunks.filter(p2p_download_recovery::checkable());
    let idxs = p2p_download_recovery::check_indices(d);
    law_check_settles_chunks(d, pass, now);
    assert forall|k: int| #![trigger asked[k]] 0 <= k < asked.len() implies {
        let good = reads[k] matches ChunkRead::Data(data) && text::same_ignoring_case(
            digest::hex_text(digest::sha256_digest(data@)),
            asked[k].hash->0,
        );
        &&& asked[k].hash is Some
        &&& d.chunks[asked[k].idx as int] == asked[k]
        &&& after.chunks[asked[k].idx as int] == (Chunk {
            state: if good {
                ChunkState::Verified
            } else {
                ChunkState::Failed
            },
            ..asked[k]
        })
    } by {
        download::lemma_filtered_at(d.chunks, p2p_download_recovery::checkable(), k);
        assert(idxs[k] == asked[k].idx);
        assert(pass[k] == (verdicts[k] matches Ok(good) && good));
    }
}

/// What checking the first `n` chunks leaves is counted right.
proof fn lemma_checked_accounted(d: State, idxs: Seq<u32>, pass: Seq<bool>, n: int, now: u64)
    requires
        d.accounted(),
    ensures
        p2p_download_recovery::checked(d, idxs, pass, n, now).accounted(),
    decreases n,
{
    if n > 0 {
        lemma_checked_accounted(d, idxs, pass, n - 1, now);
        law_steps_keep_count(
            p2p_download_recovery::checked(d, idxs, pass, n - 1, now),
            idxs[n - 1],
            Seq::empty(),
            Set::empty(),
            now,
        );
    }
}

/// A check keeps the count of verified bytes right, however the chunks are laid out.
pub proof fn law_check_keeps_count(d: State, tmp_exists: bool, pass: Seq<bool>, now: u64)
    requires
        d.accounted(),
    ensures
        p2p_download_recovery::all_checked(d, tmp_exists, pass, now).accounted(),
{
    let idxs = p2p_download_recovery::check_indices(d);
    lemma_checked_accounted(d, idxs, pass, pass.len() as int, now);
}

/// What checking the first `n` chunks leaves is sound.
proof fn lemma_checked_sound(d: State, idxs: Seq<u32>, pass: Seq<bool>, n: int, now: u64)
    requires
        d.sound(),
    ensures
        p2p_download_recovery::checked(d, idxs, pass, n, now).sound(),
        p2p_download_recovery::checked(d, idxs, pass, n, now).verified_bytes <= u64::MAX,
    decreases n,
{
    if n > 0 {
        lemma_checked_sound(d, idxs, pass, n - 1, now);
        law_steps_keep_soundness(
            p2p_download_recovery::checked(d, idxs, pass, n - 1, now),
            idxs[n - 1],
            Seq::empty(),
            Set::empty(),
            now,
        );
    }
    p2p_download_recovery::checked(d, idxs, pass, n, now).lemma_sound_bounds();
}

/// A sound download can always be checked, and is sound afterwards.
pub proof fn law_check_keeps_soundness(d: State, tmp_exists: bool, pass: Seq<bool>, now: u64)
    requires
        d.sound(),
    ensures
        p2p_download_recovery::checks_fit(d, pass),
        p2p_download_recovery::all_checked(d, tmp_exists, pass, now).sound(),
{
    let idxs = p2p_download_recovery::check_indices(d);
    lemma_checked_sound(d, idxs, pass, pass.len() as int, now);
    assert forall|n: int| 0 <= n <= pass.len() implies (#[trigger] p2p_download_recovery::checked(
        d,
        idxs,
        pass,
        n,
        d.updated_at,
    )).verified_bytes <= u64::MAX by {
        lemma_checked_sound(d, idxs, pass, n, d.updated_at);
    }
}

/// The counts of a check add up: of the chunks that are present, each is counted once, as good, as
/// bad or as skipped. Without a partial file all chunks are skipped.
pub proof fn law_check_counts_add_up(d: State, tmp_exists: bool, pass: Seq<bool>)
    requires
        d.chunks.len() <= usize::MAX,
        pass.len() == p2p_download_recovery::check_indices(d).len(),
    ensures
        ({
            let counts = p2p_download_recovery::check_counts(d, tmp_exists, pass);
            let present = if tmp_exists {
                d.chunks.filter(p2p_download_recovery::present()).len()
            } else {
                d.chunks.len()
            };
            &&& counts.total == d.chunks.len()
            &&& counts.verified + counts.failed + counts.skipped == present
            &&& present <= counts.total
        }),
{
    download::lemma_filter_weaker(
        d.chunks,
        p2p_download_recovery::checkable(),
        p2p_download_recovery::present(),
    );
    download::lemma_count_true_bounds(pass, pass.len() as int);
}

/// A download set up from a published record holds all that publishing it again takes: the same
/// file and manifest, and the same seeders, each once, in the same order where the record lists
/// none twice. It counts no bytes yet, and is sound where its chunks can be counted in a `u32`.
pub proof fn law_metadata_comes_back(
    meta: FileMetadata,
    parsed: Option<FileManifest>,
    tmp_path: Seq<char>,
    dst_path: Seq<char>,
    now: u64,
)
    ensures
        ({
            let d = p2p_download_recovery::state_of_metadata(
                meta,
                parsed,
                tmp_path,
                dst_path,
                now,
            );
            let seeders = text::texts(meta.seeders@);
            &&& d.merkle_root == meta.merkle_root@
            &&& d.file_name == meta.file_name@
            &&& d.file_size == meta.file_size
            &&& d.encrypted == meta.is_encrypted
            &&& d.manifest == text::opt_text(meta.manifest)
            &&& d.tmp_path == tmp_path
            &&& d.dst_path == dst_path
            &&& d.updated_at == now
            &&& d.verified_bytes == 0
            &&& d.peers_distinct()
            &&& forall|p: Seq<char>| #[trigger] d.peers.contains(p) <==> seeders.contains(p)
            &&& seeders.no_duplicates() ==> d.peers == seeders
            &&& chunk::fits_u32_chunks(meta.file_size) ==> d.sound()
        }),
{
    let fresh = State::fresh(
        1,
        meta.merkle_root@,
        meta.file_name@,
        meta.file_size,
        tmp_path,
        dst_path,
        now,
    );
    let hashes = if meta.manifest is Some {
        p2p_download_recovery::manifest_texts(parsed)
    } else {
        None
    };
    let seeders = text::texts(meta.seeders@);
    let n = seeders.len() as int;
    let laid_out = p2p_download_recovery::chunks_laid_out(fresh, hashes);
    let listed = laid_out.with_peers(seeders, n, now);
    let d = p2p_download_recovery::state_of_metadata(meta, parsed, tmp_path, dst_path, now);
    laid_out.lemma_with_peers_frame(seeders, n, now);
    laid_out.lemma_with_peers(seeders, n, now);
    assert(seeders.take(n) =~= seeders);
    assert forall|p: Seq<char>| #[trigger] d.peers.contains(p) <==> seeders.contains(p) by {
        if seeders.contains(p) {
            let k = choose|k: int| 0 <= k < seeders.len() && seeders[k] == p;
            assert(listed.peers.contains(seeders[k]));
        }
    }
    laid_out.lemma_with_peers_time(seeders, n, now);
    if seeders.no_duplicates() {
        laid_out.lemma_with_new_peers(seeders, n, now);
    }
    if chunk::fits_u32_chunks(meta.file_size) {
        law_layout_is_sound(fresh, hashes);
        assert(d.chunks == laid_out.chunks);
    }
}

/// Publishing a download that was set up from a published record, and setting it up again from
/// there, gives it back but for the time.
pub proof fn law_publishing_comes_back(
    meta: FileMetadata,
    parsed: Option<FileManifest>,
    tmp_path: Seq<char>,
    dst_path: Seq<char>,
    now: u64,
    again: FileMetadata,
    later: u64,
)
    requires
        p2p_download_recovery::publishes(
            again,
            p2p_download_recovery::state_of_metadata(meta, parsed, tmp_path, dst_path, now),
        ),
    ensures
        ({
            let d = p2p_download_recovery::state_of_metadata(
                meta,
                parsed,
                tmp_path,
                dst_path,
                now,
            );
            p2p_download_recovery::state_of_metadata(again, parsed, tmp_path, dst_path, later) == (
            Download { updated_at: later, ..d })
        }),
{
    let d = p2p_download_recovery::state_of_metadata(meta, parsed, tmp_path, dst_path, now);
    let e = p2p_download_recovery::state_of_metadata(again, parsed, tmp_path, dst_path, later);
    law_metadata_comes_back(meta, parsed, tmp_path, dst_path, now);
    law_metadata_comes_back(again, parsed, tmp_path, dst_path, later);
    lemma_set_up_chunks(meta, parsed, tmp_path, dst_path, now);
    lemma_set_up_chunks(again, parsed, tmp_path, dst_path, later);
    assert(e.chunks =~= d.chunks);
}

/// What the chunks of a download that has just been set up are, and its version.
proof fn lemma_set_up_chunks(
    meta: FileMetadata,
    parsed: Option<FileManifest>,
    tmp_path: Seq<char>,
    dst_path: Seq<char>,
    now: u64,
)
    ensures
        ({
            let d = p2p_download_recovery::state_of_metadata(
                meta,
                parsed,
                tmp_path,
                dst_path,
                now,
            );
            let hashes = if meta.manifest is Some {
                p2p_download_recovery::manifest_texts(parsed)
            } else {
                None
            };
            &&& d.version == 1
            &&& d.chunks == p2p_download_recovery::chunks_laid_out(d, hashes).chunks
        }),
{
    let fresh = State::fresh(
        1,
        meta.merkle_root@,
        meta.file_name@,
        meta.file_size,
        tmp_path,
        dst_path,
        now,
    );
    let hashes = if meta.manifest is Some {
        p2p_download_recovery::manifest_texts(parsed)
    } else {
        None
    };
    let seeders = text::texts(meta.seeders@);
    let laid_out = p2p_download_recovery::chunks_laid_out(fresh, hashes);
    laid_out.lemma_with_peers_frame(seeders, seeders.len() as int, now);
    let d = p2p_download_recovery::state_of_metadata(meta, parsed, tmp_path, dst_path, now);
    assert(d.chunks =~= p2p_download_recovery::chunks_laid_out(d, hashes).chunks);
}

/// The name of every state file is one by which a scan finds it, and files of different names have
/// state files of different names.
pub proof fn law_state_files_are_found(name: Option<Seq<char>>, a: Seq<char>, b: Seq<char>)
    ensures
        text::has_suffix(p2p_download_recovery::meta_name(name), ".chiral.p2p.meta.json"@),
        p2p_download_recovery::meta_name(Some(a)) == p2p_download_recovery::meta_name(Some(b))
            <==> a == b,
{
    let suffix = ".chiral.p2p.meta.json"@;
    let whole = p2p_download_recovery::meta_name(name);
    assert(whole.skip(whole.len() - suffix.len()) =~= suffix);
    let x = p2p_download_recovery::meta_name(Some(a));
    let y = p2p_download_recovery::meta_name(Some(b));
    reveal_strlit(".");
    assert(x.subrange(1, x.len() - suffix.len()) =~= a);
    assert(y.subrange(1, y.len() - suffix.len()) =~= b);
}

/// The case of the letters in the hash of a chunk has no bearing on whether its bytes are good.
pub proof fn law_hash_in_either_case(
    chunk: Chunk<Option<Seq<char>>>,
    other: Seq<char>,
    read: ChunkRead,
)
    requires
        chunk.hash is Some,
        text::same_ignoring_case(chunk.hash->0, other),
    ensures
        p2p_download_recovery::chunk_verdict(Chunk { hash: Some(other), ..chunk }, read)
            == p2p_download_recovery::chunk_verdict(chunk, read),
{
}

/// Bytes are good against the hash that they have. Against the hash of other bytes they are good
/// exactly where the two have the same digest.
pub proof fn law_hash_tells_digests_apart(
    chunk: Chunk<Option<Seq<char>>>,
    data: Vec<u8>,
    other: Seq<u8>,
)
    requires
        chunk.hash == Some(digest::hex_text(digest::sha256_digest(other))),
    ensures
        p2p_download_recovery::chunk_verdict(chunk, ChunkRead::Data(data)) == Ok::<
            bool,
            Seq<char>,
        >(digest::sha256_digest(data@) == digest::sha256_digest(other)),
        data@ == other ==> p2p_download_recovery::chunk_verdict(chunk, ChunkRead::Data(data))
            == Ok::<bool, Seq<char>>(true),
{
    let a = digest::sha256_digest(data@);
    let b = digest::sha256_digest(other);
    lemma_hex_is_lower(a);
    lemma_hex_is_lower(b);
    digest::law_hex_tells_bytes_apart(a, b);
}

/// Hexadecimal text has no capital letters.
proof fn lemma_hex_is_lower(data: Seq<u8>)
    ensures
        digest::hex_text(data).map_values(|c: char| text::ascii_lower(c)) == digest::hex_text(data),
{
    assert(digest::hex_text(data).map_values(|c: char| text::ascii_lower(c)) =~= digest::hex_text(
        data,
    ));
}

} // verus!
