//! What holds of chunk recovery as a whole.

use crate::chunk;
use crate::chunk::ChunkState;
use crate::digest;
use crate::digest::HexError;
use crate::download;
use crate::download::{Chunk, Download};
use crate::models::{ChunkInfo, FileManifest, FileMetadata};
use crate::p2p_chunk_network;
use crate::p2p_chunk_network::{ChunkNetErr, DiskRead, NetErr, Start, State};
use crate::text;
use vstd::prelude::*;

verus! {

/// The chunks that are laid out for a file cover it: they lie end to end from its start to its
/// last byte, each holds at least one byte and at most `CHUNK_SIZE`, and all are still to be
/// fetched. This holds of every file whose chunks can be counted in a `u32`.
pub proof fn law_layout_covers_file(d: State)
    requires
        chunk::fits_u32_chunks(d.file_size),
    ensures
        p2p_chunk_network::chunks_laid_out(d).laid_out(),
        p2p_chunk_network::chunks_laid_out(d).covers_file(),
        forall|i: int|
            #![trigger p2p_chunk_network::chunks_laid_out(d).chunks[i]]
            0 <= i < p2p_chunk_network::chunks_laid_out(d).chunks.len()
                ==> p2p_chunk_network::chunks_laid_out(d).chunks[i].state == ChunkState::Pending,
{
    chunk::lemma_count_exact(d.file_size);
    chunk::lemma_chunks_cover_file(d.file_size as int);
    p2p_chunk_network::chunks_laid_out(d).lemma_laid_out_covers();
}

/// A download whose chunks have just been laid out, with no bytes counted, is sound.
pub proof fn law_layout_is_sound(d: State)
    requires
        chunk::fits_u32_chunks(d.file_size),
        d.verified_bytes == 0,
    ensures
        p2p_chunk_network::chunks_laid_out(d).sound(),
{
    law_layout_covers_file(d);
    download::lemma_total_of_unverified(p2p_chunk_network::chunks_laid_out(d).chunks);
}

/// A download that has just taken its chunks from a manifest, with no bytes counted, counts right,
/// and has one chunk to fetch for each entry of the manifest, in the same order.
pub proof fn law_manifest_is_accounted(d: State, manifest: FileManifest, json: Option<Seq<char>>)
    requires
        d.verified_bytes == 0,
    ensures
        ({
            let after = p2p_chunk_network::with_manifest(d, manifest, json);
            &&& after.accounted()
            &&& after.pending() == manifest.chunks@.map_values(|info: ChunkInfo| info.index)
        }),
{
    let after = p2p_chunk_network::with_manifest(d, manifest, json);
    download::lemma_total_of_unverified(after.chunks);
    lemma_all_pass(after.chunks, download::to_fetch());
    assert(after.pending() =~= manifest.chunks@.map_values(|info: ChunkInfo| info.index));
}

/// Filtering keeps everything where everything passes.
proof fn lemma_all_pass(chunks: Seq<Chunk<Seq<char>>>, test: spec_fn(Chunk<Seq<char>>) -> bool)
    requires
        forall|i: int| 0 <= i < chunks.len() ==> test(#[trigger] chunks[i]),
    ensures
        chunks.filter(test) == chunks,
    decreases chunks.len(),
{
    reveal(Seq::filter);
    if chunks.len() > 0 {
        let rest = chunks.drop_last();
        assert forall|i: int| 0 <= i < rest.len() implies test(#[trigger] rest[i]) by {
            assert(rest[i] == chunks[i]);
        }
        lemma_all_pass(rest, test);
        assert(rest.push(chunks.last()) =~= chunks);
    }
}

/// Every step keeps the count of verified bytes right, but for one: noting that a verified chunk
/// has arrived again leaves its bytes counted, though it is no longer verified.
pub proof fn law_steps_keep_count(d: State, idx: u32, peer: Seq<char>, now: u64)
    requires
        d.accounted(),
    ensures
        !d.has(idx, ChunkState::Verified) ==> p2p_chunk_network::downloaded(
            d,
            idx,
            now,
        ).accounted(),
        p2p_chunk_network::verified(d, idx, now).accounted(),
        d.failed(idx, now).accounted(),
        d.with_peer(peer, now).accounted(),
{
    if idx < d.chunks.len() {
        d.lemma_failed_accounted(idx, now);
        if !d.has(idx, ChunkState::Verified) {
            d.lemma_verified_accounted(idx, now);
            d.lemma_moved_accounted(idx, ChunkState::Downloaded, now);
        }
    }
}

/// Every step keeps a download sound, but for noting that a verified chunk has arrived again; and
/// in a sound one every chunk can be counted.
pub proof fn law_steps_keep_soundness(d: State, idx: u32, peer: Seq<char>, now: u64)
    requires
        d.sound(),
    ensures
        p2p_chunk_network::can_verify(d, idx),
        !d.has(idx, ChunkState::Verified) ==> p2p_chunk_network::downloaded(d, idx, now).sound(),
        p2p_chunk_network::verified(d, idx, now).sound(),
        d.failed(idx, now).sound(),
        d.with_peer(peer, now).sound(),
{
    law_steps_keep_count(d, idx, peer, now);
    if idx < d.chunks.len() {
        d.lemma_state_keeps_layout(idx, ChunkState::Downloaded, now);
        d.lemma_state_keeps_layout(idx, ChunkState::Verified, now);
        d.lemma_state_keeps_layout(idx, ChunkState::Failed, now);
        if d.has(idx, ChunkState::Downloaded) {
            d.lemma_sound_has_room(idx);
        }
    }
}

/// A sound download never counts more bytes than its file has, and counts all of them exactly where
/// it is complete.
pub proof fn law_progress_within_file(d: State)
    requires
        d.sound(),
    ensures
        0 <= d.verified_bytes <= d.file_size,
        d.all_verified() <==> d.verified_bytes == d.file_size,
{
    d.lemma_sound_bounds();
}

/// A chunk is verified only once it has arrived.
pub proof fn law_only_arrived_is_verified(d: State, idx: u32, now: u64)
    requires
        !d.has(idx, ChunkState::Downloaded),
    ensures
        p2p_chunk_network::verified(d, idx, now) == d,
{
}

/// Failing a chunk undoes having verified it, as far as the count of bytes goes: whatever was
/// counted for it is no longer counted, and the chunk is to be fetched again.
pub proof fn law_failing_undoes_verifying(d: State, idx: u32, now: u64, later: u64)
    requires
        d.has(idx, ChunkState::Downloaded),
        d.verified_bytes >= 0,
    ensures
        ({
            let good = p2p_chunk_network::verified(d, idx, now);
            let bad = good.failed(idx, later);
            &&& good.verified_bytes == d.verified_bytes + d.chunks[idx as int].size
            &&& bad.verified_bytes == d.verified_bytes
            &&& bad.has(idx, ChunkState::Failed)
            &&& bad.chunks == d.failed(idx, later).chunks
        }),
{
    let good = p2p_chunk_network::verified(d, idx, now);
    assert(good.failed(idx, later).chunks =~= d.failed(idx, later).chunks);
}

/// Saying the same thing of a chunk twice is saying it once.
pub proof fn law_marking_twice_is_once(d: State, idx: u32, now: u64)
    requires
        d.verified_bytes >= 0,
    ensures
        ({
            let once = p2p_chunk_network::downloaded(d, idx, now);
            p2p_chunk_network::downloaded(once, idx, now) == once
        }),
        ({
            let once = p2p_chunk_network::verified(d, idx, now);
            p2p_chunk_network::verified(once, idx, now) == once
        }),
        d.failed(idx, now).failed(idx, now) == d.failed(idx, now),
{
    let once = p2p_chunk_network::downloaded(d, idx, now);
    assert(p2p_chunk_network::downloaded(once, idx, now).chunks =~= once.chunks);
    let once = d.failed(idx, now);
    assert(once.failed(idx, now).chunks =~= once.chunks);
}

/// Every chunk is on exactly one of three lists: those still to be fetched, those still to be
/// checked, and those verified.
pub proof fn law_lists_split_chunks(d: State, idx: u32)
    requires
        d.indexed(),
        idx < d.chunks.len(),
    ensures
        ({
            let fetch = d.pending().contains(idx);
            let check = p2p_chunk_network::check_indices(d).contains(idx);
            let done = d.has(idx, ChunkState::Verified);
            &&& fetch || check || done
            &&& !(fetch && check)
            &&& !(fetch && done)
            &&& !(check && done)
        }),
{
    download::lemma_indices_of_indexed(d, download::to_fetch(), idx);
    download::lemma_indices_of_indexed(d, download::in_state(ChunkState::Downloaded), idx);
}

/// The chunks that are still to be fetched are listed in order, each once.
pub proof fn law_pending_in_order(d: State)
    requires
        d.indexed(),
    ensures
        forall|i: int, j: int|
            0 <= i < j < d.pending().len() ==> #[trigger] d.pending()[i]
                < #[trigger] d.pending()[j],
{
    download::lemma_indices_increase(d.chunks, download::to_fetch());
}

/// A download is complete exactly where no chunk is still to be fetched or to be checked.
pub proof fn law_complete_when_nothing_left(d: State)
    ensures
        d.all_verified() <==> d.pending().len() == 0 && p2p_chunk_network::check_indices(d).len()
            == 0,
{
    let fetch = d.pending();
    let check = p2p_chunk_network::check_indices(d);
    if d.all_verified() {
        if fetch.len() > 0 {
            download::lemma_indices_contains(d.chunks, download::to_fetch(), fetch[0]);
            assert(fetch.contains(fetch[0]));
        }
        if check.len() > 0 {
            download::lemma_indices_contains(
                d.chunks,
                download::in_state(ChunkState::Downloaded),
                check[0],
            );
            assert(check.contains(check[0]));
        }
    } else {
        let i = choose|i: int|
            0 <= i < d.chunks.len() && (#[trigger] d.chunks[i]).state != ChunkState::Verified;
        let idx = d.chunks[i].idx;
        download::lemma_indices_contains(d.chunks, download::to_fetch(), idx);
        download::lemma_indices_contains(
            d.chunks,
            download::in_state(ChunkState::Downloaded),
            idx,
        );
    }
}

/// Listing providers keeps those listed before, in their order, lists those that were found and no
/// others, and lists none twice unless one was before. Finding them again changes nothing.
pub proof fn law_providers_listed_once(d: State, found: Seq<Seq<char>>, now: u64, later: u64)
    ensures
        ({
            let after = p2p_chunk_network::refreshed(d, found, now);
            &&& d.peers_distinct() ==> after.peers_distinct()
            &&& d.peers.is_prefix_of(after.peers)
            &&& forall|k: int| 0 <= k < found.len() ==> after.peers.contains(#[trigger] found[k])
            &&& forall|p: Seq<char>| #[trigger] after.peers.contains(p) ==> d.peers.contains(p)
                || found.contains(p)
            &&& p2p_chunk_network::refreshed(after, found, later) == after
        }),
{
    let n = found.len() as int;
    let after = p2p_chunk_network::refreshed(d, found, now);
    d.lemma_with_peers(found, n, now);
    assert(found.take(n) =~= found);
    after.lemma_with_known_peers(found, n, later);
}

/// What failing the first `n` of some chunks has done to each chunk.
pub proof fn lemma_each_failed_chunks(d: State, idxs: Seq<u32>, n: int, now: u64)
    requires
        0 <= n <= idxs.len(),
        forall|k: int| 0 <= k < idxs.len() ==> #[trigger] idxs[k] < d.chunks.len(),
        d.chunks.len() <= u32::MAX,
    ensures
        ({
            let after = p2p_chunk_network::each_failed(d, idxs, n, now);
            &&& after.chunks.len() == d.chunks.len()
            &&& forall|i: int|
                0 <= i < d.chunks.len() ==> #[trigger] after.chunks[i] == if idxs.take(
                    n,
                ).contains(i as u32) {
                    Chunk { state: ChunkState::Failed, ..d.chunks[i] }
                } else {
                    d.chunks[i]
                }
        }),
    decreases n,
{
    if n > 0 {
        lemma_each_failed_chunks(d, idxs, n - 1, now);
        lemma_take_contains(idxs, n);
    }
}

/// What verifying the first `n` of some chunks has done to each chunk.
proof fn lemma_each_verified_chunks(d: State, idxs: Seq<u32>, n: int, now: u64)
    requires
        0 <= n <= idxs.len(),
        forall|k: int|
            0 <= k < idxs.len() ==> d.has(#[trigger] idxs[k], ChunkState::Downloaded),
        d.chunks.len() <= u32::MAX,
    ensures
        ({
            let after = p2p_chunk_network::each_verified(d, idxs, n, now);
            &&& after.chunks.len() == d.chunks.len()
            &&& forall|i: int|
                0 <= i < d.chunks.len() ==> #[trigger] after.chunks[i] == if idxs.take(
                    n,
                ).contains(i as u32) {
                    Chunk { state: ChunkState::Verified, ..d.chunks[i] }
                } else {
                    d.chunks[i]
                }
        }),
    decreases n,
{
    if n > 0 {
        lemma_each_verified_chunks(d, idxs, n - 1, now);
        lemma_take_contains(idxs, n);
        assert(d.has(idxs[n - 1], ChunkState::Downloaded));
    }
}

/// One element more can be found among one element more.
proof fn lemma_take_contains(idxs: Seq<u32>, n: int)
    requires
        0 < n <= idxs.len(),
    ensures
        forall|x: u32|
            #[trigger] idxs.take(n).contains(x) <==> idxs.take(n - 1).contains(x) || x == idxs[n
                - 1],
{
    assert(idxs.take(n) =~= idxs.take(n - 1).push(idxs[n - 1]));
    assert forall|x: u32|
        #[trigger] idxs.take(n).contains(x) <==> idxs.take(n - 1).contains(x) || x == idxs[n
            - 1] by {
        let before = idxs.take(n - 1);
        let after = idxs.take(n);
        if before.contains(x) {
            let k = choose|k: int| 0 <= k < before.len() && before[k] == x;
            assert(after[k] == x);
        }
        if x == idxs[n - 1] {
            assert(after[n - 1] == x);
        }
        if after.contains(x) && x != idxs[n - 1] {
            let k = choose|k: int| 0 <= k < after.len() && after[k] == x;
            assert(before[k] == x);
        }
    }
}

/// The indices whose check was not passed are those of a check that was not.
pub proof fn lemma_failing_contains(idxs: Seq<u32>, pass: Seq<bool>, n: int, x: u32)
    requires
        0 <= n <= idxs.len(),
        n <= pass.len(),
    ensures
        p2p_chunk_network::failing(idxs, pass, n).contains(x) <==> exists|k: int|
            0 <= k < n && #[trigger] idxs[k] == x && !pass[k],
    decreases n,
{
    if n > 0 {
        lemma_failing_contains(idxs, pass, n - 1, x);
        let before = p2p_chunk_network::failing(idxs, pass, n - 1);
        let after = p2p_chunk_network::failing(idxs, pass, n);
        if !pass[n - 1] {
            if before.contains(x) {
                let k = choose|k: int| 0 <= k < before.len() && before[k] == x;
                assert(after[k] == x);
            }
            if idxs[n - 1] == x {
                assert(after[after.len() - 1] == x);
            }
            if after.contains(x) && idxs[n - 1] != x {
                let k = choose|k: int| 0 <= k < after.len() && after[k] == x;
                assert(before[k] == x);
            }
        }
    }
}

/// A check settles every chunk that has arrived: one that passed is verified, one that did not has
/// failed and is to be fetched again. It leaves every other chunk as it was, and nothing of a chunk
/// but its state changes.
pub proof fn law_check_settles_chunks(d: State, pass: Seq<bool>, now: u64)
    requires
        d.indexed(),
        pass.len() == p2p_chunk_network::check_indices(d).len(),
    ensures
        ({
            let idxs = p2p_chunk_network::check_indices(d);
            let after = p2p_chunk_network::all_checked(d, pass, now);
            &&& after.indexed()
            &&& after.chunks.len() == d.chunks.len()
            &&& forall|k: int|
                #![trigger idxs[k]]
                0 <= k < pass.len() ==> after.chunks[idxs[k] as int] == (Chunk {
                    state: if pass[k] {
                        ChunkState::Verified
                    } else {
                        ChunkState::Failed
                    },
                    ..d.chunks[idxs[k] as int]
                })
            &&& forall|k: int|
                #![trigger idxs[k]]
                0 <= k < pass.len() ==> (after.pending().contains(idxs[k]) <==> !pass[k])
            &&& forall|i: int|
                0 <= i < d.chunks.len() && d.chunks[i].state != ChunkState::Downloaded
                    ==> #[trigger] after.chunks[i] == d.chunks[i]
        }),
{
    let idxs = p2p_chunk_network::check_indices(d);
    let test = download::in_state::<Seq<char>>(ChunkState::Downloaded);
    let n = pass.len() as int;
    let bad = p2p_chunk_network::bad_indices(d, pass);
    let good = p2p_chunk_network::good_indices(d, bad);
    let middle = p2p_chunk_network::each_failed(d, bad, bad.len() as int, now);
    let after = p2p_chunk_network::all_checked(d, pass, now);
    download::lemma_indices_increase(d.chunks, test);
    assert(bad.take(bad.len() as int) =~= bad);
    assert(good.take(good.len() as int) =~= good);
    assert forall|x: u32| #[trigger] bad.contains(x) implies d.has(x, ChunkState::Downloaded) by {
        lemma_failing_contains(idxs, pass, n, x);
        let k = choose|k: int| 0 <= k < n && #[trigger] idxs[k] == x && !pass[k];
        assert(idxs.contains(idxs[k]));
        download::lemma_indices_of_indexed(d, test, x);
    }
    assert forall|k: int| 0 <= k < bad.len() implies #[trigger] bad[k] < d.chunks.len() by {
        assert(bad.contains(bad[k]));
    }
    lemma_each_failed_chunks(d, bad, bad.len() as int, now);
    assert forall|x: u32| #[trigger] good.contains(x) <==> d.has(x, ChunkState::Downloaded)
        && !bad.contains(x) by {
        download::lemma_indices_of_indexed(d, p2p_chunk_network::good_test(bad), x);
    }
    assert forall|k: int| 0 <= k < good.len() implies middle.has(
        #[trigger] good[k],
        ChunkState::Downloaded,
    ) by {
        assert(good.contains(good[k]));
    }
    lemma_each_verified_chunks(middle, good, good.len() as int, now);
    assert forall|k: int|
        #![trigger idxs[k]]
        0 <= k < pass.len() implies after.chunks[idxs[k] as int] == (Chunk {
        state: if pass[k] {
            ChunkState::Verified
        } else {
            ChunkState::Failed
        },
        ..d.chunks[idxs[k] as int]
    }) by {
        let x = idxs[k];
        assert(idxs.contains(x));
        download::lemma_indices_of_indexed(d, test, x);
        lemma_failing_contains(idxs, pass, n, x);
        if bad.contains(x) {
            let j = choose|j: int| 0 <= j < n && #[trigger] idxs[j] == x && !pass[j];
            assert(j == k);
        }
        assert(middle.chunks[x as int] == if bad.contains(x) {
            Chunk { state: ChunkState::Failed, ..d.chunks[x as int] }
        } else {
            d.chunks[x as int]
        });
    }
    assert forall|i: int|
        0 <= i < d.chunks.len() && d.chunks[i].state != ChunkState::Downloaded implies
        #[trigger] after.chunks[i] == d.chunks[i] by {
        assert(!bad.contains(i as u32));
        assert(!good.contains(i as u32));
        assert(middle.chunks[i] == d.chunks[i]);
    }
    assert forall|i: int| 0 <= i < after.chunks.len() implies (#[trigger] after.chunks[i]).idx
        == i by {
        assert(middle.chunks[i].idx == d.chunks[i].idx);
    }
    assert forall|k: int| #![trigger idxs[k]] 0 <= k < pass.len() implies (
    after.pending().contains(idxs[k]) <==> !pass[k]) by {
        download::lemma_indices_of_indexed(after, download::to_fetch(), idxs[k]);
    }
}

/// A check settles each chunk by its bytes: with each verdict that of checking the chunk against
/// what was read of it, a chunk ends up verified exactly where the SHA-256 of the bytes that were
/// read is its hash, or it has none, and has failed otherwise.
pub proof fn law_check_follows_bytes(
    d: State,
    reads: Seq<DiskRead>,
    verdicts: Seq<Result<bool, ChunkNetErr>>,
    now: u64,
)
    requires
        d.indexed(),
        reads.len() == verdicts.len(),
        verdicts.len() == d.chunks.filter(download::in_state(ChunkState::Downloaded)).len(),
        forall|k: int|
            #![trigger verdicts[k]]
            0 <= k < verdicts.len() ==> p2p_chunk_network::outcome(verdicts[k])
                == p2p_chunk_network::chunk_verdict(
                d.chunks.filter(download::in_state(ChunkState::Downloaded))[k],
                reads[k],
            ),
    ensures
        ({
            let pass = p2p_chunk_network::passes(verdicts);
            let after = p2p_chunk_network::all_checked(d, pass, now);
            let asked = d.chunks.filter(download::in_state(ChunkState::Downloaded));
            forall|k: int|
                #![trigger asked[k]]
                0 <= k < asked.len() ==> {
                    let good = asked[k].hash.len() == 0 || (reads[k] matches DiskRead::Data(data)
                        && digest::hex_text(digest::sha256_digest(data@)) == asked[k].hash);
                    &&& d.chunks[asked[k].idx as int] == asked[k]
                    &&& after.chunks[asked[k].idx as int] == (Chunk {
                        state: if good {
                            ChunkState::Verified
                        } else {
                            ChunkState::Failed
                        },
                        ..asked[k]
                    })
                }
        }),
{
    let pass = p2p_chunk_network::passes(verdicts);
    let after = p2p_chunk_network::all_checked(d, pass, now);
    let asked = d.chunks.filter(download::in_state(ChunkState::Downloaded));
    let idxs = p2p_chunk_network::check_indices(d);
    law_check_settles_chunks(d, pass, now);
    assert forall|k: int| #![trigger asked[k]] 0 <= k < asked.len() implies {
        let good = asked[k].hash.len() == 0 || (reads[k] matches DiskRead::Data(data)
            && digest::hex_text(digest::sha256_digest(data@)) == asked[k].hash);
        &&& d.chunks[asked[k].idx as int] == asked[k]
        &&& after.chunks[asked[k].idx as int] == (Chunk {
            state: if good {
                ChunkState::Verified
            } else {
                ChunkState::Failed
            },
            ..asked[k]
        })
    } by {
        download::lemma_filtered_at(d.chunks, download::in_state(ChunkState::Downloaded), k);
        assert(idxs[k] == asked[k].idx);
        assert(pass[k] == (verdicts[k] matches Ok(good) && good));
    }
}

/// What failing the first `n` of some chunks leaves is counted right.
proof fn lemma_each_failed_accounted(d: State, idxs: Seq<u32>, n: int, now: u64)
    requires
        d.accounted(),
    ensures
        p2p_chunk_network::each_failed(d, idxs, n, now).accounted(),
    decreases n,
{
    if n > 0 {
        lemma_each_failed_accounted(d, idxs, n - 1, now);
        p2p_chunk_network::each_failed(d, idxs, n - 1, now).lemma_failed_accounted(
            idxs[n - 1],
            now,
        );
    }
}

/// What noting the first `n` good chunks leaves is counted right.
proof fn lemma_checked_accounted(d: State, pass: Seq<bool>, n: int, now: u64)
    requires
        d.accounted(),
    ensures
        p2p_chunk_network::checked(d, pass, n, now).accounted(),
    decreases n,
{
    let bad = p2p_chunk_network::bad_indices(d, pass);
    if n > 0 {
        lemma_checked_accounted(d, pass, n - 1, now);
        law_steps_keep_count(
            p2p_chunk_network::checked(d, pass, n - 1, now),
            p2p_chunk_network::good_indices(d, bad)[n - 1],
            Seq::empty(),
            now,
        );
    } else {
        lemma_each_failed_accounted(d, bad, bad.len() as int, now);
    }
}

/// A check keeps the count of verified bytes right, however the chunks are laid out: also for a
/// download that took its chunks from a manifest.
pub proof fn law_check_keeps_count(d: State, pass: Seq<bool>, now: u64)
    requires
        d.accounted(),
    ensures
        p2p_chunk_network::all_checked(d, pass, now).accounted(),
{
    lemma_checked_accounted(d, pass, p2p_chunk_network::good_len(d, pass), now);
}

/// What failing the first `n` of some chunks leaves is sound.
proof fn lemma_each_failed_sound(d: State, idxs: Seq<u32>, n: int, now: u64)
    requires
        d.sound(),
    ensures
        p2p_chunk_network::each_failed(d, idxs, n, now).sound(),
    decreases n,
{
    if n > 0 {
        lemma_each_failed_sound(d, idxs, n - 1, now);
        law_steps_keep_soundness(
            p2p_chunk_network::each_failed(d, idxs, n - 1, now),
            idxs[n - 1],
            Seq::empty(),
            now,
        );
    }
}

/// What noting the first `n` good chunks leaves is sound.
proof fn lemma_checked_sound(d: State, pass: Seq<bool>, n: int, now: u64)
    requires
        d.sound(),
    ensures
        p2p_chunk_network::checked(d, pass, n, now).sound(),
        p2p_chunk_network::checked(d, pass, n, now).verified_bytes <= u64::MAX,
    decreases n,
{
    let bad = p2p_chunk_network::bad_indices(d, pass);
    if n > 0 {
        lemma_checked_sound(d, pass, n - 1, now);
        law_steps_keep_soundness(
            p2p_chunk_network::checked(d, pass, n - 1, now),
            p2p_chunk_network::good_indices(d, bad)[n - 1],
            Seq::empty(),
            now,
        );
    } else {
        lemma_each_failed_sound(d, bad, bad.len() as int, now);
    }
    p2p_chunk_network::checked(d, pass, n, now).lemma_sound_bounds();
}

/// A sound download can always be checked, and is sound afterwards.
pub proof fn law_check_keeps_soundness(d: State, pass: Seq<bool>, now: u64)
    requires
        d.sound(),
        pass.len() == p2p_chunk_network::check_indices(d).len(),
    ensures
        p2p_chunk_network::checks_fit(d, pass),
        p2p_chunk_network::all_checked(d, pass, now).sound(),
{
    let any = |c: Chunk<Seq<char>>| true;
    download::lemma_filter_weaker(d.chunks, download::in_state(ChunkState::Downloaded), any);
    download::lemma_count_true_bounds(pass, pass.len() as int);
    lemma_checked_sound(d, pass, p2p_chunk_network::good_len(d, pass), now);
    assert forall|n: int| 0 <= n <= p2p_chunk_network::good_len(d, pass) implies (
    #[trigger] p2p_chunk_network::checked(d, pass, n, d.updated_at)).verified_bytes
        <= u64::MAX by {
        lemma_checked_sound(d, pass, n, d.updated_at);
    }
}

/// The counts of a check add up: each chunk that was checked is counted once, as good or as bad.
pub proof fn law_check_counts_add_up(d: State, pass: Seq<bool>)
    requires
        pass.len() == p2p_chunk_network::check_indices(d).len(),
        p2p_chunk_network::checks_fit(d, pass),
    ensures
        ({
            let counts = p2p_chunk_network::check_counts(pass);
            counts.verified + counts.failed == p2p_chunk_network::check_indices(d).len()
        }),
{
    download::lemma_count_true_bounds(pass, pass.len() as int);
}

/// The root that is computed over hashes is the one that verifies against them, and the only one.
pub proof fn law_own_root_verifies(hashes: Seq<Seq<char>>, root: Seq<char>)
    requires
        p2p_chunk_network::root_of(hashes) is Ok,
    ensures
        p2p_chunk_network::root_matches(root, hashes) == Ok::<bool, NetErr>(
            Ok::<Seq<char>, NetErr>(root) == p2p_chunk_network::root_of(hashes),
        ),
{
}

/// Where the first hashes are well-formed and the next one is not, there is no root, and what is
/// wrong with that one is the error. A hash of an odd number of bytes is reported as such.
pub proof fn law_first_bad_hash_is_reported(hashes: Seq<Seq<char>>, n: int)
    requires
        0 <= n < hashes.len(),
        forall|i: int|
            0 <= i < n ==> p2p_chunk_network::hash_error(#[trigger] hashes[i]) is None,
        p2p_chunk_network::hash_error(hashes[n]) is Some,
    ensures
        p2p_chunk_network::root_of(hashes) == Err::<Seq<char>, NetErr>(
            p2p_chunk_network::hash_error(hashes[n])->0,
        ),
        digest::hex_bytes(hashes[n]) == Err::<Seq<u8>, HexError>(HexError::OddLength)
            ==> p2p_chunk_network::root_of(hashes) == Err::<Seq<char>, NetErr>(
            NetErr::ParseErr("Odd number of digits"@),
        ),
{
    lemma_no_error_before(hashes, n);
    p2p_chunk_network::lemma_first_error_stays(hashes, n + 1, hashes.len() as int);
}

/// Among well-formed hashes there is no error.
pub proof fn lemma_no_error_before(hashes: Seq<Seq<char>>, n: int)
    requires
        0 <= n <= hashes.len(),
        forall|i: int|
            0 <= i < n ==> p2p_chunk_network::hash_error(#[trigger] hashes[i]) is None,
    ensures
        p2p_chunk_network::first_error(hashes, n) is None,
    decreases n,
{
    if n > 0 {
        lemma_no_error_before(hashes, n - 1);
    }
}

/// The root over the hexadecimal forms of 32-byte digests is the hexadecimal form of the root of
/// the tree over the digests themselves: no such form is taken for anything else.
pub proof fn law_root_over_digests(digests: Seq<Seq<u8>>)
    requires
        digests.len() > 0,
        forall|i: int| 0 <= i < digests.len() ==> (#[trigger] digests[i]).len() == 32,
    ensures
        p2p_chunk_network::root_of(digests.map_values(|d: Seq<u8>| digest::hex_text(d))) == (
        Ok::<Seq<char>, NetErr>(digest::hex_text(digest::merkle_root(digests)->0))),
{
    digest::lemma_root_exists(digests);
    let hashes = digests.map_values(|d: Seq<u8>| digest::hex_text(d));
    lemma_digests_are_hashes(digests, digests.len() as int);
    assert forall|i: int| 0 <= i < digests.len() implies p2p_chunk_network::hash_bytes(hashes)[i]
        == #[trigger] digests[i] by {
        digest::law_hex_comes_back(digests[i]);
    }
    assert(p2p_chunk_network::hash_bytes(hashes) =~= digests);
}

/// The hexadecimal forms of 32-byte digests are well-formed hashes.
proof fn lemma_digests_are_hashes(digests: Seq<Seq<u8>>, n: int)
    requires
        0 <= n <= digests.len(),
        forall|i: int| 0 <= i < digests.len() ==> (#[trigger] digests[i]).len() == 32,
    ensures
        p2p_chunk_network::first_error(
            digests.map_values(|d: Seq<u8>| digest::hex_text(d)),
            n,
        ) is None,
    decreases n,
{
    if n > 0 {
        lemma_digests_are_hashes(digests, n - 1);
        digest::law_hex_comes_back(digests[n - 1]);
    }
}

/// Bytes are good against the hash that they have. Against the hash of other bytes they are good
/// exactly where the two have the same digest.
pub proof fn law_hash_tells_digests_apart(
    chunk: Chunk<Seq<char>>,
    data: Vec<u8>,
    other: Seq<u8>,
)
    requires
        chunk.hash == digest::hex_text(digest::sha256_digest(other)),
        digest::sha256_digest(other).len() == 32,
    ensures
        p2p_chunk_network::chunk_verdict(chunk, DiskRead::Data(data)) == Ok::<bool, NetErr>(
            digest::sha256_digest(data@) == digest::sha256_digest(other),
        ),
        data@ == other ==> p2p_chunk_network::chunk_verdict(chunk, DiskRead::Data(data)) == Ok::<
            bool,
            NetErr,
        >(true),
{
    digest::law_hex_tells_bytes_apart(
        digest::sha256_digest(data@),
        digest::sha256_digest(other),
    );
}

/// A recovery runs once at a time. Where one is under way already, asking for it changes nothing;
/// where it is started, it is under way, and asking again finds it so. Once it is over it can be
/// asked for as at first.
pub proof fn law_recovery_runs_once(
    active: Set<Seq<char>>,
    d: State,
    parsed: Option<FileManifest>,
)
    ensures
        ({
            let after = p2p_chunk_network::active_after(active, d, parsed);
            let done = after.remove(d.merkle_root);
            &&& active.contains(d.merkle_root) ==> after == active
            &&& p2p_chunk_network::start_outcome(active, d, parsed) is Ok ==> {
                &&& after.contains(d.merkle_root)
                &&& p2p_chunk_network::start_outcome(after, d, parsed) == Ok::<Start, NetErr>(
                    Start::AlreadyActive,
                )
                &&& p2p_chunk_network::active_after(after, d, parsed) == after
            }
            &&& !active.contains(d.merkle_root) ==> {
                &&& done == active
                &&& p2p_chunk_network::start_outcome(done, d, parsed)
                    == p2p_chunk_network::start_outcome(active, d, parsed)
            }
        }),
{
    let after = p2p_chunk_network::active_after(active, d, parsed);
    if active.contains(d.merkle_root) {
        assert(after =~= active);
    } else {
        assert(after.remove(d.merkle_root) =~= active);
    }
    assert(after.contains(d.merkle_root) ==> after.insert(d.merkle_root) =~= after);
}

/// Asking for one recovery, or ending it, has no bearing on any other.
pub proof fn law_recoveries_are_apart(
    active: Set<Seq<char>>,
    d: State,
    parsed: Option<FileManifest>,
    other: Seq<char>,
)
    requires
        other != d.merkle_root,
    ensures
        p2p_chunk_network::active_after(active, d, parsed).contains(other) <==> active.contains(
            other,
        ),
        active.remove(d.merkle_root).contains(other) <==> active.contains(other),
{
}

/// A download whose Merkle root is not the one over the hashes of its manifest is refused, and is
/// not under way afterwards.
pub proof fn law_wrong_root_is_refused(
    active: Set<Seq<char>>,
    d: State,
    manifest: FileManifest,
)
    requires
        !active.contains(d.merkle_root),
        d.manifest is Some,
        p2p_chunk_network::root_of(manifest.hashes()) is Ok,
        p2p_chunk_network::root_of(manifest.hashes()) != Ok::<Seq<char>, NetErr>(d.merkle_root),
    ensures
        p2p_chunk_network::start_outcome(active, d, Some(manifest)) == Err::<Start, NetErr>(
            NetErr::MerkleInvalid,
        ),
        p2p_chunk_network::active_after(active, d, Some(manifest)) == active,
        !p2p_chunk_network::active_after(active, d, Some(manifest)).contains(d.merkle_root),
{
}

/// A download is started only if its Merkle root is the one over the hashes of its manifest, where
/// it has one that could be read.
pub proof fn law_started_root_is_right(
    active: Set<Seq<char>>,
    d: State,
    manifest: FileManifest,
)
    requires
        d.manifest is Some,
    ensures
        p2p_chunk_network::start_outcome(active, d, Some(manifest)) == Ok::<Start, NetErr>(
            Start::Started,
        ) ==> p2p_chunk_network::root_of(manifest.hashes()) == Ok::<Seq<char>, NetErr>(
            d.merkle_root,
        ),
{
}

/// A scan finds the state file of a partial file, whatever its name, by that of the state file and
/// by any path that ends in it, and is led back to the partial file.
pub proof fn law_scan_leads_back(name: Seq<char>, dir: Seq<char>)
    ensures
        ({
            let meta = p2p_chunk_network::meta_name(Some(name));
            p2p_chunk_network::scanned_name(Some("json"@), dir + meta, Some(meta)) == Some(name)
        }),
{
    let tail = ".chiral.chunk.meta.json"@;
    let part = ".chiral.chunk.meta"@;
    let meta = p2p_chunk_network::meta_name(Some(name));
    let path = dir + meta;
    reveal_strlit(".chiral.chunk.meta.json");
    reveal_strlit(".chiral.chunk.meta");
    let at = (dir.len() + name.len()) as int;
    assert(path.subrange(at, at + part.len()) =~= part);
    assert(meta.skip(meta.len() - tail.len()) =~= tail);
    assert(meta.take(meta.len() - tail.len()) =~= name);
}

/// A download set up from a published record is of the same file and has the same seeders, each
/// once, in the same order where the record lists none twice. It counts no bytes yet and all its
/// chunks are still to be fetched. Where there is no manifest that could be read, it is sound if
/// its chunks can be counted in a `u32`; where there is one, its chunks carry the hashes of the
/// manifest, in order, and the Merkle root is checked against these when the download is started.
pub proof fn law_metadata_sets_up(
    meta: FileMetadata,
    parsed: Option<FileManifest>,
    tmp_path: Seq<char>,
    dst_path: Seq<char>,
    now: u64,
)
    ensures
        ({
            let d = p2p_chunk_network::state_of_metadata(meta, parsed, tmp_path, dst_path, now);
            let seeders = text::texts(meta.seeders@);
            let has_manifest = meta.manifest is Some && parsed is Some;
            &&& d.merkle_root == meta.merkle_root@
            &&& d.file_name == meta.file_name@
            &&& d.file_size == meta.file_size
            &&& d.encrypted == meta.is_encrypted
            &&& d.tmp_path == tmp_path
            &&& d.dst_path == dst_path
            &&& d.updated_at == now
            &&& d.accounted()
            &&& d.verified_bytes == 0
            &&& d.chunks.filter(download::to_fetch()) == d.chunks
            &&& d.peers_distinct()
            &&& forall|p: Seq<char>| #[trigger] d.peers.contains(p) <==> seeders.contains(p)
            &&& seeders.no_duplicates() ==> d.peers == seeders
            &&& !has_manifest && chunk::fits_u32_chunks(meta.file_size) ==> d.sound()
            &&& has_manifest ==> d.chunks.map_values(|c: Chunk<Seq<char>>| c.hash)
                == parsed->0.hashes()
            &&& has_manifest ==> p2p_chunk_network::manifest_check(d, parsed) == Some(
                p2p_chunk_network::root_matches(meta.merkle_root@, parsed->0.hashes()),
            )
        }),
{
    let fresh = Download {
        encrypted: meta.is_encrypted,
        ..State::fresh(
            1,
            meta.merkle_root@,
            meta.file_name@,
            meta.file_size,
            tmp_path,
            dst_path,
            now,
        )
    };
    let has_manifest = meta.manifest is Some && parsed is Some;
    let with_chunks = if has_manifest {
        p2p_chunk_network::with_manifest(fresh, parsed->0, text::opt_text(meta.manifest))
    } else {
        p2p_chunk_network::chunks_laid_out(fresh)
    };
    let seeders = text::texts(meta.seeders@);
    let n = seeders.len() as int;
    let d = p2p_chunk_network::state_of_metadata(meta, parsed, tmp_path, dst_path, now);
    with_chunks.lemma_with_peers_frame(seeders, n, now);
    with_chunks.lemma_with_peers(seeders, n, now);
    with_chunks.lemma_with_peers_time(seeders, n, now);
    assert(seeders.take(n) =~= seeders);
    assert forall|p: Seq<char>| #[trigger] d.peers.contains(p) <==> seeders.contains(p) by {
        if seeders.contains(p) {
            let k = choose|k: int| 0 <= k < seeders.len() && seeders[k] == p;
            assert(d.peers.contains(seeders[k]));
        }
    }
    if seeders.no_duplicates() {
        with_chunks.lemma_with_new_peers(seeders, n, now);
    }
    assert forall|i: int| 0 <= i < d.chunks.len() implies (#[trigger] d.chunks[i]).state
        == ChunkState::Pending by {}
    download::lemma_total_of_unverified(d.chunks);
    lemma_all_pass(d.chunks, download::to_fetch());
    if has_manifest {
        assert(d.chunks.map_values(|c: Chunk<Seq<char>>| c.hash) =~= parsed->0.hashes());
    } else if chunk::fits_u32_chunks(meta.file_size) {
        law_layout_is_sound(fresh);
    }
}

} // verus!
