//! A download as a mathematical value, with the steps that both recovery modules share.

use crate::chunk;
use crate::chunk::{ChunkState, CHUNK_SIZE};
use vstd::prelude::*;

verus! {

/// A chunk of a download; `H` is what is known of its hash.
#[verifier::ext_equal]
pub struct Chunk<H> {
    pub idx: u32,
    pub offset: u64,
    pub size: u32,
    pub hash: H,
    pub state: ChunkState,
}

/// A download: what is fetched, from whom, and how far it has come.
#[verifier::ext_equal]
pub struct Download<H> {
    pub version: u32,
    pub merkle_root: Seq<char>,
    pub file_name: Seq<char>,
    pub file_size: u64,
    pub tmp_path: Seq<char>,
    pub dst_path: Seq<char>,
    pub chunks: Seq<Chunk<H>>,
    pub verified_bytes: int,
    pub peers: Seq<Seq<char>>,
    pub manifest: Option<Seq<char>>,
    pub encrypted: bool,
    pub updated_at: u64,
}

/// A chunk as it is laid out for a file: position `i`, with nothing fetched yet.
pub open spec fn fresh_chunk<H>(i: int, file_size: u64, hash: H) -> Chunk<H> {
    Chunk {
        idx: i as u32,
        offset: chunk::chunk_offset(i) as u64,
        size: chunk::chunk_len(i, file_size as int) as u32,
        hash,
        state: ChunkState::Pending,
    }
}

/// The test for chunks that are still to be fetched.
pub open spec fn to_fetch<H>() -> spec_fn(Chunk<H>) -> bool {
    |c: Chunk<H>| c.state == ChunkState::Pending || c.state == ChunkState::Failed
}

/// The test for chunks in a given state.
pub open spec fn in_state<H>(state: ChunkState) -> spec_fn(Chunk<H>) -> bool {
    |c: Chunk<H>| c.state == state
}

/// The indices of those of `chunks` that pass `test`, in order.
pub open spec fn indices<H>(chunks: Seq<Chunk<H>>, test: spec_fn(Chunk<H>) -> bool) -> Seq<u32> {
    chunks.filter(test).map_values(|c: Chunk<H>| c.idx)
}

/// The bytes in those of `chunks` that are verified.
pub open spec fn verified_total<H>(chunks: Seq<Chunk<H>>) -> int
    decreases chunks.len(),
{
    if chunks.len() == 0 {
        0
    } else {
        verified_total(chunks.drop_last()) + if chunks.last().state == ChunkState::Verified {
            chunks.last().size as int
        } else {
            0
        }
    }
}

impl<H> Download<H> {
    /// The download before anything is known of its chunks or of who has them.
    pub open spec fn fresh(
        version: u32,
        merkle_root: Seq<char>,
        file_name: Seq<char>,
        file_size: u64,
        tmp_path: Seq<char>,
        dst_path: Seq<char>,
        now: u64,
    ) -> Download<H> {
        Download {
            version,
            merkle_root,
            file_name,
            file_size,
            tmp_path,
            dst_path,
            chunks: Seq::empty(),
            verified_bytes: 0,
            peers: Seq::empty(),
            manifest: None,
            encrypted: false,
            updated_at: now,
        }
    }

    /// Whether there is a chunk at position `idx`, in state `state`.
    pub open spec fn has(self, idx: u32, state: ChunkState) -> bool {
        idx < self.chunks.len() && self.chunks[idx as int].state == state
    }

    /// The download with the chunk at position `idx` in state `state`.
    pub open spec fn with_state(self, idx: u32, state: ChunkState, now: u64) -> Download<H> {
        let chunk = Chunk { state, ..self.chunks[idx as int] };
        Download { chunks: self.chunks.update(idx as int, chunk), updated_at: now, ..self }
    }

    /// The download with the chunk at position `idx` verified and its bytes counted.
    pub open spec fn with_verified(self, idx: u32, now: u64) -> Download<H> {
        Download {
            verified_bytes: self.verified_bytes + self.chunks[idx as int].size,
            ..self.with_state(idx, ChunkState::Verified, now)
        }
    }

    /// The download with the chunk at position `idx` failed, where there is one. The bytes of a
    /// verified chunk are no longer counted; the count stops at zero.
    pub open spec fn failed(self, idx: u32, now: u64) -> Download<H> {
        if idx >= self.chunks.len() {
            self
        } else {
            let left = if self.has(idx, ChunkState::Verified) {
                self.verified_bytes - self.chunks[idx as int].size
            } else {
                self.verified_bytes
            };
            Download {
                verified_bytes: if left < 0 { 0 } else { left },
                ..self.with_state(idx, ChunkState::Failed, now)
            }
        }
    }

    /// Whether the bytes of the chunk at position `idx` can be counted within a `u64`.
    pub open spec fn has_room_for(self, idx: u32) -> bool {
        self.verified_bytes + self.chunks[idx as int].size <= u64::MAX
    }

    /// The download with `peer` at the end of the list of peers, unless it is there already.
    pub open spec fn with_peer(self, peer: Seq<char>, now: u64) -> Download<H> {
        if self.peers.contains(peer) {
            self
        } else {
            Download { peers: self.peers.push(peer), updated_at: now, ..self }
        }
    }

    /// The download with the first `n` of `peers` taken in, one after the other.
    pub open spec fn with_peers(self, peers: Seq<Seq<char>>, n: int, now: u64) -> Download<H>
        decreases n,
    {
        if n <= 0 {
            self
        } else {
            self.with_peers(peers, n - 1, now).with_peer(peers[n - 1], now)
        }
    }

    /// Taking in peers changes nothing but the list of peers and the time.
    pub proof fn lemma_with_peers_frame(self, peers: Seq<Seq<char>>, n: int, now: u64)
        ensures
            ({
                let after = self.with_peers(peers, n, now);
                after == (Download { peers: after.peers, updated_at: after.updated_at, ..self })
            }),
        decreases n,
    {
        if n > 0 {
            self.lemma_with_peers_frame(peers, n - 1, now);
        }
    }

    /// Whether every chunk is verified.
    pub open spec fn all_verified(self) -> bool {
        forall|i: int|
            0 <= i < self.chunks.len() ==> (#[trigger] self.chunks[i]).state
                == ChunkState::Verified
    }

    /// The indices of the chunks that are still to be fetched.
    pub open spec fn pending(self) -> Seq<u32> {
        indices(self.chunks, to_fetch())
    }

    /// Whether the bytes that are counted are those of the verified chunks.
    pub open spec fn accounted(self) -> bool {
        self.verified_bytes == verified_total(self.chunks)
    }

    /// Whether each chunk carries its position as its index.
    pub open spec fn indexed(self) -> bool {
        &&& self.chunks.len() <= u32::MAX
        &&& forall|i: int| 0 <= i < self.chunks.len() ==> (#[trigger] self.chunks[i]).idx == i
    }

    /// Whether the chunks are the ones that the file needs, end to end.
    pub open spec fn laid_out(self) -> bool {
        &&& self.chunks.len() == chunk::chunks_needed(self.file_size as int)
        &&& self.indexed()
        &&& forall|i: int|
            0 <= i < self.chunks.len() ==> {
                &&& (#[trigger] self.chunks[i]).offset == chunk::chunk_offset(i)
                &&& self.chunks[i].size == chunk::chunk_len(i, self.file_size as int)
            }
    }

    /// Whether the chunks cover the file: they lie end to end from its start to its last byte, and
    /// each holds at least one byte and at most `CHUNK_SIZE`.
    pub open spec fn covers_file(self) -> bool {
        let n = self.chunks.len();
        &&& n == 0 <==> self.file_size == 0
        &&& n > 0 ==> self.chunks[0].offset == 0
        &&& n > 0 ==> self.chunks[n - 1].offset + self.chunks[n - 1].size == self.file_size
        &&& forall|i: int, j: int|
            0 <= i < n && 0 <= j < n && j == i + 1 ==> (#[trigger] self.chunks[i]).offset
                + self.chunks[i].size == (#[trigger] self.chunks[j]).offset
        &&& forall|i: int| 0 <= i < n ==> 0 < (#[trigger] self.chunks[i]).size <= CHUNK_SIZE
    }

    /// Chunks that are laid out for a file cover it.
    pub proof fn lemma_laid_out_covers(self)
        requires
            self.laid_out(),
        ensures
            self.covers_file(),
    {
        let size = self.file_size as int;
        let n = self.chunks.len() as int;
        chunk::lemma_chunks_cover_file(size);
        assert forall|i: int, j: int| 0 <= i < n && 0 <= j < n && j == i + 1 implies (
        #[trigger] self.chunks[i]).offset + self.chunks[i].size == (
        #[trigger] self.chunks[j]).offset by {
            assert(self.chunks[i].size == chunk::chunk_len(i, size));
        }
        assert forall|i: int| 0 <= i < n implies 0 < (#[trigger] self.chunks[i]).size
            <= CHUNK_SIZE by {
            assert(self.chunks[i].size == chunk::chunk_len(i, size));
        }
        if n > 0 {
            assert(self.chunks[n - 1].size == chunk::chunk_len(n - 1, size));
        }
    }

    /// A sound download: laid out for its file, with the verified bytes counted.
    pub open spec fn sound(self) -> bool {
        self.laid_out() && self.accounted()
    }

    /// Whether no peer is listed twice.
    pub open spec fn peers_distinct(self) -> bool {
        self.peers.no_duplicates()
    }
}

/// How many of the first `n` are true.
pub open spec fn count_true(pass: Seq<bool>, n: int) -> int
    decreases n,
{
    if n <= 0 {
        0
    } else {
        count_true(pass, n - 1) + if pass[n - 1] {
            1int
        } else {
            0
        }
    }
}

/// Filtering one element more adds that element where it passes.
pub proof fn lemma_filter_step<A>(s: Seq<A>, i: int, test: spec_fn(A) -> bool)
    requires
        0 <= i < s.len(),
    ensures
        s.take(i + 1).filter(test) == if test(s[i]) {
            s.take(i).filter(test).push(s[i])
        } else {
            s.take(i).filter(test)
        },
{
    reveal(Seq::filter);
    assert(s.take(i + 1).drop_last() =~= s.take(i));
}

/// Replacing one chunk by another of the same size moves its bytes in or out of the total.
pub proof fn lemma_total_update<H>(chunks: Seq<Chunk<H>>, i: int, chunk: Chunk<H>)
    requires
        0 <= i < chunks.len(),
        chunk.size == chunks[i].size,
    ensures
        verified_total(chunks.update(i, chunk)) == verified_total(chunks) + (if chunk.state
            == ChunkState::Verified {
            chunk.size as int
        } else {
            0
        }) - (if chunks[i].state == ChunkState::Verified {
            chunk.size as int
        } else {
            0
        }),
    decreases chunks.len(),
{
    let after = chunks.update(i, chunk);
    if i == chunks.len() - 1 {
        assert(after.drop_last() =~= chunks.drop_last());
    } else {
        assert(after.drop_last() =~= chunks.drop_last().update(i, chunk));
        lemma_total_update(chunks.drop_last(), i, chunk);
    }
}

/// The total is never negative, and counts a verified chunk in full.
pub proof fn lemma_total_bounds<H>(chunks: Seq<Chunk<H>>)
    ensures
        0 <= verified_total(chunks),
        forall|i: int|
            0 <= i < chunks.len() && (#[trigger] chunks[i]).state == ChunkState::Verified
                ==> chunks[i].size <= verified_total(chunks),
    decreases chunks.len(),
{
    if chunks.len() > 0 {
        lemma_total_bounds(chunks.drop_last());
        assert forall|i: int|
            0 <= i < chunks.len() && (#[trigger] chunks[i]).state
                == ChunkState::Verified implies chunks[i].size <= verified_total(chunks) by {
            if i < chunks.len() - 1 {
                assert(chunks.drop_last()[i] == chunks[i]);
            }
        }
    }
}

/// No chunk is verified where none is in that state, and then the total is zero.
pub proof fn lemma_total_of_unverified<H>(chunks: Seq<Chunk<H>>)
    requires
        forall|i: int|
            0 <= i < chunks.len() ==> (#[trigger] chunks[i]).state != ChunkState::Verified,
    ensures
        verified_total(chunks) == 0,
    decreases chunks.len(),
{
    if chunks.len() > 0 {
        assert forall|i: int| 0 <= i < chunks.drop_last().len() implies (
        #[trigger] chunks.drop_last()[i]).state != ChunkState::Verified by {
            assert(chunks.drop_last()[i] == chunks[i]);
        }
        lemma_total_of_unverified(chunks.drop_last());
    }
}

/// For chunks that lie end to end in a file, the total is at most the bytes they hold, and is all
/// of them where every chunk is verified.
pub proof fn lemma_total_in_file<H>(chunks: Seq<Chunk<H>>, file_size: int)
    requires
        forall|i: int|
            0 <= i < chunks.len() ==> (#[trigger] chunks[i]).size == chunk::chunk_len(i, file_size),
    ensures
        verified_total(chunks) <= chunk::bytes_before(chunks.len() as int, file_size),
        (forall|i: int|
            0 <= i < chunks.len() ==> (#[trigger] chunks[i]).state == ChunkState::Verified)
            ==> verified_total(chunks) == chunk::bytes_before(chunks.len() as int, file_size),
        verified_total(chunks) == chunk::bytes_before(chunks.len() as int, file_size) ==> (
        forall|i: int|
            0 <= i < chunks.len() && (#[trigger] chunks[i]).size > 0 ==> chunks[i].state
                == ChunkState::Verified),
    decreases chunks.len(),
{
    if chunks.len() > 0 {
        let rest = chunks.drop_last();
        assert forall|i: int| 0 <= i < rest.len() implies (#[trigger] rest[i]).size
            == chunk::chunk_len(i, file_size) by {
            assert(rest[i] == chunks[i]);
        }
        lemma_total_in_file(rest, file_size);
        if forall|i: int|
            0 <= i < chunks.len() ==> (#[trigger] chunks[i]).state == ChunkState::Verified {
            assert forall|i: int| 0 <= i < rest.len() implies (#[trigger] rest[i]).state
                == ChunkState::Verified by {
                assert(rest[i] == chunks[i]);
            }
        }
        if verified_total(chunks) == chunk::bytes_before(chunks.len() as int, file_size) {
            assert forall|i: int|
                0 <= i < chunks.len() && (#[trigger] chunks[i]).size > 0 implies chunks[i].state
                == ChunkState::Verified by {
                if i < rest.len() {
                    assert(rest[i] == chunks[i]);
                }
            }
        }
    }
}

/// The counts are never negative and never exceed the number counted.
pub proof fn lemma_count_true_bounds(pass: Seq<bool>, n: int)
    requires
        0 <= n <= pass.len(),
    ensures
        0 <= count_true(pass, n) <= n,
    decreases n,
{
    if n > 0 {
        lemma_count_true_bounds(pass, n - 1);
    }
}

impl<H> Download<H> {
    /// Moving a chunk from one state to another leaves the layout as it is.
    pub proof fn lemma_state_keeps_layout(self, idx: u32, state: ChunkState, now: u64)
        requires
            idx < self.chunks.len(),
        ensures
            self.laid_out() ==> self.with_state(idx, state, now).laid_out(),
            self.indexed() ==> self.with_state(idx, state, now).indexed(),
    {
    }

    /// Moving a chunk between states other than verified leaves the count right.
    pub proof fn lemma_moved_accounted(self, idx: u32, state: ChunkState, now: u64)
        requires
            idx < self.chunks.len(),
            self.accounted(),
            !self.has(idx, ChunkState::Verified),
            state != ChunkState::Verified,
        ensures
            self.with_state(idx, state, now).accounted(),
    {
        let chunk = Chunk { state, ..self.chunks[idx as int] };
        lemma_total_update(self.chunks, idx as int, chunk);
    }

    /// Verifying a chunk that was not verified leaves the count right.
    pub proof fn lemma_verified_accounted(self, idx: u32, now: u64)
        requires
            idx < self.chunks.len(),
            self.accounted(),
            !self.has(idx, ChunkState::Verified),
        ensures
            self.with_verified(idx, now).accounted(),
    {
        let chunk = Chunk { state: ChunkState::Verified, ..self.chunks[idx as int] };
        lemma_total_update(self.chunks, idx as int, chunk);
    }

    /// Failing a chunk leaves the count right.
    pub proof fn lemma_failed_accounted(self, idx: u32, now: u64)
        requires
            self.accounted(),
        ensures
            self.failed(idx, now).accounted(),
    {
        if idx < self.chunks.len() {
            let chunk = Chunk { state: ChunkState::Failed, ..self.chunks[idx as int] };
            lemma_total_update(self.chunks, idx as int, chunk);
            lemma_total_bounds(self.chunks);
        }
    }

    /// A sound download counts no more bytes than the file has, and counts all of them exactly
    /// where every chunk is verified.
    pub proof fn lemma_sound_bounds(self)
        requires
            self.sound(),
        ensures
            0 <= self.verified_bytes <= self.file_size,
            self.verified_bytes == self.file_size <==> self.all_verified(),
    {
        lemma_total_bounds(self.chunks);
        lemma_total_in_file(self.chunks, self.file_size as int);
        chunk::lemma_chunks_cover_file(self.file_size as int);
        self.lemma_laid_out_covers();
    }

    /// In a sound download the bytes of a chunk that is not verified can always be counted.
    pub proof fn lemma_sound_has_room(self, idx: u32)
        requires
            self.sound(),
            idx < self.chunks.len(),
            !self.has(idx, ChunkState::Verified),
        ensures
            self.has_room_for(idx),
    {
        let after = self.with_verified(idx, self.updated_at);
        self.lemma_verified_accounted(idx, self.updated_at);
        self.lemma_state_keeps_layout(idx, ChunkState::Verified, self.updated_at);
        assert(after.laid_out());
        after.lemma_sound_bounds();
    }
}

/// The indices of the chunks that pass a test are those of a chunk that passes it.
pub proof fn lemma_indices_contains<H>(
    chunks: Seq<Chunk<H>>,
    test: spec_fn(Chunk<H>) -> bool,
    idx: u32,
)
    ensures
        indices(chunks, test).contains(idx) <==> exists|i: int|
            0 <= i < chunks.len() && test(#[trigger] chunks[i]) && chunks[i].idx == idx,
    decreases chunks.len(),
{
    reveal(Seq::filter);
    let all = indices(chunks, test);
    if chunks.len() > 0 {
        let rest = chunks.drop_last();
        let last = chunks.len() - 1;
        lemma_indices_contains(rest, test, idx);
        if test(chunks[last]) {
            assert(all =~= indices(rest, test).push(chunks[last].idx));
            if all.contains(idx) && chunks[last].idx != idx {
                let k = choose|k: int| 0 <= k < all.len() && all[k] == idx;
                assert(indices(rest, test)[k] == idx);
            }
            if chunks[last].idx == idx {
                assert(all[all.len() - 1] == idx);
            } else if indices(rest, test).contains(idx) {
                let k = choose|k: int|
                    0 <= k < indices(rest, test).len() && indices(rest, test)[k] == idx;
                assert(all[k] == idx);
            }
        } else {
            assert(all =~= indices(rest, test));
        }
        if exists|i: int|
            0 <= i < rest.len() && test(#[trigger] rest[i]) && rest[i].idx == idx {
            let i = choose|i: int|
                0 <= i < rest.len() && test(#[trigger] rest[i]) && rest[i].idx == idx;
            assert(chunks[i] == rest[i]);
        }
        if exists|i: int|
            0 <= i < chunks.len() && test(#[trigger] chunks[i]) && chunks[i].idx == idx {
            let i = choose|i: int|
                0 <= i < chunks.len() && test(#[trigger] chunks[i]) && chunks[i].idx == idx;
            if i < last {
                assert(rest[i] == chunks[i]);
            }
        }
    }
}

/// Of chunks that carry their positions, the index of one is listed exactly where it passes the
/// test.
pub proof fn lemma_indices_of_indexed<H>(
    d: Download<H>,
    test: spec_fn(Chunk<H>) -> bool,
    idx: u32,
)
    requires
        d.indexed(),
    ensures
        indices(d.chunks, test).contains(idx) <==> idx < d.chunks.len() && test(
            d.chunks[idx as int],
        ),
{
    lemma_indices_contains(d.chunks, test, idx);
}

/// Of chunks that carry their positions, no index is listed twice, and they are listed in order.
pub proof fn lemma_indices_increase<H>(chunks: Seq<Chunk<H>>, test: spec_fn(Chunk<H>) -> bool)
    requires
        forall|i: int| 0 <= i < chunks.len() ==> (#[trigger] chunks[i]).idx == i,
    ensures
        forall|i: int|
            0 <= i < indices(chunks, test).len() ==> (#[trigger] indices(chunks, test)[i])
                < chunks.len(),
        forall|i: int, j: int|
            0 <= i < j < indices(chunks, test).len() ==> #[trigger] indices(chunks, test)[i]
                < #[trigger] indices(chunks, test)[j],
    decreases chunks.len(),
{
    reveal(Seq::filter);
    if chunks.len() > 0 {
        let rest = chunks.drop_last();
        let last = chunks.len() - 1;
        assert forall|i: int| 0 <= i < rest.len() implies (#[trigger] rest[i]).idx == i by {
            assert(rest[i] == chunks[i]);
        }
        lemma_indices_increase(rest, test);
        if test(chunks[last]) {
            assert(indices(chunks, test) =~= indices(rest, test).push(chunks[last].idx));
        } else {
            assert(indices(chunks, test) =~= indices(rest, test));
        }
    }
}

/// Of chunks that carry their positions, one that passes a test stands where its index says.
pub proof fn lemma_filtered_at<H>(
    chunks: Seq<Chunk<H>>,
    test: spec_fn(Chunk<H>) -> bool,
    k: int,
)
    requires
        forall|i: int| 0 <= i < chunks.len() ==> (#[trigger] chunks[i]).idx == i,
        0 <= k < chunks.filter(test).len(),
    ensures
        test(chunks.filter(test)[k]),
        chunks.filter(test)[k].idx < chunks.len(),
        chunks[chunks.filter(test)[k].idx as int] == chunks.filter(test)[k],
    decreases chunks.len(),
{
    reveal(Seq::filter);
    let rest = chunks.drop_last();
    if k < rest.filter(test).len() {
        assert forall|i: int| 0 <= i < rest.len() implies (#[trigger] rest[i]).idx == i by {
            assert(rest[i] == chunks[i]);
        }
        lemma_filtered_at(rest, test, k);
    } else {
        assert(chunks[chunks.len() - 1].idx == chunks.len() - 1);
    }
}

impl<H> Download<H> {
    /// Listing a peer keeps those listed before it, in their order, and lists no peer twice.
    pub proof fn lemma_with_peer(self, peer: Seq<char>, now: u64)
        ensures
            self.with_peer(peer, now).peers.contains(peer),
            self.peers.is_prefix_of(self.with_peer(peer, now).peers),
            self.peers_distinct() ==> self.with_peer(peer, now).peers_distinct(),
    {
        let after = self.with_peer(peer, now).peers;
        if !self.peers.contains(peer) {
            assert(after[after.len() - 1] == peer);
        }
    }

    /// Listing peers keeps those listed before them, in their order, lists no peer twice, and lists
    /// those that were asked for and no others.
    pub proof fn lemma_with_peers(self, peers: Seq<Seq<char>>, n: int, now: u64)
        requires
            0 <= n <= peers.len(),
        ensures
            self.peers.is_prefix_of(self.with_peers(peers, n, now).peers),
            self.peers_distinct() ==> self.with_peers(peers, n, now).peers_distinct(),
            forall|k: int|
                0 <= k < n ==> self.with_peers(peers, n, now).peers.contains(#[trigger] peers[k]),
            forall|p: Seq<char>|
                #[trigger] self.with_peers(peers, n, now).peers.contains(p)
                    ==> self.peers.contains(p) || peers.take(n).contains(p),
        decreases n,
    {
        if n > 0 {
            let before = self.with_peers(peers, n - 1, now);
            let after = self.with_peers(peers, n, now);
            self.lemma_with_peers(peers, n - 1, now);
            before.lemma_with_peer(peers[n - 1], now);
            assert forall|k: int| 0 <= k < n implies after.peers.contains(
                #[trigger] peers[k],
            ) by {
                if k < n - 1 {
                    let at = choose|j: int|
                        0 <= j < before.peers.len() && before.peers[j] == peers[k];
                    assert(after.peers[at] == peers[k]);
                }
            }
            assert forall|p: Seq<char>| #[trigger] after.peers.contains(p) implies
                self.peers.contains(p) || peers.take(n).contains(p) by {
                if before.peers.contains(p) {
                    if !self.peers.contains(p) {
                        let asked = peers.take(n - 1);
                        let at = choose|j: int| 0 <= j < asked.len() && asked[j] == p;
                        assert(peers.take(n)[at] == p);
                    }
                } else {
                    assert(p == peers[n - 1]);
                    assert(peers.take(n)[n - 1] == p);
                }
            }
        }
    }

    /// Listing peers at the time of the last change leaves that time as it is.
    pub proof fn lemma_with_peers_time(self, peers: Seq<Seq<char>>, n: int, now: u64)
        requires
            self.updated_at == now,
        ensures
            self.with_peers(peers, n, now).updated_at == now,
        decreases n,
    {
        if n > 0 {
            self.lemma_with_peers_time(peers, n - 1, now);
        }
    }

    /// Peers that are new and differ from each other are all listed, in their order.
    pub proof fn lemma_with_new_peers(self, peers: Seq<Seq<char>>, n: int, now: u64)
        requires
            0 <= n <= peers.len(),
            self.peers.len() == 0,
            peers.no_duplicates(),
        ensures
            self.with_peers(peers, n, now).peers == peers.take(n),
        decreases n,
    {
        if n > 0 {
            self.lemma_with_new_peers(peers, n - 1, now);
            let before = peers.take(n - 1);
            assert(!before.contains(peers[n - 1]));
            assert(peers.take(n) =~= before.push(peers[n - 1]));
        } else {
            assert(peers.take(n) =~= self.peers);
        }
    }

    /// Peers that are listed already change nothing.
    pub proof fn lemma_with_known_peers(self, peers: Seq<Seq<char>>, n: int, now: u64)
        requires
            0 <= n <= peers.len(),
            forall|k: int| 0 <= k < n ==> self.peers.contains(#[trigger] peers[k]),
        ensures
            self.with_peers(peers, n, now) == self,
        decreases n,
    {
        if n > 0 {
            self.lemma_with_known_peers(peers, n - 1, now);
        }
    }
}

/// A weaker test passes at least as many elements.
pub proof fn lemma_filter_weaker<A>(
    s: Seq<A>,
    strong: spec_fn(A) -> bool,
    weak: spec_fn(A) -> bool,
)
    requires
        forall|a: A| #[trigger] strong(a) ==> weak(a),
    ensures
        s.filter(strong).len() <= s.filter(weak).len() <= s.len(),
    decreases s.len(),
{
    reveal(Seq::filter);
    if s.len() > 0 {
        lemma_filter_weaker(s.drop_last(), strong, weak);
    }
}

} // verus!
