//! The words in which the effects of calls are told: how a list relates to what it lists, and a
//! download after a call to the one before it.

use crate::chunk::ChunkState;
use crate::download;
use crate::download::{Chunk, Download};
use vstd::prelude::*;

verus! {

/// How many of the first `n` elements pass a test.
pub open spec fn count<A>(s: Seq<A>, test: spec_fn(A) -> bool, n: int) -> int
    decreases n,
{
    if n <= 0 {
        0
    } else {
        count(s, test, n - 1) + if test(s[n - 1]) {
            1int
        } else {
            0
        }
    }
}

/// Whether `out` lists what `pick` makes of those elements of `s` that pass a test, in their order:
/// each stands behind as many others as pass before it, and there are no more than pass at all.
pub open spec fn lists<A, B>(
    out: Seq<B>,
    s: Seq<A>,
    test: spec_fn(A) -> bool,
    pick: spec_fn(A) -> B,
) -> bool {
    &&& out.len() == count(s, test, s.len() as int)
    &&& forall|i: int|
        #![trigger s[i]]
        0 <= i < s.len() && test(s[i]) ==> {
            &&& 0 <= count(s, test, i) < out.len()
            &&& out[count(s, test, i)] == pick(s[i])
        }
}

/// A count is never negative and never goes down, and each element that passes takes it up.
pub proof fn lemma_count_bounds<A>(s: Seq<A>, test: spec_fn(A) -> bool, n: int, m: int)
    requires
        0 <= n <= m <= s.len(),
    ensures
        0 <= count(s, test, n) <= count(s, test, m),
        count(s, test, m) <= count(s, test, n) + (m - n),
        n < m && test(s[n]) ==> count(s, test, n) < count(s, test, m),
    decreases m,
{
    if m > n {
        lemma_count_bounds(s, test, n, m - 1);
    } else if n > 0 {
        lemma_count_bounds(s, test, n - 1, m - 1);
    }
}

/// What is counted depends on the first elements alone.
pub proof fn lemma_count_prefix<A>(s: Seq<A>, t: Seq<A>, test: spec_fn(A) -> bool, n: int)
    requires
        0 <= n <= s.len(),
        n <= t.len(),
        forall|i: int| 0 <= i < n ==> s[i] == t[i],
    ensures
        count(s, test, n) == count(t, test, n),
    decreases n,
{
    if n > 0 {
        lemma_count_prefix(s, t, test, n - 1);
    }
}

/// Filtering lists what passes.
pub proof fn lemma_filter_lists<A>(s: Seq<A>, test: spec_fn(A) -> bool)
    ensures
        lists(s.filter(test), s, test, |a: A| a),
    decreases s.len(),
{
    reveal(Seq::filter);
    if s.len() > 0 {
        let rest = s.drop_last();
        let n = rest.len() as int;
        lemma_filter_lists(rest, test);
        lemma_count_prefix(s, rest, test, n);
        assert forall|i: int| #![trigger s[i]] 0 <= i < s.len() && test(s[i]) implies {
            &&& 0 <= count(s, test, i) < s.filter(test).len()
            &&& s.filter(test)[count(s, test, i)] == s[i]
        } by {
            if i < n {
                assert(rest[i] == s[i]);
                lemma_count_prefix(s, rest, test, i);
            } else {
                lemma_count_bounds(s, test, 0, n);
            }
        }
    }
}

/// The indices of those chunks that pass a test are listed in order.
pub proof fn lemma_indices_list<H>(
    chunks: Seq<Chunk<H>>,
    test: spec_fn(Chunk<H>) -> bool,
    raw: spec_fn(Chunk<H>) -> bool,
)
    requires
        forall|c: Chunk<H>| test(c) == #[trigger] raw(c),
    ensures
        lists(download::indices(chunks, test), chunks, raw, |c: Chunk<H>| c.idx),
        chunks.filter(test) == chunks.filter(raw),
{
    assert(test =~= raw);
    lemma_filter_lists(chunks, raw);
    let picked = chunks.filter(raw);
    let out = download::indices(chunks, raw);
    assert forall|i: int| #![trigger chunks[i]] 0 <= i < chunks.len() && raw(chunks[i]) implies {
        &&& 0 <= count(chunks, raw, i) < out.len()
        &&& out[count(chunks, raw, i)] == chunks[i].idx
    } by {
        assert(picked[count(chunks, raw, i)] == chunks[i]);
    }
}

/// Whether nothing of a download has changed but where its chunks stand, how many bytes count as
/// verified, and the time.
pub open spec fn same_but_chunks<H>(before: Download<H>, after: Download<H>) -> bool {
    &&& after.version == before.version
    &&& after.merkle_root == before.merkle_root
    &&& after.file_name == before.file_name
    &&& after.file_size == before.file_size
    &&& after.tmp_path == before.tmp_path
    &&& after.dst_path == before.dst_path
    &&& after.peers == before.peers
    &&& after.manifest == before.manifest
    &&& after.encrypted == before.encrypted
    &&& after.chunks.len() == before.chunks.len()
    &&& forall|i: int|
        0 <= i < before.chunks.len() ==> {
            &&& (#[trigger] after.chunks[i]).idx == before.chunks[i].idx
            &&& after.chunks[i].offset == before.chunks[i].offset
            &&& after.chunks[i].size == before.chunks[i].size
            &&& after.chunks[i].hash == before.chunks[i].hash
        }
}

/// Whether the chunk at position `idx` is now in state `state`, and nothing else has changed but
/// the count of verified bytes and the time.
pub open spec fn moved<H>(
    before: Download<H>,
    after: Download<H>,
    idx: u32,
    state: ChunkState,
) -> bool {
    &&& idx < before.chunks.len()
    &&& same_but_chunks(before, after)
    &&& after.chunks[idx as int].state == state
    &&& forall|i: int|
        0 <= i < before.chunks.len() && i != idx ==> (#[trigger] after.chunks[i]).state
            == before.chunks[i].state
}

/// Whether nothing of a download has changed but its chunks.
pub open spec fn same_but_layout<H>(before: Download<H>, after: Download<H>) -> bool {
    &&& after.version == before.version
    &&& after.merkle_root == before.merkle_root
    &&& after.file_name == before.file_name
    &&& after.file_size == before.file_size
    &&& after.tmp_path == before.tmp_path
    &&& after.dst_path == before.dst_path
    &&& after.verified_bytes == before.verified_bytes
    &&& after.peers == before.peers
    &&& after.encrypted == before.encrypted
    &&& after.updated_at == before.updated_at
}

/// Whether the chunks are those of a file of `file_size` bytes, cut every 262144 bytes: the chunk
/// at position `i` carries that index, starts at `i * 262144`, and reaches to where the next one
/// starts or to the end of the file; none has been fetched.
pub open spec fn cut_up<H>(chunks: Seq<Chunk<H>>, file_size: int) -> bool {
    &&& chunks.len() == ((file_size + 262143) / 262144) % 0x1_0000_0000
    &&& forall|i: int|
        0 <= i < chunks.len() ==> {
            &&& (#[trigger] chunks[i]).idx == i
            &&& chunks[i].offset == i * 262144
            &&& chunks[i].offset < file_size
            &&& chunks[i].offset + chunks[i].size == if (i + 1) * 262144 <= file_size {
                (i + 1) * 262144
            } else {
                file_size
            }
            &&& chunks[i].state == ChunkState::Pending
        }
}

/// Whether the `k`-th of some peers is listed neither before nor among those that come before it.
pub open spec fn is_new(listed: Seq<Seq<char>>, peers: Seq<Seq<char>>, k: int) -> bool {
    &&& forall|i: int| 0 <= i < listed.len() ==> #[trigger] listed[i] != peers[k]
    &&& forall|j: int| 0 <= j < k ==> #[trigger] peers[j] != peers[k]
}

/// How many of the first `n` of some peers are new.
pub open spec fn count_new(listed: Seq<Seq<char>>, peers: Seq<Seq<char>>, n: int) -> int
    decreases n,
{
    if n <= 0 {
        0
    } else {
        count_new(listed, peers, n - 1) + if is_new(listed, peers, n - 1) {
            1int
        } else {
            0
        }
    }
}

/// Whether `after` lists the peers of `listed` and behind them those of `peers` that are new, in
/// their order and each once.
pub open spec fn joined(
    listed: Seq<Seq<char>>,
    peers: Seq<Seq<char>>,
    after: Seq<Seq<char>>,
) -> bool {
    &&& after.len() == listed.len() + count_new(listed, peers, peers.len() as int)
    &&& forall|i: int| 0 <= i < listed.len() ==> #[trigger] after[i] == listed[i]
    &&& forall|k: int|
        #![trigger peers[k]]
        0 <= k < peers.len() && is_new(listed, peers, k) ==> {
            let at = listed.len() + count_new(listed, peers, k);
            &&& listed.len() <= at < after.len()
            &&& after[at] == peers[k]
        }
}

/// Whether `after` is `before` with the new ones of `peers` listed; the time changes only where
/// there are any, and then to `now`.
pub open spec fn listing<H>(
    before: Download<H>,
    after: Download<H>,
    peers: Seq<Seq<char>>,
    now: u64,
) -> bool {
    &&& joined(before.peers, peers, after.peers)
    &&& after.version == before.version
    &&& after.merkle_root == before.merkle_root
    &&& after.file_name == before.file_name
    &&& after.file_size == before.file_size
    &&& after.tmp_path == before.tmp_path
    &&& after.dst_path == before.dst_path
    &&& after.chunks == before.chunks
    &&& after.verified_bytes == before.verified_bytes
    &&& after.manifest == before.manifest
    &&& after.encrypted == before.encrypted
    &&& after.updated_at == if after.peers.len() == before.peers.len() {
        before.updated_at
    } else {
        now
    }
}

/// Counting further never lowers the count of new peers.
pub proof fn lemma_count_new_bounds(
    listed: Seq<Seq<char>>,
    peers: Seq<Seq<char>>,
    n: int,
    m: int,
)
    requires
        0 <= n <= m <= peers.len(),
    ensures
        0 <= count_new(listed, peers, n) <= count_new(listed, peers, m),
        n < m && is_new(listed, peers, n) ==> count_new(listed, peers, n) < count_new(
            listed,
            peers,
            m,
        ),
    decreases m,
{
    if m > n {
        lemma_count_new_bounds(listed, peers, n, m - 1);
    } else if n > 0 {
        lemma_count_new_bounds(listed, peers, n - 1, m - 1);
    }
}

/// Taking in peers one after the other lists the new ones.
pub proof fn lemma_with_peers_lists<H>(
    d: Download<H>,
    peers: Seq<Seq<char>>,
    n: int,
    now: u64,
)
    requires
        0 <= n <= peers.len(),
    ensures
        ({
            let after = d.with_peers(peers, n, now);
            &&& after.peers.len() == d.peers.len() + count_new(d.peers, peers, n)
            &&& forall|i: int| 0 <= i < d.peers.len() ==> #[trigger] after.peers[i] == d.peers[i]
            &&& forall|k: int|
                #![trigger peers[k]]
                0 <= k < n && is_new(d.peers, peers, k) ==> {
                    let at = d.peers.len() + count_new(d.peers, peers, k);
                    &&& d.peers.len() <= at < after.peers.len()
                    &&& after.peers[at] == peers[k]
                }
            &&& after.updated_at == if after.peers.len() == d.peers.len() {
                d.updated_at
            } else {
                now
            }
        }),
    decreases n,
{
    if n > 0 {
        let before = d.with_peers(peers, n - 1, now);
        let after = d.with_peers(peers, n, now);
        lemma_with_peers_lists(d, peers, n - 1, now);
        d.lemma_with_peers(peers, n - 1, now);
        lemma_count_new_bounds(d.peers, peers, 0, n - 1);
        let p = peers[n - 1];
        if is_new(d.peers, peers, n - 1) {
            if before.peers.contains(p) {
                if d.peers.contains(p) {
                    let i = choose|i: int| 0 <= i < d.peers.len() && d.peers[i] == p;
                    assert(d.peers[i] != p);
                } else {
                    let asked = peers.take(n - 1);
                    let j = choose|j: int| 0 <= j < asked.len() && asked[j] == p;
                    assert(peers[j] != p);
                }
            }
        } else if exists|i: int| 0 <= i < d.peers.len() && #[trigger] d.peers[i] == p {
            let i = choose|i: int| 0 <= i < d.peers.len() && #[trigger] d.peers[i] == p;
            assert(before.peers[i] == p);
        } else {
            let j = choose|j: int| 0 <= j < n - 1 && #[trigger] peers[j] == p;
            assert(before.peers.contains(peers[j]));
        }
        assert forall|k: int| #![trigger peers[k]] 0 <= k < n && is_new(d.peers, peers, k) implies {
            let at = d.peers.len() + count_new(d.peers, peers, k);
            &&& d.peers.len() <= at < after.peers.len()
            &&& after.peers[at] == peers[k]
        } by {
            if k < n - 1 {
                lemma_count_new_bounds(d.peers, peers, k, n - 1);
            }
        }
    }
}

/// Taking in peers is listing the new ones.
pub proof fn lemma_listing<H>(d: Download<H>, peers: Seq<Seq<char>>, now: u64)
    ensures
        listing(d, d.with_peers(peers, peers.len() as int, now), peers, now),
{
    lemma_with_peers_lists(d, peers, peers.len() as int, now);
    d.lemma_with_peers_frame(peers, peers.len() as int, now);
}

/// Taking in one peer is listing it where it is new.
pub proof fn lemma_listing_one<H>(d: Download<H>, peer: Seq<char>, now: u64)
    ensures
        listing(d, d.with_peer(peer, now), seq![peer], now),
{
    let peers = seq![peer];
    lemma_listing(d, peers, now);
    reveal_with_fuel(Download::with_peers, 2);
    assert(d.with_peers(peers, 1, now) == d.with_peer(peer, now));
}

/// The bytes of all chunks together.
pub open spec fn size_sum<H>(chunks: Seq<Chunk<H>>) -> int
    decreases chunks.len(),
{
    if chunks.len() == 0 {
        0
    } else {
        size_sum(chunks.drop_last()) + chunks.last().size
    }
}

/// Replacing one chunk by another of the same size leaves the bytes of all as they are.
pub proof fn lemma_size_update<H>(chunks: Seq<Chunk<H>>, i: int, chunk: Chunk<H>)
    requires
        0 <= i < chunks.len(),
        chunk.size == chunks[i].size,
    ensures
        size_sum(chunks.update(i, chunk)) == size_sum(chunks),
    decreases chunks.len(),
{
    let after = chunks.update(i, chunk);
    if i == chunks.len() - 1 {
        assert(after.drop_last() =~= chunks.drop_last());
    } else {
        assert(after.drop_last() =~= chunks.drop_last().update(i, chunk));
        lemma_size_update(chunks.drop_last(), i, chunk);
    }
}

/// The verified bytes are among the bytes of all chunks.
pub proof fn lemma_verified_within_size<H>(chunks: Seq<Chunk<H>>)
    ensures
        0 <= download::verified_total(chunks) <= size_sum(chunks),
    decreases chunks.len(),
{
    if chunks.len() > 0 {
        lemma_verified_within_size(chunks.drop_last());
    }
}

/// Whether a download counts no more than `base` and its verified chunks, and its chunks hold
/// `size` bytes.
pub open spec fn bounded<H>(d: Download<H>, base: int, size: int) -> bool {
    &&& 0 <= d.verified_bytes <= base + download::verified_total(d.chunks)
    &&& size_sum(d.chunks) == size
}

/// Verifying and failing chunks keeps the bound.
pub proof fn lemma_steps_bounded<H>(d: Download<H>, base: int, size: int, idx: u32, now: u64)
    requires
        0 <= base,
        bounded(d, base, size),
    ensures
        bounded(d.failed(idx, now), base, size),
        idx < d.chunks.len() && !d.has(idx, ChunkState::Verified) ==> bounded(
            d.with_verified(idx, now),
            base,
            size,
        ),
{
    if idx < d.chunks.len() {
        let bad = Chunk { state: ChunkState::Failed, ..d.chunks[idx as int] };
        let good = Chunk { state: ChunkState::Verified, ..d.chunks[idx as int] };
        download::lemma_total_update(d.chunks, idx as int, bad);
        download::lemma_total_update(d.chunks, idx as int, good);
        lemma_size_update(d.chunks, idx as int, bad);
        lemma_size_update(d.chunks, idx as int, good);
        download::lemma_total_bounds(d.failed(idx, now).chunks);
    }
}

/// Every element of what filtering leaves was listed for one that passes.
pub proof fn lemma_filter_comes_from<A>(s: Seq<A>, test: spec_fn(A) -> bool, k: int)
    requires
        0 <= k < s.filter(test).len(),
    ensures
        exists|i: int|
            0 <= i < s.len() && test(#[trigger] s[i]) && count(s, test, i) == k && s[i]
                == s.filter(test)[k],
    decreases s.len(),
{
    reveal(Seq::filter);
    let rest = s.drop_last();
    let n = rest.len() as int;
    lemma_filter_lists(rest, test);
    lemma_count_prefix(s, rest, test, n);
    if k < rest.filter(test).len() {
        lemma_filter_comes_from(rest, test, k);
        let i = choose|i: int|
            0 <= i < rest.len() && test(#[trigger] rest[i]) && count(rest, test, i) == k
                && rest[i] == rest.filter(test)[k];
        lemma_count_prefix(s, rest, test, i);
        assert(s[i] == rest[i]);
    } else {
        assert(test(s[n]));
        assert(count(s, test, n) == k);
    }
}

/// Whether the `i`-th chunk is the last of those that pass a test to carry the index `p`.
pub open spec fn last_naming<H>(
    chunks: Seq<Chunk<H>>,
    test: spec_fn(Chunk<H>) -> bool,
    p: int,
    i: int,
) -> bool {
    &&& 0 <= i < chunks.len()
    &&& test(chunks[i])
    &&& chunks[i].idx == p
    &&& forall|j: int| i < j < chunks.len() && test(#[trigger] chunks[j]) ==> chunks[j].idx != p
}

/// Whether none of the chunks that pass a test carries the index `p`.
pub open spec fn none_naming<H>(
    chunks: Seq<Chunk<H>>,
    test: spec_fn(Chunk<H>) -> bool,
    p: int,
) -> bool {
    forall|j: int| 0 <= j < chunks.len() && test(#[trigger] chunks[j]) ==> chunks[j].idx != p
}

/// Whether the `k`-th of the first `n` indices is the last of them to be `p`.
pub open spec fn last_among(idxs: Seq<u32>, n: int, p: int, k: int) -> bool {
    &&& 0 <= k < n
    &&& idxs[k] == p
    &&& forall|j: int| k < j < n ==> #[trigger] idxs[j] != p
}

/// Whether none of the first `n` indices is `p`.
pub open spec fn none_among(idxs: Seq<u32>, n: int, p: int) -> bool {
    forall|j: int| 0 <= j < n ==> #[trigger] idxs[j] != p
}

/// The last chunk to carry an index is listed as the last to.
pub proof fn lemma_last_is_listed<H>(
    chunks: Seq<Chunk<H>>,
    test: spec_fn(Chunk<H>) -> bool,
    p: int,
    i: int,
)
    requires
        last_naming(chunks, test, p, i),
    ensures
        ({
            let idxs = download::indices(chunks, test);
            last_among(idxs, idxs.len() as int, p, count(chunks, test, i))
        }),
{
    let idxs = download::indices(chunks, test);
    let k = count(chunks, test, i);
    lemma_indices_list(chunks, test, test);
    assert(idxs[k] == chunks[i].idx);
    assert forall|m: int| k < m < idxs.len() implies #[trigger] idxs[m] != p by {
        lemma_filter_comes_from(chunks, test, m);
        let j = choose|j: int|
            0 <= j < chunks.len() && test(#[trigger] chunks[j]) && count(chunks, test, j) == m
                && chunks[j] == chunks.filter(test)[m];
        if j <= i {
            lemma_count_bounds(chunks, test, j, i);
        }
    }
}

/// An index that no chunk carries is not listed.
pub proof fn lemma_none_is_listed<H>(
    chunks: Seq<Chunk<H>>,
    test: spec_fn(Chunk<H>) -> bool,
    p: int,
)
    requires
        none_naming(chunks, test, p),
    ensures
        ({
            let idxs = download::indices(chunks, test);
            none_among(idxs, idxs.len() as int, p)
        }),
{
    let idxs = download::indices(chunks, test);
    assert forall|m: int| 0 <= m < idxs.len() implies #[trigger] idxs[m] != p by {
        lemma_filter_comes_from(chunks, test, m);
        let j = choose|j: int|
            0 <= j < chunks.len() && test(#[trigger] chunks[j]) && count(chunks, test, j) == m
                && chunks[j] == chunks.filter(test)[m];
        assert(chunks[j].idx != p);
    }
}

/// How many bytes are counted as verified beyond those of the verified chunks.
pub open spec fn excess<H>(d: Download<H>) -> int {
    d.verified_bytes - download::verified_total(d.chunks)
}

/// Verifying and failing chunks leaves as many bytes counted beyond those of the verified chunks as
/// before, where there were not too few.
pub proof fn lemma_steps_keep_excess<H>(d: Download<H>, idx: u32, now: u64)
    requires
        excess(d) >= 0,
    ensures
        excess(d.failed(idx, now)) == excess(d),
        idx < d.chunks.len() && !d.has(idx, ChunkState::Verified) ==> excess(
            d.with_verified(idx, now),
        ) == excess(d),
{
    if idx < d.chunks.len() {
        let bad = Chunk { state: ChunkState::Failed, ..d.chunks[idx as int] };
        let good = Chunk { state: ChunkState::Verified, ..d.chunks[idx as int] };
        download::lemma_total_update(d.chunks, idx as int, bad);
        download::lemma_total_update(d.chunks, idx as int, good);
        download::lemma_total_bounds(d.chunks);
    }
}

} // verus!
