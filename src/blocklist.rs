//! A guild's blocklist: a set of hashes packed into one blob of concatenated encodings.
use vstd::prelude::*;

use crate::hash::{decode, FixedHash};
use crate::HASH_BYTES;

verus! {

/// Why a guild's blocklist could not be read or written.
#[derive(Clone, Copy, Debug, PartialEq, Eq, Structural)]
pub enum StoreError {
    /// No profile row exists for the guild.
    NotFound,
    /// The stored blob is not a whole number of hash encodings.
    Corrupt,
    /// Storage itself failed.
    Io,
}

/// The byte views of a sequence of hashes.
pub open spec fn hash_views(hs: Seq<FixedHash>) -> Seq<Seq<u8>> {
    hs.map_values(|h: FixedHash| h@)
}

/// Every element is the encoding of one hash.
pub open spec fn all_hash_sized(hs: Seq<Seq<u8>>) -> bool {
    forall|i: int| 0 <= i < hs.len() ==> #[trigger] hs[i].len() == HASH_BYTES
}

/// The blob that stores `hs`: their encodings, one after another, without delimiters.
pub open spec fn blob_of(hs: Seq<Seq<u8>>) -> Seq<u8>
    decreases hs.len(),
{
    if hs.len() == 0 {
        Seq::empty()
    } else {
        blob_of(hs.drop_last()) + hs.last()
    }
}

/// The consecutive `HASH_BYTES`-byte chunks of a blob, a trailing shorter part left out.
pub open spec fn chunks_of(blob: Seq<u8>) -> Seq<Seq<u8>>
    decreases blob.len(),
{
    if blob.len() < HASH_BYTES {
        Seq::empty()
    } else {
        chunks_of(blob.subrange(0, blob.len() - HASH_BYTES)).push(
            blob.subrange(blob.len() - HASH_BYTES, blob.len() as int),
        )
    }
}

/// The hashes that a stored blob holds, or `None` when its length is not a multiple of
/// `HASH_BYTES`.
pub open spec fn stored_hashes(blob: Seq<u8>) -> Option<Seq<Seq<u8>>> {
    if blob.len() % (HASH_BYTES as nat) == 0 {
        Some(chunks_of(blob))
    } else {
        None
    }
}

/// The hashes of `added` that are neither in `stored` nor repeated earlier in `added`, in the
/// order of their first occurrence.
pub open spec fn fresh_hashes(stored: Seq<Seq<u8>>, added: Seq<Seq<u8>>) -> Seq<Seq<u8>>
    decreases added.len(),
{
    if added.len() == 0 {
        Seq::empty()
    } else {
        let prev = fresh_hashes(stored, added.drop_last());
        let h = added.last();
        if stored.contains(h) || prev.contains(h) {
            prev
        } else {
            prev.push(h)
        }
    }
}

/// The hash list written back by a merge: the fresh hashes first, then the stored ones.
pub open spec fn merged_hashes(stored: Seq<Seq<u8>>, added: Seq<Seq<u8>>) -> Seq<Seq<u8>> {
    fresh_hashes(stored, added) + stored
}

/// A blob of `n` hashes is `n * HASH_BYTES` bytes long.
pub proof fn lemma_blob_len(hs: Seq<Seq<u8>>)
    requires
        all_hash_sized(hs),
    ensures
        blob_of(hs).len() == hs.len() * HASH_BYTES,
    decreases hs.len(),
{
    if hs.len() > 0 {
        lemma_blob_len(hs.drop_last());
    }
}

proof fn lemma_chunks_of_blob(hs: Seq<Seq<u8>>)
    requires
        all_hash_sized(hs),
    ensures
        chunks_of(blob_of(hs)) == hs,
    decreases hs.len(),
{
    if hs.len() > 0 {
        let front = hs.drop_last();
        let b = blob_of(hs);
        lemma_blob_len(hs);
        lemma_blob_len(front);
        lemma_chunks_of_blob(front);
        assert(b.subrange(0, b.len() - HASH_BYTES) =~= blob_of(front));
        assert(b.subrange(b.len() - HASH_BYTES, b.len() as int) =~= hs.last());
        assert(chunks_of(b) =~= hs);
    }
}

/// A hash is fresh exactly when it is added and not stored; fresh hashes keep the hash size.
pub proof fn lemma_fresh_members(stored: Seq<Seq<u8>>, added: Seq<Seq<u8>>)
    ensures
        forall|h: Seq<u8>| #[trigger]
            fresh_hashes(stored, added).contains(h) <==> (added.contains(h) && !stored.contains(h)),
        all_hash_sized(added) ==> all_hash_sized(fresh_hashes(stored, added)),
        fresh_hashes(stored, added).len() <= added.len(),
    decreases added.len(),
{
    if added.len() > 0 {
        let front = added.drop_last();
        lemma_fresh_members(stored, front);
        let prev = fresh_hashes(stored, front);
        let last = added.last();
        assert(added =~= front.push(last));
        assert forall|h: Seq<u8>| #[trigger]
            fresh_hashes(stored, added).contains(h) <==> (added.contains(h) && !stored.contains(
                h,
            )) by {
            assert(added.contains(h) <==> (front.contains(h) || h == last)) by {
                if added.contains(h) && h != last {
                    let i = choose|i: int| 0 <= i < added.len() && added[i] == h;
                    assert(front[i] == h);
                }
                if front.contains(h) {
                    let i = choose|i: int| 0 <= i < front.len() && front[i] == h;
                    assert(added[i] == h);
                }
                if h == last {
                    assert(added[added.len() - 1] == h);
                }
            }
            assert(prev.push(last).contains(h) <==> (prev.contains(h) || h == last)) by {
                let p2 = prev.push(last);
                if p2.contains(h) && h != last {
                    let i = choose|i: int| 0 <= i < p2.len() && p2[i] == h;
                    assert(prev[i] == h);
                }
                if prev.contains(h) {
                    let i = choose|i: int| 0 <= i < prev.len() && prev[i] == h;
                    assert(p2[i] == h);
                }
                if h == last {
                    assert(p2[p2.len() - 1] == h);
                }
            }
        }
        if all_hash_sized(added) {
            assert(all_hash_sized(front));
            assert(added.last() == added[added.len() - 1]);
        }
    }
}

/// Merging then loading: the blob written by a merge reads back as exactly the merged list, and
/// a hash is in that list iff it was stored before or is one of the added hashes.
pub proof fn lemma_merge_then_load(stored: Seq<Seq<u8>>, added: Seq<Seq<u8>>)
    requires
        all_hash_sized(stored),
        all_hash_sized(added),
    ensures
        stored_hashes(blob_of(merged_hashes(stored, added))) == Some(merged_hashes(stored, added)),
        forall|h: Seq<u8>| #[trigger]
            merged_hashes(stored, added).contains(h) <==> (stored.contains(h) || added.contains(h)),
{
    let fresh = fresh_hashes(stored, added);
    let merged = merged_hashes(stored, added);
    lemma_fresh_members(stored, added);
    assert(all_hash_sized(merged));
    lemma_blob_len(merged);
    lemma_chunks_of_blob(merged);
    assert(((merged.len() * HASH_BYTES) as nat) % (HASH_BYTES as nat) == 0) by (nonlinear_arith);
    assert forall|h: Seq<u8>| #[trigger]
        merged.contains(h) <==> (stored.contains(h) || added.contains(h)) by {
        if merged.contains(h) {
            let i = choose|i: int| 0 <= i < merged.len() && merged[i] == h;
            if i < fresh.len() {
                assert(fresh.contains(h));
            } else {
                assert(stored[i - fresh.len()] == h);
            }
        }
        if stored.contains(h) {
            let i = choose|i: int| 0 <= i < stored.len() && stored[i] == h;
            assert(merged[fresh.len() + i] == h);
        } else if added.contains(h) {
            assert(fresh.contains(h));
            let i = choose|i: int| 0 <= i < fresh.len() && fresh[i] == h;
            assert(merged[i] == h);
        }
    }
}

/// Merging hashes that are all stored already adds nothing: the blob written back is the stored
/// blob, byte for byte.
pub proof fn lemma_merge_known(stored: Seq<Seq<u8>>, added: Seq<Seq<u8>>)
    requires
        forall|i: int| 0 <= i < added.len() ==> stored.contains(#[trigger] added[i]),
    ensures
        fresh_hashes(stored, added) == Seq::<Seq<u8>>::empty(),
        blob_of(merged_hashes(stored, added)) == blob_of(stored),
{
    lemma_fresh_members(stored, added);
    let fresh = fresh_hashes(stored, added);
    if fresh.len() > 0 {
        assert(fresh.contains(fresh[0]));
        let i = choose|i: int| 0 <= i < added.len() && added[i] == fresh[0];
        assert(stored.contains(added[i]));
    }
    assert(fresh =~= Seq::<Seq<u8>>::empty());
    assert(merged_hashes(stored, added) =~= stored);
}

/// Reads the hashes held in a stored blob.
pub fn decode_blocklist(blob: &[u8]) -> (r: Result<Vec<FixedHash>, StoreError>)
    ensures
        r is Ok <==> stored_hashes(blob@) is Some,
        r is Ok ==> Some(hash_views(r->Ok_0@)) == stored_hashes(blob@),
        r is Err ==> r->Err_0 == StoreError::Corrupt,
{
    let n = blob.len();
    if n % HASH_BYTES != 0 {
        return Err(StoreError::Corrupt);
    }
    let mut out: Vec<FixedHash> = Vec::new();
    let mut i: usize = 0;
    while i < n / HASH_BYTES
        invariant
            n == blob@.len(),
            n % HASH_BYTES == 0,
            i <= n / HASH_BYTES,
            hash_views(out@) == chunks_of(blob@.subrange(0, i * HASH_BYTES)),
        decreases n / HASH_BYTES - i,
    {
        let start = i * HASH_BYTES;
        let chunk = vstd::slice::slice_subrange(blob, start, start + HASH_BYTES);
        let h = match decode(chunk) {
            Ok(h) => h,
            Err(_) => {
                return Err(StoreError::Corrupt);
            },
        };
        proof {
            let pre = blob@.subrange(0, start as int);
            let next = blob@.subrange(0, start + HASH_BYTES);
            assert(next.subrange(0, next.len() - HASH_BYTES) =~= pre);
            assert(next.subrange(next.len() - HASH_BYTES, next.len() as int) =~= chunk@);
        }
        let ghost before = out@;
        out.push(h);
        assert(hash_views(out@) =~= hash_views(before).push(h@));
        i = i + 1;
    }
    assert(blob@.subrange(0, n as int) =~= blob@);
    Ok(out)
}

/// Reads a guild's blocklist from its profile row: `None` when the guild has no row, and an
/// inner `None` when no blob was ever stored, which holds no hashes.
pub fn load_blocklist(row: &Option<Option<Vec<u8>>>) -> (r: Result<Vec<FixedHash>, StoreError>)
    ensures
        row is None ==> r == Err::<Vec<FixedHash>, StoreError>(StoreError::NotFound),
        row == Some(None::<Vec<u8>>) ==> r is Ok && r->Ok_0@.len() == 0,
        row matches Some(Some(blob)) ==> (r is Ok <==> stored_hashes(blob@) is Some) && (r is Ok
            ==> Some(hash_views(r->Ok_0@)) == stored_hashes(blob@)) && (r is Err ==> r->Err_0
            == StoreError::Corrupt),
{
    match row {
        None => Err(StoreError::NotFound),
        Some(None) => Ok(Vec::new()),
        Some(Some(blob)) => decode_blocklist(blob.as_slice()),
    }
}

/// Whether `hs` holds a hash equal to `h`.
pub fn contains_hash(hs: &Vec<FixedHash>, h: &FixedHash) -> (r: bool)
    ensures
        r == hash_views(hs@).contains(h@),
{
    let mut i: usize = 0;
    while i < hs.len()
        invariant
            i <= hs@.len(),
            forall|j: int| 0 <= j < i ==> hs@[j]@ != h@,
        decreases hs@.len() - i,
    {
        if hs[i] == *h {
            assert(hash_views(hs@)[i as int] == h@);
            return true;
        }
        i = i + 1;
    }
    proof {
        if hash_views(hs@).contains(h@) {
            let j = choose|j: int| 0 <= j < hash_views(hs@).len() && hash_views(hs@)[j] == h@;
            assert(hs@[j]@ == h@);
        }
    }
    false
}

/// Adds `h` to `fresh` unless it is already stored or already in `fresh`; returns whether it
/// was added.
pub fn add_fresh_hash(stored: &Vec<FixedHash>, fresh: &mut Vec<FixedHash>, h: FixedHash) -> (r:
    bool)
    ensures
        hash_views(final(fresh)@) == (if hash_views(stored@).contains(h@) || hash_views(
            old(fresh)@,
        ).contains(h@) {
            hash_views(old(fresh)@)
        } else {
            hash_views(old(fresh)@).push(h@)
        }),
        r == !(hash_views(stored@).contains(h@) || hash_views(old(fresh)@).contains(h@)),
{
    if contains_hash(stored, &h) || contains_hash(fresh, &h) {
        false
    } else {
        fresh.push(h);
        assert(hash_views(fresh@) =~= hash_views(old(fresh)@).push(h@));
        true
    }
}

/// The fresh hashes of a merge: those of `added` that are not stored, each once.
pub fn fresh_of(stored: &Vec<FixedHash>, added: &Vec<FixedHash>) -> (r: Vec<FixedHash>)
    ensures
        hash_views(r@) == fresh_hashes(hash_views(stored@), hash_views(added@)),
{
    let mut fresh: Vec<FixedHash> = Vec::new();
    let mut i: usize = 0;
    while i < added.len()
        invariant
            i <= added@.len(),
            hash_views(fresh@) == fresh_hashes(
                hash_views(stored@),
                hash_views(added@).subrange(0, i as int),
            ),
        decreases added@.len() - i,
    {
        let ghost pre = hash_views(added@).subrange(0, i as int);
        add_fresh_hash(stored, &mut fresh, added[i]);
        assert(hash_views(added@).subrange(0, i + 1).drop_last() =~= pre);
        i = i + 1;
    }
    assert(hash_views(added@).subrange(0, added@.len() as int) =~= hash_views(added@));
    fresh
}

/// Encodes hashes as one blob.
pub fn encode_blocklist(hs: &Vec<FixedHash>) -> (r: Vec<u8>)
    ensures
        r@ == blob_of(hash_views(hs@)),
{
    let mut out: Vec<u8> = Vec::new();
    let mut i: usize = 0;
    while i < hs.len()
        invariant
            i <= hs@.len(),
            out@ == blob_of(hash_views(hs@).subrange(0, i as int)),
        decreases hs@.len() - i,
    {
        let h = hs[i];
        let mut j: usize = 0;
        let ghost base = out@;
        while j < HASH_BYTES
            invariant
                j <= HASH_BYTES,
                h@.len() == HASH_BYTES,
                out@ == base + h@.subrange(0, j as int),
            decreases HASH_BYTES - j,
        {
            out.push(h.bytes[j]);
            assert(base + h@.subrange(0, j + 1) =~= (base + h@.subrange(0, j as int)).push(
                h@[j as int],
            ));
            j = j + 1;
        }
        assert(h@.subrange(0, HASH_BYTES as int) =~= h@);
        let ghost next = hash_views(hs@).subrange(0, i + 1);
        assert(next.drop_last() =~= hash_views(hs@).subrange(0, i as int));
        assert(next.last() == h@);
        i = i + 1;
    }
    assert(hash_views(hs@).subrange(0, hs@.len() as int) =~= hash_views(hs@));
    out
}

/// The blob written back when `added` is merged into the stored hashes: the fresh hashes first,
/// then the stored ones.
pub fn merged_blob(stored: &Vec<FixedHash>, added: &Vec<FixedHash>) -> (r: Vec<u8>)
    ensures
        r@ == blob_of(merged_hashes(hash_views(stored@), hash_views(added@))),
{
    let mut all = fresh_of(stored, added);
    let ghost fresh = all@;
    let mut k: usize = 0;
    while k < stored.len()
        invariant
            k <= stored@.len(),
            all@ == fresh + stored@.subrange(0, k as int),
        decreases stored@.len() - k,
    {
        all.push(stored[k]);
        assert(fresh + stored@.subrange(0, k + 1) =~= (fresh + stored@.subrange(0, k as int)).push(
            stored@[k as int],
        ));
        k = k + 1;
    }
    assert(stored@.subrange(0, stored@.len() as int) =~= stored@);
    assert(hash_views(all@) =~= hash_views(fresh) + hash_views(stored@));
    encode_blocklist(&all)
}

proof fn lemma_blob_append(a: Seq<Seq<u8>>, b: Seq<Seq<u8>>)
    ensures
        blob_of(a + b) == blob_of(a) + blob_of(b),
    decreases b.len(),
{
    if b.len() == 0 {
        assert(a + b =~= a);
        assert(blob_of(a) + blob_of(b) =~= blob_of(a));
    } else {
        lemma_blob_append(a, b.drop_last());
        assert((a + b).drop_last() =~= a + b.drop_last());
        assert((a + b).last() == b.last());
        assert(blob_of(a) + blob_of(b) =~= blob_of(a) + blob_of(b.drop_last()) + b.last());
    }
}

proof fn lemma_blob_of_chunks(blob: Seq<u8>)
    requires
        blob.len() % (HASH_BYTES as nat) == 0,
    ensures
        blob_of(chunks_of(blob)) == blob,
    decreases blob.len(),
{
    if blob.len() < HASH_BYTES {
        assert(blob.len() == 0);
        assert(blob =~= Seq::<u8>::empty());
    } else {
        let front = blob.subrange(0, blob.len() - HASH_BYTES);
        assert(front.len() % (HASH_BYTES as nat) == 0);
        lemma_blob_of_chunks(front);
        let cs = chunks_of(blob);
        assert(cs.drop_last() == chunks_of(front));
        assert(blob =~= front + blob.subrange(blob.len() - HASH_BYTES, blob.len() as int));
    }
}

/// Layout of a merge: the blob written back is the encodings of the fresh hashes followed by the
/// stored blob, byte for byte.
pub proof fn lemma_merge_layout(blob: Seq<u8>, added: Seq<Seq<u8>>)
    requires
        stored_hashes(blob) is Some,
    ensures
        blob_of(merged_hashes(chunks_of(blob), added)) == blob_of(
            fresh_hashes(chunks_of(blob), added),
        ) + blob,
{
    lemma_blob_append(fresh_hashes(chunks_of(blob), added), chunks_of(blob));
    lemma_blob_of_chunks(blob);
}

} // verus!
