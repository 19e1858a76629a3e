//! A request-scoped view of one guild's blocklist that is loaded at most once.
//!
//! Loading is the caller's work: a check that needs the blocklist answers `CheckStep::Load`,
//! the caller reads the guild's row and hands the result to `supply`, which answers the check.
use vstd::prelude::*;

use crate::blocklist::{contains_hash, hash_views, StoreError};
use crate::hash::{hash_image, image_fixed_hash, FixedHash};

verus! {

/// The state of a `HashData`, as plain values.
pub struct HashDataView {
    pub guild: u64,
    pub loaded: bool,
    pub hashes: Option<Seq<Seq<u8>>>,
    pub pending: Option<FixedHash>,
}

/// Memoised blocklist of one guild for one filtering pass or one confirmation.
pub struct HashData {
    guild: u64,
    loaded: bool,
    hashes: Option<Vec<FixedHash>>,
    pending: Option<FixedHash>,
}

/// What a check needs next.
#[derive(Debug)]
pub enum CheckStep {
    /// The blocklist must be loaded and handed to `supply`, which answers this check.
    Load,
    /// The answer: the hash when it is blocked.
    Done(Option<FixedHash>),
}

/// Whether `hash` is in the loaded blocklist; an unavailable blocklist blocks nothing.
pub open spec fn blocked_in(hashes: Option<Seq<Seq<u8>>>, hash: Seq<u8>) -> bool {
    hashes is Some && hashes->0.contains(hash)
}

/// The state after a check of `hash`, and whether that check asks for a load.
pub open spec fn after_check(s: HashDataView, hash: Option<FixedHash>) -> (HashDataView, bool) {
    if hash is Some && !s.loaded {
        (HashDataView { pending: hash, ..s }, true)
    } else {
        (s, false)
    }
}

/// The state after the blocklist (or the failure to load it) was handed in.
pub open spec fn after_supply(s: HashDataView, loaded: Option<Seq<Seq<u8>>>) -> HashDataView {
    HashDataView { loaded: true, hashes: loaded, pending: None, ..s }
}

/// The view of a load result: the hashes, or nothing when the load failed.
pub open spec fn loaded_view(r: Result<Vec<FixedHash>, StoreError>) -> Option<Seq<Seq<u8>>> {
    match r {
        Ok(v) => Some(hash_views(v@)),
        Err(_) => None,
    }
}

/// The hash that the fetched bytes stand for: none when nothing was fetched or the bytes are not
/// an image with a hash of `HASH_BYTES` bytes.
pub open spec fn fetched_hash(image: Option<&[u8]>) -> Option<Seq<u8>> {
    match image {
        Some(bytes) => image_fixed_hash(bytes@),
        None => None,
    }
}

/// A check went from `s` to `t` answering `r` as `check_hash` does for `hash`.
pub open spec fn checked_as(s: HashDataView, t: HashDataView, r: CheckStep, hash: Option<FixedHash>) -> bool {
    &&& t == after_check(s, hash).0
    &&& (r is Load <==> after_check(s, hash).1)
    &&& !(r is Load) ==> r == CheckStep::Done(
        if hash is Some && blocked_in(s.hashes, hash->0@) {
            hash
        } else {
            None
        },
    )
}

impl View for HashData {
    type V = HashDataView;

    closed spec fn view(&self) -> HashDataView {
        HashDataView {
            guild: self.guild,
            loaded: self.loaded,
            hashes: match self.hashes {
                Some(v) => Some(hash_views(v@)),
                None => None,
            },
            pending: self.pending,
        }
    }
}

impl HashData {
    /// A cache for `guild` that has loaded nothing yet.
    pub fn new(guild: u64) -> (r: HashData)
        ensures
            r@ == (HashDataView { guild, loaded: false, hashes: None, pending: None }),
    {
        HashData { guild, loaded: false, hashes: None, pending: None }
    }

    /// The guild whose blocklist this is.
    pub fn guild(&self) -> (r: u64)
        ensures
            r == self@.guild,
    {
        self.guild
    }

    /// Whether the blocklist was loaded (or its load failed) already.
    pub fn is_loaded(&self) -> (r: bool)
        ensures
            r == self@.loaded,
    {
        self.loaded
    }

    /// Checks a hash against the blocklist; asks for a load the first time a hash needs it.
    pub fn check_hash(&mut self, hash: Option<FixedHash>) -> (r: CheckStep)
        ensures
            final(self)@ == after_check(old(self)@, hash).0,
            r is Load <==> after_check(old(self)@, hash).1,
            !(r is Load) ==> r == CheckStep::Done(
                if hash is Some && blocked_in(old(self)@.hashes, hash->0@) {
                    hash
                } else {
                    None
                },
            ),
    {
        match hash {
            None => CheckStep::Done(None),
            Some(h) => {
                if !self.loaded {
                    self.pending = Some(h);
                    CheckStep::Load
                } else {
                    CheckStep::Done(self.lookup(h))
                }
            },
        }
    }

    fn lookup(&self, h: FixedHash) -> (r: Option<FixedHash>)
        ensures
            r == (if blocked_in(self@.hashes, h@) {
                Some(h)
            } else {
                None::<FixedHash>
            }),
    {
        match &self.hashes {
            Some(v) => {
                if contains_hash(v, &h) {
                    Some(h)
                } else {
                    None
                }
            },
            None => None,
        }
    }

    /// Checks the bytes fetched for one source. Nothing fetched, or bytes that do not decode as
    /// an image, are not blocked; otherwise the image's hash is checked as by `check_hash`.
    pub fn check(&mut self, image: Option<&[u8]>) -> (r: CheckStep)
        ensures
            fetched_hash(image) is None ==> r == CheckStep::Done(None) && final(self)@ == old(
                self,
            )@,
            fetched_hash(image) matches Some(v) ==> exists|h: FixedHash|
                h@ == v && #[trigger] checked_as(old(self)@, final(self)@, r, Some(h)),
    {
        let hash = match image {
            None => None,
            Some(bytes) => match hash_image(bytes) {
                Ok(h) => Some(h),
                Err(_) => None,
            },
        };
        let r = self.check_hash(hash);
        if let Some(h) = hash {
            assert(checked_as(old(self)@, self@, r, Some(h)));
        }
        r
    }

    /// Hands in the guild's blocklist (any load failure counts as no blocklist) and answers the
    /// check that asked for it.
    pub fn supply(&mut self, loaded: Result<Vec<FixedHash>, StoreError>) -> (r: Option<FixedHash>)
        ensures
            final(self)@ == after_supply(old(self)@, loaded_view(loaded)),
            r == (if old(self)@.pending is Some && blocked_in(
                loaded_view(loaded),
                old(self)@.pending->0@,
            ) {
                old(self)@.pending
            } else {
                None::<FixedHash>
            }),
    {
        self.loaded = true;
        self.hashes = match loaded {
            Ok(v) => Some(v),
            Err(_) => None,
        };
        let pending = self.pending;
        self.pending = None;
        match pending {
            Some(h) => self.lookup(h),
            None => None,
        }
    }

    /// The loaded blocklist, if it could be loaded. Loading is the caller's work: the cache must
    /// have been supplied first (see `is_loaded` and `supply`).
    pub fn get(&self) -> (r: Option<&Vec<FixedHash>>)
        requires
            self@.loaded,
        ensures
            match r {
                Some(v) => self@.hashes == Some(hash_views(v@)),
                None => self@.hashes is None,
            },
    {
        self.hashes.as_ref()
    }

    /// Consumes the cache and returns the loaded blocklist (`Ok(None)` when it could not be
    /// loaded). A cache that has not loaded yet comes back unchanged as `Err`: the caller loads
    /// the blocklist, hands it to `supply`, and retrieves again.
    pub fn retrieve(self) -> (r: Result<Option<Vec<FixedHash>>, HashData>)
        ensures
            r is Err <==> !self@.loaded,
            r matches Err(c) ==> c@ == self@,
            r matches Ok(Some(v)) ==> self@.hashes == Some(hash_views(v@)),
            r matches Ok(None) ==> self@.hashes is None,
    {
        if !self.loaded {
            return Err(self);
        }
        Ok(self.hashes)
    }
}

/// The state and number of loads after the checks of `hashes`, in order, where each check that
/// asks for a load is answered with `loaded`.
pub open spec fn run_checks(s: HashDataView, hashes: Seq<Option<FixedHash>>, loaded: Option<
    Seq<Seq<u8>>,
>) -> (HashDataView, nat)
    decreases hashes.len(),
{
    if hashes.len() == 0 {
        (s, 0)
    } else {
        let (prev, loads) = run_checks(s, hashes.drop_last(), loaded);
        let (next, asks) = after_check(prev, hashes.last());
        if asks {
            (after_supply(next, loaded), loads + 1)
        } else {
            (next, loads)
        }
    }
}

/// Any number of checks on one fresh cache load the blocklist exactly once when at least one of
/// them had a hash to look up, and never otherwise.
pub proof fn lemma_single_load(guild: u64, hashes: Seq<Option<FixedHash>>, loaded: Option<
    Seq<Seq<u8>>,
>)
    ensures
        ({
            let (end, loads) = run_checks(
                HashDataView { guild, loaded: false, hashes: None, pending: None },
                hashes,
                loaded,
            );
            &&& loads == (if exists|i: int| 0 <= i < hashes.len() && hashes[i] is Some {
                1nat
            } else {
                0nat
            })
            &&& end.loaded == (loads == 1)
        }),
    decreases hashes.len(),
{
    let s = HashDataView { guild, loaded: false, hashes: None, pending: None };
    if hashes.len() > 0 {
        let front = hashes.drop_last();
        lemma_single_load(guild, front, loaded);
        let (prev, loads) = run_checks(s, front, loaded);
        if exists|i: int| 0 <= i < front.len() && front[i] is Some {
            let i = choose|i: int| 0 <= i < front.len() && front[i] is Some;
            assert(hashes[i] is Some);
        } else {
            if hashes.last() is None {
                assert forall|i: int| 0 <= i < hashes.len() implies !(hashes[i] is Some) by {
                    if i < front.len() {
                        assert(hashes[i] == front[i]);
                    }
                }
            } else {
                assert(hashes[hashes.len() - 1] is Some);
            }
        }
    }
}

} // verus!
