//! Passive filtering: the sources of one event are checked in extraction order and the first
//! blocked one ends the scan.
//!
//! The caller performs the steps the scan asks for (fetch an image, load the blocklist) and
//! hands back what came of them; the scan decides what happens next.
use vstd::prelude::*;

use crate::blocklist::StoreError;
use crate::cache::{
    after_check, after_supply, blocked_in, fetched_hash, loaded_view, CheckStep, HashData,
    HashDataView,
};
use crate::hash::FixedHash;
use crate::source::{resolved, ResolveUrl};

verus! {

/// What a scan needs next, or how it ended.
#[derive(Debug)]
pub enum ScanStep {
    /// Fetch the image of source `index` from the URL and hand the bytes to `fetched`.
    Fetch(usize, String),
    /// Load the guild's blocklist and hand it to `loaded`.
    Load,
    /// Source `index` is blocked with this hash; the scan is over.
    Blocked(usize, FixedHash),
    /// No source is blocked; the scan is over.
    Clear,
}

/// A step without its URL.
pub enum StepKind {
    Fetch(usize),
    Load,
    Blocked(usize, FixedHash),
    Clear,
}

/// The kind of a step.
pub open spec fn kind(r: ScanStep) -> StepKind {
    match r {
        ScanStep::Fetch(i, _) => StepKind::Fetch(i),
        ScanStep::Load => StepKind::Load,
        ScanStep::Blocked(i, h) => StepKind::Blocked(i, h),
        ScanStep::Clear => StepKind::Clear,
    }
}

/// What the scan waits for.
pub enum Awaiting {
    /// The bytes of the source at this index.
    Image(usize),
    /// The blocklist, to answer the check of the source at this index.
    Blocklist(usize),
    /// Nothing: the scan is over.
    Nothing,
}

/// The state of a scan, as plain values.
pub struct ScanView {
    pub sources: Seq<ResolveUrl>,
    pub next: nat,
    pub cache: HashDataView,
    pub awaiting: Awaiting,
}

/// A passive filtering pass over one event's sources.
pub struct PassiveScan {
    sources: Vec<ResolveUrl>,
    next: usize,
    cache: HashData,
    awaiting: Awaiting,
}

/// The first source at or after `from` that resolves to a URL.
pub open spec fn first_resolvable(sources: Seq<ResolveUrl>, from: int) -> Option<int>
    decreases sources.len() - from,
{
    if from >= sources.len() {
        None
    } else if resolved(sources[from]) is Some {
        Some(from)
    } else {
        first_resolvable(sources, from + 1)
    }
}

/// Moving on from `next`: the fetch of the next resolvable source, or the end.
pub open spec fn move_from(s: ScanView) -> (ScanView, StepKind) {
    match first_resolvable(s.sources, s.next as int) {
        Some(i) => (
            ScanView { next: (i + 1) as nat, awaiting: Awaiting::Image(i as usize), ..s },
            StepKind::Fetch(i as usize),
        ),
        None => (ScanView { awaiting: Awaiting::Nothing, ..s }, StepKind::Clear),
    }
}

/// The step after the awaited image turned out to have hash `hash` (`None`: nothing fetched or
/// no image).
pub open spec fn after_fetch(s: ScanView, hash: Option<FixedHash>) -> (ScanView, StepKind) {
    let i = s.awaiting->Image_0;
    let (c, asks) = after_check(s.cache, hash);
    if asks {
        (ScanView { cache: c, awaiting: Awaiting::Blocklist(i), ..s }, StepKind::Load)
    } else if hash is Some && blocked_in(s.cache.hashes, hash->0@) {
        (ScanView { awaiting: Awaiting::Nothing, ..s }, StepKind::Blocked(i, hash->0))
    } else {
        move_from(s)
    }
}

/// The step after the blocklist `loaded` was handed in.
pub open spec fn after_load(s: ScanView, loaded: Option<Seq<Seq<u8>>>) -> (ScanView, StepKind) {
    let i = s.awaiting->Blocklist_0;
    let p = s.cache.pending;
    let c = after_supply(s.cache, loaded);
    if p is Some && blocked_in(loaded, p->0@) {
        (ScanView { cache: c, awaiting: Awaiting::Nothing, ..s }, StepKind::Blocked(i, p->0))
    } else {
        move_from(ScanView { cache: c, ..s })
    }
}

/// A fetch step names the URL of its source.
pub open spec fn url_matches(sources: Seq<ResolveUrl>, r: ScanStep) -> bool {
    r matches ScanStep::Fetch(i, url) ==> i < sources.len() && resolved(sources[i as int]) == Some(
        url@,
    )
}

impl View for PassiveScan {
    type V = ScanView;

    closed spec fn view(&self) -> ScanView {
        ScanView {
            sources: self.sources@,
            next: self.next as nat,
            cache: self.cache@,
            awaiting: self.awaiting,
        }
    }
}

impl PassiveScan {
    /// Well-formed: the next index is within the sources, and an awaited index is before it.
    pub closed spec fn wf(&self) -> bool {
        &&& self.next <= self.sources@.len()
        &&& match self.awaiting {
            Awaiting::Image(i) => i < self.next && self.cache@.pending is None,
            Awaiting::Blocklist(i) => i < self.next && !self.cache@.loaded
                && self.cache@.pending is Some,
            Awaiting::Nothing => self.cache@.pending is None,
        }
    }

    /// A scan of `sources` for `guild`, and its first step.
    pub fn new(guild: u64, sources: Vec<ResolveUrl>) -> (r: (PassiveScan, ScanStep))
        ensures
            r.0.wf(),
            url_matches(sources@, r.1),
            (r.0@, kind(r.1)) == move_from(
                ScanView {
                    sources: sources@,
                    next: 0,
                    cache: HashDataView { guild, loaded: false, hashes: None, pending: None },
                    awaiting: Awaiting::Nothing,
                },
            ),
    {
        let mut scan = PassiveScan {
            sources,
            next: 0,
            cache: HashData::new(guild),
            awaiting: Awaiting::Nothing,
        };
        let step = scan.move_on();
        (scan, step)
    }

    fn move_on(&mut self) -> (r: ScanStep)
        requires
            old(self).next <= old(self)@.sources.len(),
            old(self)@.cache.pending is None,
        ensures
            final(self).wf(),
            url_matches(old(self)@.sources, r),
            (final(self)@, kind(r)) == move_from(old(self)@),
    {
        let mut i = self.next;
        while i < self.sources.len()
            invariant
                self.next <= i <= self.sources@.len(),
                self@ == old(self)@,
                self.cache@.pending is None,
                first_resolvable(self.sources@, self.next as int) == first_resolvable(
                    self.sources@,
                    i as int,
                ),
            decreases self.sources@.len() - i,
        {
            match self.sources[i].resolve() {
                Some(url) => {
                    self.next = i + 1;
                    self.awaiting = Awaiting::Image(i);
                    return ScanStep::Fetch(i, url);
                },
                None => {},
            }
            i = i + 1;
        }
        self.awaiting = Awaiting::Nothing;
        ScanStep::Clear
    }

    /// What the scan waits for.
    pub fn awaiting(&self) -> (r: &Awaiting)
        ensures
            *r == self@.awaiting,
    {
        &self.awaiting
    }

    /// Hands in the bytes fetched for the awaited source (`None` when the fetch failed).
    /// A blocked image ends the scan; a check that needs the blocklist asks for it; anything
    /// else moves on to the next source.
    pub fn fetched(&mut self, image: Option<&[u8]>) -> (r: ScanStep)
        requires
            old(self).wf(),
            old(self)@.awaiting is Image,
        ensures
            final(self).wf(),
            url_matches(old(self)@.sources, r),
            fetched_hash(image) is None ==> (final(self)@, kind(r)) == after_fetch(
                old(self)@,
                None,
            ),
            fetched_hash(image) matches Some(v) ==> exists|h: FixedHash|
                h@ == v && (final(self)@, kind(r)) == #[trigger] after_fetch(old(self)@, Some(h)),
    {
        let index = match self.awaiting {
            Awaiting::Image(i) => i,
            _ => 0,
        };
        let hash = match image {
            None => None,
            Some(bytes) => match crate::hash::hash_image(bytes) {
                Ok(h) => Some(h),
                Err(_) => None,
            },
        };
        let ghost before = self@;
        let r = match self.cache.check_hash(hash) {
            CheckStep::Load => {
                self.awaiting = Awaiting::Blocklist(index);
                ScanStep::Load
            },
            CheckStep::Done(Some(h)) => {
                self.awaiting = Awaiting::Nothing;
                ScanStep::Blocked(index, h)
            },
            CheckStep::Done(None) => self.move_on(),
        };
        assert((self@, kind(r)) == after_fetch(before, hash));
        if let Some(h) = hash {
            assert((self@, kind(r)) == after_fetch(before, Some(h)));
        }
        r
    }

    /// Hands in the guild's blocklist (a failed load counts as no blocklist) and answers the
    /// awaited check: a blocked image ends the scan, anything else moves on.
    pub fn loaded(&mut self, blocklist: Result<Vec<FixedHash>, StoreError>) -> (r: ScanStep)
        requires
            old(self).wf(),
            old(self)@.awaiting is Blocklist,
        ensures
            final(self).wf(),
            url_matches(old(self)@.sources, r),
            (final(self)@, kind(r)) == after_load(old(self)@, loaded_view(blocklist)),
    {
        let index = match self.awaiting {
            Awaiting::Blocklist(i) => i,
            _ => 0,
        };
        match self.cache.supply(blocklist) {
            Some(h) => {
                self.awaiting = Awaiting::Nothing;
                ScanStep::Blocked(index, h)
            },
            None => self.move_on(),
        }
    }
}

/// The first source at or after `from` that resolves and whose image hash (as given by
/// `hashes`, per source) is in the blocklist `bl`.
pub open spec fn first_blocked(
    sources: Seq<ResolveUrl>,
    hashes: Seq<Option<FixedHash>>,
    bl: Option<Seq<Seq<u8>>>,
    from: int,
) -> Option<int>
    decreases sources.len() - from,
{
    if from >= sources.len() {
        None
    } else if resolved(sources[from]) is Some && hashes[from] is Some && blocked_in(
        bl,
        hashes[from]->0@,
    ) {
        Some(from)
    } else {
        first_blocked(sources, hashes, bl, from + 1)
    }
}

/// The end of a scan driven from state `s` and step `o`, where the fetch of source `i` gives
/// `hashes[i]` and every load gives `bl`; with the indices of the sources fetched on the way.
pub open spec fn run_scan(
    s: ScanView,
    o: StepKind,
    hashes: Seq<Option<FixedHash>>,
    bl: Option<Seq<Seq<u8>>>,
    fuel: nat,
) -> (StepKind, Seq<int>)
    decreases fuel,
{
    if fuel == 0 {
        (o, Seq::empty())
    } else {
        match o {
            StepKind::Fetch(i) => {
                let (t, p) = after_fetch(s, hashes[i as int]);
                let (end, fetched) = run_scan(t, p, hashes, bl, (fuel - 1) as nat);
                (end, seq![i as int] + fetched)
            },
            StepKind::Load => {
                let (t, p) = after_load(s, bl);
                run_scan(t, p, hashes, bl, (fuel - 1) as nat)
            },
            _ => (o, Seq::empty()),
        }
    }
}

/// The resolvable sources in `[from, to)`, in order.
pub open spec fn resolvable_between(sources: Seq<ResolveUrl>, from: int, to: int) -> Seq<int>
    decreases to - from,
{
    if from >= to {
        Seq::empty()
    } else if resolved(sources[from]) is Some {
        seq![from] + resolvable_between(sources, from + 1, to)
    } else {
        resolvable_between(sources, from + 1, to)
    }
}

/// A cache state consistent with the blocklist `bl`: not loaded yet, or loaded with `bl`.
pub open spec fn cache_agrees(c: HashDataView, bl: Option<Seq<Seq<u8>>>) -> bool {
    &&& c.pending is None
    &&& (c.loaded ==> c.hashes == bl)
    &&& (!c.loaded ==> c.hashes is None)
}

/// The end of a scan that waits for nothing is its step.
proof fn lemma_run_from(
    s: ScanView,
    hashes: Seq<Option<FixedHash>>,
    bl: Option<Seq<Seq<u8>>>,
    fuel: nat,
)
    requires
        cache_agrees(s.cache, bl),
        s.next <= s.sources.len(),
        s.sources.len() <= usize::MAX,
        hashes.len() == s.sources.len(),
        fuel >= 2 * (s.sources.len() - s.next) + 2,
    ensures
        ({
            let (t, o) = move_from(s);
            let (end, fetched) = run_scan(t, o, hashes, bl, fuel);
            let hit = first_blocked(s.sources, hashes, bl, s.next as int);
            &&& end == match hit {
                Some(i) => StepKind::Blocked(i as usize, hashes[i]->0),
                None => StepKind::Clear,
            }
            &&& fetched == match hit {
                Some(i) => resolvable_between(s.sources, s.next as int, i + 1),
                None => resolvable_between(s.sources, s.next as int, s.sources.len() as int),
            }
        }),
    decreases s.sources.len() - s.next,
{
    let n = s.sources.len() as int;
    let from = s.next as int;
    if from >= n {
        assert(resolvable_between(s.sources, from, n) == Seq::<int>::empty());
    } else if resolved(s.sources[from]) is None {
        let s1 = ScanView { next: (from + 1) as nat, ..s };
        assert(first_resolvable(s.sources, from) == first_resolvable(s.sources, from + 1));
        if first_resolvable(s.sources, from + 1) is Some {
            assert(move_from(s) == move_from(s1));
        } else {
            assert(move_from(s).1 == StepKind::Clear && move_from(s1).1 == StepKind::Clear);
        }
        lemma_run_from(s1, hashes, bl, fuel);
        assert(first_blocked(s.sources, hashes, bl, from) == first_blocked(
            s.sources,
            hashes,
            bl,
            from + 1,
        ));
        match first_blocked(s.sources, hashes, bl, from) {
            Some(i) => {
                assert(resolvable_between(s.sources, from, i + 1) == resolvable_between(
                    s.sources,
                    from + 1,
                    i + 1,
                ));
            },
            None => {},
        }
    } else {
        let (t, o) = move_from(s);
        assert(first_resolvable(s.sources, from) == Some(from));
        assert(o == StepKind::Fetch(from as usize));
        let h = hashes[from];
        let (t2, p2) = after_fetch(t, h);
        let hit_here = h is Some && blocked_in(bl, h->0@);
        let inner = run_scan(t2, p2, hashes, bl, (fuel - 1) as nat);
        assert(run_scan(t, o, hashes, bl, fuel) == (inner.0, seq![from] + inner.1));
        if h is None {
            // Nothing to look up: move on from the next source.
            assert(t2 == move_from(t).0 && p2 == move_from(t).1);
            lemma_run_from(t, hashes, bl, (fuel - 1) as nat);
            assert(resolvable_between(s.sources, from, n) =~= seq![from] + resolvable_between(
                s.sources,
                from + 1,
                n,
            ));
            match first_blocked(s.sources, hashes, bl, from + 1) {
                Some(i) => {
                    assert(resolvable_between(s.sources, from, i + 1) =~= seq![from]
                        + resolvable_between(s.sources, from + 1, i + 1));
                },
                None => {},
            }
        } else if t.cache.loaded {
            if hit_here {
                assert(p2 == StepKind::Blocked(from as usize, h->0));
                assert(inner == (p2, Seq::<int>::empty()));
                assert(seq![from] + inner.1 =~= seq![from]);
                assert(resolvable_between(s.sources, from, from + 1) =~= seq![from]) by {
                    assert(resolvable_between(s.sources, from + 1, from + 1) == Seq::<int>::empty());
                }
            } else {
                lemma_run_from(t, hashes, bl, (fuel - 1) as nat);
                match first_blocked(s.sources, hashes, bl, from + 1) {
                    Some(i) => {
                        assert(resolvable_between(s.sources, from, i + 1) =~= seq![from]
                            + resolvable_between(s.sources, from + 1, i + 1));
                    },
                    None => {
                        assert(resolvable_between(s.sources, from, n) =~= seq![from]
                            + resolvable_between(s.sources, from + 1, n));
                    },
                }
            }
        } else {
            // The first hash to look up loads the blocklist.
            assert(p2 == StepKind::Load);
            let (t3, p3) = after_load(t2, bl);
            if hit_here {
                assert(p3 == StepKind::Blocked(from as usize, h->0));
                assert(resolvable_between(s.sources, from, from + 1) =~= seq![from]) by {
                    assert(resolvable_between(s.sources, from + 1, from + 1) == Seq::<int>::empty());
                }
                assert(run_scan(t2, p2, hashes, bl, (fuel - 1) as nat) == run_scan(
                    t3,
                    p3,
                    hashes,
                    bl,
                    (fuel - 2) as nat,
                ));
                assert(run_scan(t3, p3, hashes, bl, (fuel - 2) as nat) == (p3, Seq::<int>::empty()));
                assert(seq![from] + inner.1 =~= seq![from]);
            } else {
                let u = ScanView { cache: after_supply(t2.cache, bl), ..t2 };
                assert(t3 == move_from(u).0 && p3 == move_from(u).1);
                let u2 = ScanView { awaiting: Awaiting::Nothing, ..u };
                assert(move_from(u) == move_from(u2)) by {
                    match first_resolvable(u.sources, u.next as int) {
                        Some(i) => {},
                        None => {},
                    }
                }
                lemma_run_from(u2, hashes, bl, (fuel - 2) as nat);
                match first_blocked(s.sources, hashes, bl, from + 1) {
                    Some(i) => {
                        assert(resolvable_between(s.sources, from, i + 1) =~= seq![from]
                            + resolvable_between(s.sources, from + 1, i + 1));
                    },
                    None => {
                        assert(resolvable_between(s.sources, from, n) =~= seq![from]
                            + resolvable_between(s.sources, from + 1, n));
                    },
                }
            }
        }
    }
}

/// Short-circuit filtering: a scan driven to its end, where the image of each source `i`
/// has hash `hashes[i]` and the guild's blocklist is `bl`, ends blocking the first resolvable
/// source whose hash is in the blocklist (or clear when there is none), and fetches exactly the
/// resolvable sources up to that one, in order: no later source is checked or remediated.
pub proof fn lemma_first_blocked_wins(
    guild: u64,
    sources: Seq<ResolveUrl>,
    hashes: Seq<Option<FixedHash>>,
    bl: Option<Seq<Seq<u8>>>,
)
    requires
        sources.len() <= usize::MAX,
        hashes.len() == sources.len(),
    ensures
        ({
            let s0 = ScanView {
                sources,
                next: 0,
                cache: HashDataView { guild, loaded: false, hashes: None, pending: None },
                awaiting: Awaiting::Nothing,
            };
            let (t, o) = move_from(s0);
            let (end, fetched) = run_scan(t, o, hashes, bl, 2 * sources.len() + 2);
            &&& end == match first_blocked(sources, hashes, bl, 0) {
                Some(i) => StepKind::Blocked(i as usize, hashes[i]->0),
                None => StepKind::Clear,
            }
            &&& fetched == match first_blocked(sources, hashes, bl, 0) {
                Some(i) => resolvable_between(sources, 0, i + 1),
                None => resolvable_between(sources, 0, sources.len() as int),
            }
        }),
{
    let s0 = ScanView {
        sources,
        next: 0,
        cache: HashDataView { guild, loaded: false, hashes: None, pending: None },
        awaiting: Awaiting::Nothing,
    };
    lemma_run_from(s0, hashes, bl, 2 * sources.len() + 2);
}

} // verus!
