//! Per-user cooldown of trigger responses, with time given by the caller in milliseconds.
use vstd::prelude::*;

verus! {

/// How long a user stays on cooldown after a trigger fired for them, in milliseconds.
pub const COOLDOWN_MILLIS: u64 = 5000;

/// Milliseconds from `since` to `now`; zero when `now` is earlier.
pub open spec fn elapsed(now: u64, since: u64) -> nat {
    if now >= since {
        (now - since) as nat
    } else {
        0
    }
}

/// When each user last activated a trigger.
pub struct TriggerCooldown {
    entries: Vec<(u64, u64)>,
}

/// The activation times held by `entries`, by user.
pub open spec fn times_of(entries: Seq<(u64, u64)>) -> Map<u64, u64>
    decreases entries.len(),
{
    if entries.len() == 0 {
        Map::empty()
    } else {
        times_of(entries.drop_last()).insert(entries.last().0, entries.last().1)
    }
}

/// No user appears twice.
pub open spec fn unique_users(entries: Seq<(u64, u64)>) -> bool {
    forall|i: int, j: int|
        0 <= i < j < entries.len() ==> #[trigger] entries[i].0 != #[trigger] entries[j].0
}

proof fn lemma_times_of(entries: Seq<(u64, u64)>)
    requires
        unique_users(entries),
    ensures
        forall|u: u64| #[trigger]
            times_of(entries).contains_key(u) <==> exists|i: int|
                0 <= i < entries.len() && entries[i].0 == u,
        forall|i: int|
            0 <= i < entries.len() ==> #[trigger] times_of(entries)[entries[i].0] == entries[i].1,
    decreases entries.len(),
{
    if entries.len() > 0 {
        let front = entries.drop_last();
        let last = entries.last();
        assert(unique_users(front)) by {
            assert forall|i: int, j: int| 0 <= i < j < front.len() implies #[trigger] front[i].0
                != #[trigger] front[j].0 by {
                assert(front[i] == entries[i] && front[j] == entries[j]);
            }
        }
        lemma_times_of(front);
        assert(times_of(entries) == times_of(front).insert(last.0, last.1));
        assert forall|u: u64| #[trigger]
            times_of(entries).contains_key(u) <==> exists|i: int|
                0 <= i < entries.len() && entries[i].0 == u by {
            if times_of(entries).contains_key(u) && u != entries.last().0 {
                assert(times_of(front).contains_key(u));
                let i = choose|i: int| 0 <= i < front.len() && front[i].0 == u;
                assert(entries[i].0 == u);
            }
            if exists|i: int| 0 <= i < entries.len() && entries[i].0 == u {
                let i = choose|i: int| 0 <= i < entries.len() && entries[i].0 == u;
                if i < front.len() {
                    assert(front[i].0 == u);
                    assert(times_of(front).contains_key(u));
                }
            }
        }
        assert forall|i: int| 0 <= i < entries.len() implies #[trigger] times_of(entries)[entries[
            i
        ].0] == entries[i].1 by {
            if i < front.len() {
                assert(front[i] == entries[i]);
                assert(entries[i].0 != entries[entries.len() - 1].0);
                assert(times_of(front)[front[i].0] == front[i].1);
            }
        }
    }
}

impl View for TriggerCooldown {
    type V = Map<u64, u64>;

    closed spec fn view(&self) -> Map<u64, u64> {
        times_of(self.entries@)
    }
}

impl TriggerCooldown {
    /// Each user appears once.
    pub closed spec fn wf(&self) -> bool {
        unique_users(self.entries@)
    }

    /// No user on cooldown.
    pub fn new() -> (r: TriggerCooldown)
        ensures
            r.wf(),
            r@ == Map::<u64, u64>::empty(),
    {
        TriggerCooldown { entries: Vec::new() }
    }

    fn position(&self, user: u64) -> (r: Option<usize>)
        requires
            self.wf(),
        ensures
            match r {
                Some(i) => i < self.entries@.len() && self.entries@[i as int].0 == user,
                None => forall|i: int| 0 <= i < self.entries@.len() ==> self.entries@[i].0 != user,
            },
    {
        let mut i: usize = 0;
        while i < self.entries.len()
            invariant
                i <= self.entries@.len(),
                forall|j: int| 0 <= j < i ==> self.entries@[j].0 != user,
            decreases self.entries@.len() - i,
        {
            if self.entries[i].0 == user {
                return Some(i);
            }
            i = i + 1;
        }
        None
    }

    /// Whether `user` activated a trigger less than `COOLDOWN_MILLIS` before `now`.
    pub fn on_cooldown(&self, user: u64, now: u64) -> (r: bool)
        requires
            self.wf(),
        ensures
            r == (self@.contains_key(user) && elapsed(now, self@[user]) < COOLDOWN_MILLIS),
    {
        proof {
            lemma_times_of(self.entries@);
        }
        match self.position(user) {
            Some(i) => {
                let t = self.entries[i].1;
                now < t || now - t < COOLDOWN_MILLIS
            },
            None => false,
        }
    }

    /// Records that `user` activated a trigger at `now`.
    pub fn activate(&mut self, user: u64, now: u64)
        requires
            old(self).wf(),
        ensures
            final(self).wf(),
            final(self)@ == old(self)@.insert(user, now),
    {
        proof {
            lemma_times_of(self.entries@);
        }
        let ghost mut at: int = 0;
        match self.position(user) {
            Some(i) => {
                self.entries.set(i, (user, now));
                proof {
                    at = i as int;
                }
            },
            None => {
                self.entries.push((user, now));
                proof {
                    at = self.entries@.len() - 1;
                }
            },
        }
        assert(0 <= at < self.entries@.len() && self.entries@[at] == (user, now));
        proof {
            lemma_times_of(self.entries@);
            lemma_times_of(old(self).entries@);
            assert(self@ =~= old(self)@.insert(user, now)) by {
                assert forall|u: u64| #[trigger] self@.contains_key(u) implies old(self)@.insert(
                    user,
                    now,
                ).contains_key(u) by {
                    let k = choose|k: int| 0 <= k < self.entries@.len() && self.entries@[k].0 == u;
                    if u != user {
                        assert(old(self).entries@[k].0 == u);
                    }
                }
                assert forall|u: u64| #[trigger] old(self)@.insert(user, now).contains_key(
                    u,
                ) implies self@.contains_key(u) by {
                    if u != user {
                        let k = choose|k: int|
                            0 <= k < old(self).entries@.len() && old(self).entries@[k].0 == u;
                        assert(self.entries@[k].0 == u);
                    } else {
                        assert(self.entries@[at].0 == u);
                    }
                }
                assert forall|u: u64| #[trigger] self@.contains_key(u) implies self@[u] == old(
                    self,
                )@.insert(user, now)[u] by {
                    let k = choose|k: int| 0 <= k < self.entries@.len() && self.entries@[k].0 == u;
                    assert(self@[self.entries@[k].0] == self.entries@[k].1);
                    if u != user {
                        assert(old(self).entries@[k] == self.entries@[k]);
                        assert(old(self)@[old(self).entries@[k].0] == old(self).entries@[k].1);
                    }
                }
            }
        }
    }

    /// Forgets the users whose cooldown had run out by `now`.
    pub fn clean(&mut self, now: u64)
        requires
            old(self).wf(),
        ensures
            final(self).wf(),
            final(self)@ == old(self)@.restrict(
                Set::new(|u: u64| old(self)@.contains_key(u) && elapsed(now, old(self)@[u]) <= COOLDOWN_MILLIS),
            ),
    {
        let ghost before = self.entries@;
        let mut kept: Vec<(u64, u64)> = Vec::new();
        let mut i: usize = 0;
        while i < self.entries.len()
            invariant
                self.entries@ == before,
                unique_users(before),
                i <= before.len(),
                unique_users(kept@),
                forall|k: int|
                    0 <= k < kept@.len() ==> exists|j: int|
                        0 <= j < i && before[j] == #[trigger] kept@[k],
                forall|j: int|
                    0 <= j < i && elapsed(now, before[j].1) <= COOLDOWN_MILLIS ==> kept@.contains(
                        #[trigger] before[j],
                    ),
                forall|k: int|
                    0 <= k < kept@.len() ==> elapsed(now, #[trigger] kept@[k].1) <= COOLDOWN_MILLIS,
            decreases before.len() - i,
        {
            let (u, t) = self.entries[i];
            if now < t || now - t <= COOLDOWN_MILLIS {
                proof {
                    assert forall|k: int| 0 <= k < kept@.len() implies kept@[k].0 != u by {
                        let j = choose|j: int| 0 <= j < i && before[j] == kept@[k];
                        assert(before[j].0 != before[i as int].0);
                    }
                }
                let ghost old_kept = kept@;
                kept.push((u, t));
                proof {
                    assert(kept@[kept@.len() - 1] == before[i as int]);
                    assert forall|j: int|
                        0 <= j < i + 1 && elapsed(now, before[j].1) <= COOLDOWN_MILLIS implies kept@.contains(
                        #[trigger] before[j],
                    ) by {
                        if j < i {
                            let k = choose|k: int| 0 <= k < old_kept.len() && old_kept[k] == before[j];
                            assert(kept@[k] == before[j]);
                        } else {
                            assert(kept@[kept@.len() - 1] == before[j]);
                        }
                    }
                    assert forall|k: int| 0 <= k < kept@.len() implies exists|j: int|
                        0 <= j < i + 1 && before[j] == #[trigger] kept@[k] by {
                        if k < old_kept.len() {
                            assert(old_kept[k] == kept@[k]);
                        } else {
                            assert(before[i as int] == kept@[k]);
                        }
                    }
                }
            }
            i = i + 1;
        }
        self.entries = kept;
        proof {
            lemma_times_of(before);
            lemma_times_of(self.entries@);
            let old_map = times_of(before);
            let keep = Set::new(|u: u64| old_map.contains_key(u) && elapsed(now, old_map[u]) <= COOLDOWN_MILLIS);
            assert forall|u: u64| #[trigger] self@.contains_key(u) <==> old_map.restrict(keep).contains_key(u) by {
                if self@.contains_key(u) {
                    let k = choose|k: int| 0 <= k < self.entries@.len() && self.entries@[k].0 == u;
                    let j = choose|j: int| 0 <= j < before.len() && before[j] == self.entries@[k];
                    assert(old_map[before[j].0] == before[j].1);
                }
                if old_map.restrict(keep).contains_key(u) {
                    let j = choose|j: int| 0 <= j < before.len() && before[j].0 == u;
                    assert(old_map[before[j].0] == before[j].1);
                    assert(self.entries@.contains(before[j]));
                    let k = choose|k: int| 0 <= k < self.entries@.len() && self.entries@[k] == before[j];
                    assert(self.entries@[k].0 == u);
                }
            }
            assert forall|u: u64| #[trigger] self@.contains_key(u) implies self@[u] == old_map[u] by {
                let k = choose|k: int| 0 <= k < self.entries@.len() && self.entries@[k].0 == u;
                let j = choose|j: int| 0 <= j < before.len() && before[j] == self.entries@[k];
                assert(old_map[before[j].0] == before[j].1);
                assert(self@[self.entries@[k].0] == self.entries@[k].1);
            }
            assert(self@ =~= old_map.restrict(keep));
        }
    }
}

} // verus!
