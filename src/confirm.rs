//! The moderator confirmation workflow: one prompt per candidate source, one decision per
//! prompt, remediation of the confirmed sources, and the merge of their hashes.
use vstd::prelude::*;

use crate::blocklist::{
    all_hash_sized, blob_of, fresh_hashes, fresh_of, hash_views, lemma_fresh_members,
    lemma_merge_known, lemma_merge_then_load, merged_blob, merged_hashes, stored_hashes,
};
use crate::blocklist::StoreError;
use crate::hash::FixedHash;
use crate::source::{decimal, parse_u64, parsed_u64, push_decimal, resolved, ResolveUrl};

verus! {

/// The suffix of the id of a prompt's "block" control.
pub const BLOCK_SUFFIX: &'static str = "-block";

/// The suffix of the id of a prompt's "keep" control.
pub const KEEP_SUFFIX: &'static str = "-keep";

/// One prompt to post: the candidate's index, its image URL, and the ids of its two controls.
#[derive(Debug)]
pub struct Prompt {
    pub index: usize,
    pub url: String,
    pub block_id: String,
    pub keep_id: String,
}

/// The id of the "block" control of the prompt for candidate `index`.
pub open spec fn block_id_of(index: nat) -> Seq<char> {
    decimal(index) + BLOCK_SUFFIX@
}

/// The id of the "keep" control of the prompt for candidate `index`.
pub open spec fn keep_id_of(index: nat) -> Seq<char> {
    decimal(index) + KEEP_SUFFIX@
}

/// The indices of the candidates that resolve to a URL, in order.
pub open spec fn promptable(candidates: Seq<ResolveUrl>) -> Seq<nat>
    decreases candidates.len(),
{
    if candidates.len() == 0 {
        Seq::empty()
    } else {
        let prev = promptable(candidates.drop_last());
        if resolved(candidates.last()) is Some {
            prev.push((candidates.len() - 1) as nat)
        } else {
            prev
        }
    }
}

/// `p` is the prompt for candidate `i` of `candidates`.
pub open spec fn prompt_for(p: Prompt, candidates: Seq<ResolveUrl>, i: nat) -> bool {
    &&& p.index == i
    &&& i < candidates.len()
    &&& resolved(candidates[i as int]) == Some(p.url@)
    &&& p.block_id@ == block_id_of(i)
    &&& p.keep_id@ == keep_id_of(i)
}

fn control_id(index: usize, suffix: &str) -> (r: String)
    ensures
        r@ == decimal(index as nat) + suffix@,
{
    let mut s = String::new();
    push_decimal(&mut s, index as u64);
    s.append(suffix);
    s
}

/// The prompts to post for `candidates`: one for each candidate that resolves to a URL, in
/// order. Candidates that do not resolve get none.
pub fn prompts_for(candidates: &Vec<ResolveUrl>) -> (r: Vec<Prompt>)
    ensures
        r@.len() == promptable(candidates@).len(),
        forall|k: int|
            0 <= k < r@.len() ==> prompt_for(#[trigger] r@[k], candidates@, promptable(
                candidates@,
            )[k]),
{
    let mut out: Vec<Prompt> = Vec::new();
    let mut i: usize = 0;
    while i < candidates.len()
        invariant
            i <= candidates@.len(),
            out@.len() == promptable(candidates@.subrange(0, i as int)).len(),
            forall|k: int|
                0 <= k < out@.len() ==> prompt_for(#[trigger] out@[k], candidates@, promptable(
                    candidates@.subrange(0, i as int),
                )[k]),
            forall|k: int|
                0 <= k < out@.len() ==> promptable(candidates@.subrange(0, i as int))[k] < i,
        decreases candidates@.len() - i,
    {
        let ghost pre = candidates@.subrange(0, i as int);
        let ghost next = candidates@.subrange(0, i + 1);
        assert(next.drop_last() =~= pre);
        assert(next.last() == candidates@[i as int]);
        match candidates[i].resolve() {
            Some(url) => {
                let block_id = control_id(i, BLOCK_SUFFIX);
                let keep_id = control_id(i, KEEP_SUFFIX);
                out.push(Prompt { index: i, url, block_id, keep_id });
            },
            None => {},
        }
        i = i + 1;
    }
    assert(candidates@.subrange(0, candidates@.len() as int) =~= candidates@);
    out
}

/// The position in `text` of its first `-`, or its length when it has none.
pub open spec fn dash_at(text: Seq<char>) -> nat
    decreases text.len(),
{
    if text.len() == 0 {
        0
    } else if text[0] == '-' {
        0
    } else {
        1 + dash_at(text.drop_first())
    }
}

/// What a control id says: the candidate index before its first `-`, and the word between that
/// `-` and the next (`block` or `keep`); `None` when either part is malformed.
pub open spec fn decision_of(id: Seq<char>) -> Option<(usize, bool)> {
    let first = id.subrange(0, dash_at(id) as int);
    if dash_at(id) >= id.len() {
        None
    } else {
        let rest = id.subrange(dash_at(id) as int + 1, id.len() as int);
        let word = rest.subrange(0, dash_at(rest) as int);
        match parsed_u64(first) {
            Some(n) => if n > usize::MAX {
                None
            } else if word == "block"@ {
                Some((n as usize, true))
            } else if word == "keep"@ {
                Some((n as usize, false))
            } else {
                None
            },
            None => None,
        }
    }
}

proof fn lemma_dash_at_is(text: Seq<char>, k: nat)
    requires
        k <= text.len(),
        forall|j: int| 0 <= j < k ==> text[j] != '-',
        k < text.len() ==> text[k as int] == '-',
    ensures
        dash_at(text) == k,
    decreases k,
{
    if k > 0 {
        assert forall|j: int| 0 <= j < k - 1 implies text.drop_first()[j] != '-' by {
            assert(text.drop_first()[j] == text[j + 1]);
        }
        lemma_dash_at_is(text.drop_first(), (k - 1) as nat);
    }
}

/// The first `-` at or after `from`, or the length.
fn find_dash(s: &str, n: usize, from: usize) -> (r: usize)
    requires
        n == s@.len(),
        from <= n,
    ensures
        from <= r <= n,
        r == from + dash_at(s@.subrange(from as int, n as int)),
{
    let mut i = from;
    while i < n
        invariant
            n == s@.len(),
            from <= i <= n,
            forall|j: int| from <= j < i ==> s@[j] != '-',
        ensures
            from <= i <= n,
            forall|j: int| from <= j < i ==> s@[j] != '-',
            i < n ==> s@[i as int] == '-',
        decreases n - i,
    {
        if s.get_char(i) == '-' {
            break;
        }
        i = i + 1;
    }
    proof {
        let t = s@.subrange(from as int, n as int);
        assert forall|j: int| 0 <= j < i - from implies t[j] != '-' by {
            assert(t[j] == s@[from + j]);
        }
        lemma_dash_at_is(t, (i - from) as nat);
    }
    i
}

/// Reads a control id: the candidate index and whether the moderator chose to block it.
pub fn parse_decision(id: &str) -> (r: Option<(usize, bool)>)
    ensures
        r == decision_of(id@),
{
    let n = id.unicode_len();
    let d = find_dash(id, n, 0);
    assert(id@.subrange(0, n as int) =~= id@);
    if d >= n {
        return None;
    }
    let e = find_dash(id, n, d + 1);
    let ghost rest = id@.subrange(d + 1, n as int);
    assert(rest.subrange(0, dash_at(rest) as int) =~= id@.subrange(d + 1, e as int));
    let first = id.substring_char(0, d);
    let word = id.substring_char(d + 1, e);
    let value = match parse_u64(first) {
        Some(v) => v,
        None => {
            return None;
        },
    };
    if value > usize::MAX as u64 {
        return None;
    }
    proof {
        reveal_strlit("block");
        reveal_strlit("keep");
    }
    if is_word(word, "block") {
        Some((value as usize, true))
    } else if is_word(word, "keep") {
        Some((value as usize, false))
    } else {
        None
    }
}

fn is_word(s: &str, w: &str) -> (r: bool)
    ensures
        r == (s@ == w@),
{
    let n = s.unicode_len();
    if n != w.unicode_len() {
        return false;
    }
    let mut i: usize = 0;
    while i < n
        invariant
            n == s@.len(),
            n == w@.len(),
            i <= n,
            forall|j: int| 0 <= j < i ==> s@[j] == w@[j],
        decreases n - i,
    {
        if s.get_char(i) != w.get_char(i) {
            return false;
        }
        i = i + 1;
    }
    assert(s@ =~= w@);
    true
}

/// Candidate `i` was decided `block` by some response.
pub open spec fn decided_block(responses: Seq<Option<(usize, bool)>>, i: nat) -> bool {
    exists|j: int| 0 <= j < responses.len() && responses[j] == Some((i as usize, true))
}

/// The candidates among the first `n` that some response decided to block, in ascending order.
/// Missing or malformed decisions count as `keep`.
pub open spec fn confirmed_below(n: nat, responses: Seq<Option<(usize, bool)>>) -> Seq<nat>
    decreases n,
{
    if n == 0 {
        Seq::empty()
    } else {
        let prev = confirmed_below((n - 1) as nat, responses);
        if decided_block(responses, (n - 1) as nat) {
            prev.push((n - 1) as nat)
        } else {
            prev
        }
    }
}

/// The candidates (of `n`) to block, in candidate order, from the decisions collected in
/// whatever order the prompts were answered.
pub fn confirmed_indices(n: usize, responses: &Vec<Option<(usize, bool)>>) -> (r: Vec<usize>)
    ensures
        r@.len() == confirmed_below(n as nat, responses@).len(),
        forall|k: int| 0 <= k < r@.len() ==> r@[k] == confirmed_below(n as nat, responses@)[k],
{
    let mut blocked: Vec<bool> = Vec::new();
    let mut i: usize = 0;
    while i < n
        invariant
            i <= n,
            blocked@.len() == i,
            forall|k: int| 0 <= k < i ==> !blocked@[k],
        decreases n - i,
    {
        blocked.push(false);
        i = i + 1;
    }
    let mut j: usize = 0;
    while j < responses.len()
        invariant
            j <= responses@.len(),
            blocked@.len() == n,
            forall|k: int|
                0 <= k < n ==> (blocked@[k] <==> exists|m: int|
                    0 <= m < j && responses@[m] == Some((k as usize, true))),
        decreases responses@.len() - j,
    {
        match responses[j] {
            Some((k, true)) => {
                if k < n {
                    blocked.set(k, true);
                }
            },
            _ => {},
        }
        proof {
            assert forall|k: int|
                0 <= k < n implies (blocked@[k] <==> exists|m: int|
                0 <= m < j + 1 && responses@[m] == Some((k as usize, true))) by {
                if blocked@[k] && !(exists|m: int|
                    0 <= m < j && responses@[m] == Some((k as usize, true))) {
                    assert(responses@[j as int] == Some((k as usize, true)));
                }
                if exists|m: int| 0 <= m < j + 1 && responses@[m] == Some((k as usize, true)) {
                    let m = choose|m: int|
                        0 <= m < j + 1 && responses@[m] == Some((k as usize, true));
                    if m < j {
                    } else {
                        assert(responses@[j as int] == Some((k as usize, true)));
                    }
                }
            }
        }
        j = j + 1;
    }
    let mut out: Vec<usize> = Vec::new();
    let mut i: usize = 0;
    while i < n
        invariant
            i <= n,
            blocked@.len() == n,
            forall|k: int| 0 <= k < n ==> (blocked@[k] <==> decided_block(responses@, k as nat)),
            out@.len() == confirmed_below(i as nat, responses@).len(),
            forall|k: int|
                0 <= k < out@.len() ==> out@[k] == confirmed_below(i as nat, responses@)[k],
        decreases n - i,
    {
        if blocked[i] {
            out.push(i);
        }
        i = i + 1;
    }
    out
}

/// What to do about a source once its image is confirmed blocked.
#[derive(Clone, Copy, Debug, PartialEq, Eq, Structural)]
pub enum Remediation {
    /// Delete the message that carries the image.
    DeleteMessage(u64),
    /// Notify the user, then remove them from the guild.
    KickUser(u64),
    /// Delete the custom emoji; one the platform reports as unknown is already gone.
    DeleteEmoji(u64),
    /// Delete the sticker; one that is already gone is no failure.
    DeleteSticker(u64),
    /// Remove every reaction with this source's emoji from the message.
    RemoveReactions(u64),
    /// Clear the guild's icon.
    ClearIcon,
    /// Clear the guild's banner.
    ClearBanner,
}

/// The remediation of a confirmed source, for a prompt about the message `message` or about the
/// profile picture of `user`.
pub open spec fn remediation_of(src: ResolveUrl, message: Option<u64>, user: Option<u64>) -> Seq<
    Remediation,
> {
    match src {
        ResolveUrl::Direct(_) => (match message {
            Some(m) => seq![Remediation::DeleteMessage(m)],
            None => Seq::empty(),
        }) + (match user {
            Some(u) => seq![Remediation::KickUser(u)],
            None => Seq::empty(),
        }),
        ResolveUrl::Emoji(id) => seq![Remediation::DeleteEmoji(id)],
        ResolveUrl::Sticker(s) => seq![Remediation::DeleteSticker(s.id)],
        ResolveUrl::Reaction(_) => match message {
            Some(m) => seq![Remediation::RemoveReactions(m)],
            None => Seq::empty(),
        },
        ResolveUrl::Icon(_) => seq![Remediation::ClearIcon],
        ResolveUrl::Banner(_) => seq![Remediation::ClearBanner],
    }
}

/// The remediations of a confirmed source, in the order they are to be done.
pub fn remediation_for(src: &ResolveUrl, message: Option<u64>, user: Option<u64>) -> (r: Vec<
    Remediation,
>)
    ensures
        r@ == remediation_of(*src, message, user),
{
    let mut out: Vec<Remediation> = Vec::new();
    match src {
        ResolveUrl::Direct(_) => {
            if let Some(m) = message {
                out.push(Remediation::DeleteMessage(m));
            }
            if let Some(u) = user {
                out.push(Remediation::KickUser(u));
            }
        },
        ResolveUrl::Emoji(id) => out.push(Remediation::DeleteEmoji(*id)),
        ResolveUrl::Sticker(s) => out.push(Remediation::DeleteSticker(s.id)),
        ResolveUrl::Reaction(_) => {
            if let Some(m) = message {
                out.push(Remediation::RemoveReactions(m));
            }
        },
        ResolveUrl::Icon(_) => out.push(Remediation::ClearIcon),
        ResolveUrl::Banner(_) => out.push(Remediation::ClearBanner),
    }
    assert(out@ =~= remediation_of(*src, message, user));
    out
}

/// The remediation of a source found blocked by passive filtering: a source carried by a
/// message takes the message down; any other source is remediated on its own.
pub open spec fn passive_remediation_of(src: ResolveUrl, message: Option<u64>, user: Option<u64>) -> Seq<
    Remediation,
> {
    match message {
        Some(m) => match src {
            ResolveUrl::Reaction(_) => seq![Remediation::RemoveReactions(m)],
            _ => seq![Remediation::DeleteMessage(m)],
        },
        None => remediation_of(src, None, user),
    }
}

/// The remediations of a source found blocked by passive filtering.
pub fn passive_remediation(src: &ResolveUrl, message: Option<u64>, user: Option<u64>) -> (r: Vec<
    Remediation,
>)
    ensures
        r@ == passive_remediation_of(*src, message, user),
{
    match message {
        Some(m) => {
            let mut out: Vec<Remediation> = Vec::new();
            match src {
                ResolveUrl::Reaction(_) => out.push(Remediation::RemoveReactions(m)),
                _ => out.push(Remediation::DeleteMessage(m)),
            }
            assert(out@ =~= passive_remediation_of(*src, message, user));
            out
        },
        None => remediation_for(src, None, user),
    }
}

/// The platform's error code for an emoji that does not exist.
pub const UNKNOWN_EMOJI: i64 = 10014;

/// Whether a failed emoji deletion, with the platform's error code if it gave one, counts as
/// done: the emoji is already gone.
pub fn emoji_already_gone(code: Option<i64>) -> (r: bool)
    ensures
        r == (code == Some(UNKNOWN_EMOJI)),
{
    match code {
        Some(c) => c == UNKNOWN_EMOJI,
        None => false,
    }
}

/// The platform's error code for a sticker that does not exist.
pub const UNKNOWN_STICKER: i64 = 10060;

/// Whether a failed sticker deletion, with the platform's error code if it gave one, counts as
/// done: the sticker is already gone.
pub fn sticker_already_gone(code: Option<i64>) -> (r: bool)
    ensures
        r == (code == Some(UNKNOWN_STICKER)),
{
    match code {
        Some(c) => c == UNKNOWN_STICKER,
        None => false,
    }
}

/// The blob to write after a confirmation whose confirmed hashes are `confirmed`, or `None`
/// when every one of them was stored already and nothing is to be written.
pub open spec fn update_of(stored: Seq<Seq<u8>>, confirmed: Seq<Seq<u8>>) -> Option<Seq<u8>> {
    if fresh_hashes(stored, confirmed).len() == 0 {
        None
    } else {
        Some(blob_of(merged_hashes(stored, confirmed)))
    }
}

/// The blob to write after a confirmation, from the result of loading the stored hashes (an
/// absent blob loads as no hashes) and the hashes of the confirmed candidates in order.
/// A failed load is returned as it is, so that nothing is written over the stored blob;
/// otherwise `None` means nothing changed and nothing is to be written.
pub fn blocklist_update(
    stored: &Result<Vec<FixedHash>, StoreError>,
    confirmed: &Vec<FixedHash>,
) -> (r: Result<Option<Vec<u8>>, StoreError>)
    ensures
        stored matches Err(e) ==> r == Err::<Option<Vec<u8>>, StoreError>(*e),
        stored matches Ok(v) ==> r is Ok && match r->Ok_0 {
            Some(b) => update_of(hash_views(v@), hash_views(confirmed@)) == Some(b@),
            None => update_of(hash_views(v@), hash_views(confirmed@)) is None,
        },
{
    let base = match stored {
        Ok(v) => v,
        Err(e) => {
            return Err(*e);
        },
    };
    let fresh = fresh_of(base, confirmed);
    if fresh.len() == 0 {
        return Ok(None);
    }
    Ok(Some(merged_blob(base, confirmed)))
}

/// The hashes of the confirmed candidates, in candidate order.
pub open spec fn confirmed_hashes(confirmed: Seq<nat>, hashes: Seq<Seq<u8>>) -> Seq<Seq<u8>> {
    confirmed.map_values(|i: nat| hashes[i as int])
}

proof fn lemma_confirmed_below(n: nat, responses: Seq<Option<(usize, bool)>>)
    ensures
        forall|i: nat| #[trigger]
            confirmed_below(n, responses).contains(i) <==> (i < n && decided_block(responses, i)),
        forall|k: int|
            0 <= k < confirmed_below(n, responses).len() ==> #[trigger] confirmed_below(
                n,
                responses,
            )[k] < n,
    decreases n,
{
    if n > 0 {
        let m = (n - 1) as nat;
        lemma_confirmed_below(m, responses);
        let prev = confirmed_below(m, responses);
        assert forall|i: nat| #[trigger]
            confirmed_below(n, responses).contains(i) <==> (i < n && decided_block(
                responses,
                i,
            )) by {
            if decided_block(responses, m) {
                let cur = prev.push(m);
                if cur.contains(i) && i != m {
                    let k = choose|k: int| 0 <= k < cur.len() && cur[k] == i;
                    assert(prev[k] == i);
                }
                if prev.contains(i) {
                    let k = choose|k: int| 0 <= k < prev.len() && prev[k] == i;
                    assert(cur[k] == i);
                }
                if i == m {
                    assert(cur[cur.len() - 1] == i);
                }
            }
        }
    }
}

/// Confirmation outcome: whatever order the prompts were answered in, the blob written back
/// holds exactly the stored hashes and the hashes of the candidates decided `block`; and nothing
/// is written exactly when all of those hashes were stored already.
pub proof fn lemma_confirmation_outcome(
    stored: Seq<Seq<u8>>,
    responses: Seq<Option<(usize, bool)>>,
    hashes: Seq<Seq<u8>>,
)
    requires
        all_hash_sized(stored),
        all_hash_sized(hashes),
    ensures
        ({
            let c = confirmed_hashes(confirmed_below(hashes.len(), responses), hashes);
            &&& update_of(stored, c) is None <==> (forall|i: nat|
                i < hashes.len() && decided_block(responses, i) ==> stored.contains(
                    #[trigger] hashes[i as int],
                ))
            &&& update_of(stored, c) matches Some(blob) ==> stored_hashes(blob) is Some
                && forall|h: Seq<u8>| #[trigger]
                stored_hashes(blob)->0.contains(h) <==> (stored.contains(h) || exists|i: nat|
                    i < hashes.len() && decided_block(responses, i) && hashes[i as int] == h)
        }),
{
    let n = hashes.len();
    let conf = confirmed_below(n, responses);
    let c = confirmed_hashes(conf, hashes);
    lemma_confirmed_below(n, responses);
    assert forall|h: Seq<u8>| #[trigger]
        c.contains(h) <==> exists|i: nat|
            i < n && decided_block(responses, i) && hashes[i as int] == h by {
        if c.contains(h) {
            let k = choose|k: int| 0 <= k < c.len() && c[k] == h;
            let i = conf[k];
            assert(conf.contains(i));
            assert(i < n && decided_block(responses, i) && hashes[i as int] == h);
        }
        if exists|i: nat| i < n && decided_block(responses, i) && hashes[i as int] == h {
            let i = choose|i: nat| i < n && decided_block(responses, i) && hashes[i as int] == h;
            assert(conf.contains(i));
            let k = choose|k: int| 0 <= k < conf.len() && conf[k] == i;
            assert(c[k] == h);
        }
    }
    assert(all_hash_sized(c)) by {
        assert forall|k: int| 0 <= k < c.len() implies #[trigger] c[k].len() == crate::HASH_BYTES by {
            assert(conf[k] < n);
        }
    }
    lemma_fresh_members(stored, c);
    if forall|i: nat|
        i < n && decided_block(responses, i) ==> stored.contains(#[trigger] hashes[i as int]) {
        assert forall|k: int| 0 <= k < c.len() implies stored.contains(#[trigger] c[k]) by {
            let i = conf[k];
            assert(conf.contains(i));
        }
        lemma_merge_known(stored, c);
    } else {
        let i = choose|i: nat|
            !(i < n && decided_block(responses, i) ==> stored.contains(#[trigger] hashes[i as int]));
        assert(c.contains(hashes[i as int]));
        assert(fresh_hashes(stored, c).contains(hashes[i as int]));
    }
    if update_of(stored, c) is Some {
        lemma_merge_then_load(stored, c);
    }
}

} // verus!
