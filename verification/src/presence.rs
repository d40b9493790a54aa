//! The presence subsystem: who is online, and when the others were last
//! seen.
//!
//! `PresenceStore` is the verified model of the ephemeral store the service
//! keeps this state in: an online flag per user that lives until a
//! time-to-live deadline and is refreshed by heartbeats, and a last-seen
//! stamp written on the explicit offline transition and kept until the next
//! cycle. A crashed connection that never runs its offline cleanup goes
//! stale-online for at most the time-to-live window. `combine_presence`
//! carries the batch-query logic that pairs a round of online flags with
//! the last-seen stamps fetched for the offline subset.

use vstd::prelude::*;

use crate::assoc::AssocMap;

verus! {

/// How long an unrefreshed online flag lives, in seconds.
pub const PRESENCE_TTL_SECONDS: u64 = 60;

/// One user's presence as reported by a batch query.
#[derive(Debug, Clone, PartialEq, Eq)]
pub struct PresenceInfo {
    pub user_id: u128,
    pub is_online: bool,
    /// Reported only for a user found offline, and only when an offline
    /// transition ever recorded one.
    pub last_seen: Option<String>,
}

/// The presence state: online deadlines and last-seen stamps.
pub struct PresenceStore {
    online: AssocMap<u64>,
    last_seen: AssocMap<String>,
}

/// Whether `user_id` counts as online at moment `now`: its flag exists and
/// its deadline has not passed.
pub open spec fn spec_is_online(online: Map<u128, u64>, user_id: u128, now: u64) -> bool {
    online.dom().contains(user_id) && online[user_id] > now
}

impl PresenceStore {
    pub closed spec fn wf(self) -> bool {
        &&& self.online.wf()
        &&& self.last_seen.wf()
    }

    /// The online deadlines.
    pub closed spec fn online_view(self) -> Map<u128, u64> {
        self.online@
    }

    /// The last-seen stamps.
    pub closed spec fn last_seen_view(self) -> Map<u128, Seq<char>> {
        Map::new(|k: u128| self.last_seen@.dom().contains(k), |k: u128| self.last_seen@[k]@)
    }

    pub fn new() -> (r: PresenceStore)
        ensures
            r.wf(),
            r.online_view() == Map::<u128, u64>::empty(),
            r.last_seen_view() == Map::<u128, Seq<char>>::empty(),
    {
        let r = PresenceStore { online: AssocMap::new(), last_seen: AssocMap::new() };
        proof {
            assert(r.last_seen_view() =~= Map::<u128, Seq<char>>::empty());
        }
        r
    }

    /// Marks the user online until the time-to-live runs out. The
    /// last-seen stamps are untouched.
    pub fn set_online(&mut self, user_id: u128, now: u64)
        requires
            old(self).wf(),
            now + PRESENCE_TTL_SECONDS <= u64::MAX,
        ensures
            final(self).wf(),
            final(self).online_view() == old(self).online_view().insert(
                user_id,
                (now + PRESENCE_TTL_SECONDS) as u64,
            ),
            final(self).last_seen_view() == old(self).last_seen_view(),
    {
        self.online.insert(user_id, now + PRESENCE_TTL_SECONDS);
        proof {
            assert(self.last_seen_view() =~= old(self).last_seen_view());
        }
    }

    /// Marks the user offline and records when it was last seen, as one
    /// step: no moment exists with the flag gone and the stamp missing.
    pub fn set_offline(&mut self, user_id: u128, now_iso: String)
        requires
            old(self).wf(),
        ensures
            final(self).wf(),
            final(self).online_view() == old(self).online_view().remove(user_id),
            final(self).last_seen_view() == old(self).last_seen_view().insert(
                user_id,
                now_iso@,
            ),
    {
        self.online.remove(user_id);
        self.last_seen.insert(user_id, now_iso);
        proof {
            assert(self.last_seen_view() =~= old(self).last_seen_view().insert(
                user_id,
                now_iso@,
            ));
        }
    }

    /// Extends the online deadline of a user that is still online; a no-op
    /// for a user whose flag is absent or already run out.
    pub fn refresh(&mut self, user_id: u128, now: u64)
        requires
            old(self).wf(),
            now + PRESENCE_TTL_SECONDS <= u64::MAX,
        ensures
            final(self).wf(),
            final(self).last_seen_view() == old(self).last_seen_view(),
            spec_is_online(old(self).online_view(), user_id, now) ==> final(self).online_view()
                == old(self).online_view().insert(user_id, (now + PRESENCE_TTL_SECONDS) as u64),
            !spec_is_online(old(self).online_view(), user_id, now) ==> final(self).online_view()
                == old(self).online_view(),
    {
        let alive: bool = match self.online.get(user_id) {
            Option::Some(deadline) => *deadline > now,
            Option::None => false,
        };
        if alive {
            self.online.insert(user_id, now + PRESENCE_TTL_SECONDS);
        }
    }

    /// Whether the user is online at moment `now`.
    pub fn is_online(&self, user_id: u128, now: u64) -> (r: bool)
        requires
            self.wf(),
        ensures
            r == spec_is_online(self.online_view(), user_id, now),
    {
        match self.online.get(user_id) {
            Option::Some(deadline) => *deadline > now,
            Option::None => false,
        }
    }

    /// The last-seen stamp of a user, when an offline transition ever
    /// recorded one.
    pub fn get_last_seen(&self, user_id: u128) -> (r: Option<String>)
        requires
            self.wf(),
        ensures
            match r {
                Option::Some(ts) => self.last_seen_view().dom().contains(user_id) && ts@
                    == self.last_seen_view()[user_id],
                Option::None => !self.last_seen_view().dom().contains(user_id),
            },
    {
        match self.last_seen.get(user_id) {
            Option::Some(ts) => Option::Some(ts.clone()),
            Option::None => Option::None,
        }
    }

    /// One presence report per queried user, in order: online users report
    /// no last-seen stamp; offline users report the stamp their last
    /// offline transition recorded, or nothing when none ever did.
    pub fn get_batch(&self, user_ids: &Vec<u128>, now: u64) -> (r: Vec<PresenceInfo>)
        requires
            self.wf(),
        ensures
            r@.len() == user_ids@.len(),
            forall|i: int|
                0 <= i < r@.len() ==> (#[trigger] r@[i]).user_id == user_ids@[i],
            forall|i: int|
                0 <= i < r@.len() ==> (#[trigger] r@[i]).is_online == spec_is_online(
                    self.online_view(),
                    user_ids@[i],
                    now,
                ),
            forall|i: int|
                0 <= i < r@.len() && (#[trigger] r@[i]).is_online ==> r@[i].last_seen is None,
            forall|i: int|
                0 <= i < r@.len() && !(#[trigger] r@[i]).is_online ==> (match r@[i].last_seen {
                    Option::Some(ts) => self.last_seen_view().dom().contains(user_ids@[i]) && ts@
                        == self.last_seen_view()[user_ids@[i]],
                    Option::None => !self.last_seen_view().dom().contains(user_ids@[i]),
                }),
    {
        let n: usize = user_ids.len();
        let mut out: Vec<PresenceInfo> = Vec::new();
        let mut i: usize = 0;
        while i < n
            invariant
                i <= n,
                n == user_ids@.len(),
                self.wf(),
                out@.len() == i,
                forall|j: int|
                    0 <= j < i ==> (#[trigger] out@[j]).user_id == user_ids@[j],
                forall|j: int|
                    0 <= j < i ==> (#[trigger] out@[j]).is_online == spec_is_online(
                        self.online_view(),
                        user_ids@[j],
                        now,
                    ),
                forall|j: int|
                    0 <= j < i && (#[trigger] out@[j]).is_online ==> out@[j].last_seen is None,
                forall|j: int|
                    0 <= j < i && !(#[trigger] out@[j]).is_online ==> (match out@[j].last_seen {
                        Option::Some(ts) => self.last_seen_view().dom().contains(user_ids@[j])
                            && ts@ == self.last_seen_view()[user_ids@[j]],
                        Option::None => !self.last_seen_view().dom().contains(user_ids@[j]),
                    }),
            decreases n - i,
        {
            let uid = user_ids[i];
            let online_now = self.is_online(uid, now);
            let last_seen: Option<String> = if online_now {
                Option::None
            } else {
                self.get_last_seen(uid)
            };
            out.push(PresenceInfo { user_id: uid, is_online: online_now, last_seen });
            i = i + 1;
        }
        out
    }
}

/// How many of the first `i` flags are off.
pub open spec fn count_offline_before(flags: Seq<bool>, i: int) -> int
    decreases i,
{
    if i <= 0 {
        0
    } else {
        count_offline_before(flags, i - 1) + if flags[i - 1] {
            0int
        } else {
            1int
        }
    }
}

/// Pairs one round of online flags with the last-seen stamps fetched for
/// the offline subset, in query order: the k-th offline user takes the k-th
/// stamp, and an offline user beyond the fetched stamps reports none.
pub fn combine_presence(
    user_ids: &Vec<u128>,
    online_flags: &Vec<bool>,
    offline_last_seen: &Vec<Option<String>>,
) -> (r: Vec<PresenceInfo>)
    requires
        online_flags@.len() == user_ids@.len(),
    ensures
        r@.len() == user_ids@.len(),
        forall|i: int| 0 <= i < r@.len() ==> (#[trigger] r@[i]).user_id == user_ids@[i],
        forall|i: int|
            0 <= i < r@.len() ==> (#[trigger] r@[i]).is_online == online_flags@[i],
        forall|i: int|
            0 <= i < r@.len() && online_flags@[i] ==> (#[trigger] r@[i]).last_seen is None,
        forall|i: int|
            0 <= i < r@.len() && !online_flags@[i] ==> (#[trigger] r@[i]).last_seen == (if
            count_offline_before(online_flags@, i) < offline_last_seen@.len() {
                offline_last_seen@[count_offline_before(online_flags@, i)]
            } else {
                Option::<String>::None
            }),
{
    let n: usize = user_ids.len();
    let mut out: Vec<PresenceInfo> = Vec::new();
    let mut ls_idx: usize = 0;
    let mut i: usize = 0;
    while i < n
        invariant
            i <= n,
            n == user_ids@.len(),
            online_flags@.len() == n,
            out@.len() == i,
            ls_idx <= i,
            ls_idx == count_offline_before(online_flags@, i as int),
            forall|j: int| 0 <= j < i ==> (#[trigger] out@[j]).user_id == user_ids@[j],
            forall|j: int| 0 <= j < i ==> (#[trigger] out@[j]).is_online == online_flags@[j],
            forall|j: int|
                0 <= j < i && online_flags@[j] ==> (#[trigger] out@[j]).last_seen is None,
            forall|j: int|
                0 <= j < i && !online_flags@[j] ==> (#[trigger] out@[j]).last_seen == (if
                count_offline_before(online_flags@, j) < offline_last_seen@.len() {
                    offline_last_seen@[count_offline_before(online_flags@, j)]
                } else {
                    Option::<String>::None
                }),
        decreases n - i,
    {
        let uid = user_ids[i];
        let online_now = online_flags[i];
        let last_seen: Option<String> = if online_now {
            Option::None
        } else {
            let fetched: Option<String> = if ls_idx < offline_last_seen.len() {
                match &offline_last_seen[ls_idx] {
                    Option::Some(ts) => Option::Some(ts.clone()),
                    Option::None => Option::None,
                }
            } else {
                Option::None
            };
            ls_idx = ls_idx + 1;
            fetched
        };
        out.push(PresenceInfo { user_id: uid, is_online: online_now, last_seen });
        i = i + 1;
    }
    out
}

/// On sequences of the same length whose elements satisfy two predicates
/// in lockstep, the predicates select the same number of elements.
proof fn lemma_filter_count_pointwise<A, B>(
    a: Seq<A>,
    b: Seq<B>,
    pa: spec_fn(A) -> bool,
    pb: spec_fn(B) -> bool,
)
    requires
        a.len() == b.len(),
        forall|i: int| 0 <= i < a.len() ==> pa(#[trigger] a[i]) == pb(#[trigger] b[i]),
    ensures
        a.filter(pa).len() == b.filter(pb).len(),
    decreases a.len(),
{
    reveal(Seq::filter);
    if a.len() > 0 {
        let a2 = a.drop_last();
        let b2 = b.drop_last();
        assert(forall|i: int| 0 <= i < a2.len() ==> pa(#[trigger] a2[i]) == pb(#[trigger] b2[i]));
        lemma_filter_count_pointwise(a2, b2, pa, pb);
    }
}

/// The batch-count law: of the reports a presence batch returns, exactly
/// as many say online as there are queried users whose flag is live, and
/// the rest say offline.
pub proof fn lemma_batch_online_count(
    online: Map<u128, u64>,
    user_ids: Seq<u128>,
    now: u64,
    infos: Seq<PresenceInfo>,
)
    requires
        infos.len() == user_ids.len(),
        forall|i: int|
            0 <= i < infos.len() ==> (#[trigger] infos[i]).is_online == spec_is_online(
                online,
                user_ids[i],
                now,
            ),
    ensures
        infos.filter(|p: PresenceInfo| p.is_online).len() == user_ids.filter(
            |u: u128| spec_is_online(online, u, now),
        ).len(),
        infos.filter(|p: PresenceInfo| !p.is_online).len() == user_ids.filter(
            |u: u128| !spec_is_online(online, u, now),
        ).len(),
{
    lemma_filter_count_pointwise(
        infos,
        user_ids,
        |p: PresenceInfo| p.is_online,
        |u: u128| spec_is_online(online, u, now),
    );
    lemma_filter_count_pointwise(
        infos,
        user_ids,
        |p: PresenceInfo| !p.is_online,
        |u: u128| !spec_is_online(online, u, now),
    );
}

} // verus!
