//! The assignment engine: partitioning registered participants into meetups
//! on entry of the ASSIGNING phase.

use vstd::prelude::*;

use crate::{CurrencyIdentifier, Reputation, Trait};
use crate::registry::Ceremonies;
use crate::storage::{
    copy_u64_vec, count_get, count_lookup, lemma_count_push, lemma_members_push, lemma_slot_push,
    members_lookup, rep_get, rep_lookup, slot_get, slot_lookup, CountEntry, MembersEntry, RepEntry,
    SlotEntry,
};

verus! {

/// The registered participants of a ceremony, in registration order
/// (participant indices 1 through `pcount`).
pub open spec fn participants_seq(
    preg: Seq<SlotEntry>,
    cid: u64,
    ci: u32,
    pcount: u64,
) -> Seq<u64> {
    Seq::new(pcount as nat, |i: int| slot_lookup(preg, cid, ci, (i + 1) as u64))
}

/// Whether a participant counts as reputable during assignment: standing
/// from the current reputation entry, or founding membership.
pub open spec fn reputable_in<E: Trait>(
    reps: Seq<RepEntry>,
    ext: &E,
    cid: u64,
    ci: u32,
    a: u64,
) -> bool {
    rep_lookup(reps, cid, ci, a) == Reputation::UnverifiedReputable || ext.bootstrapper_spec(
        cid,
        a,
    )
}

/// The participants of `ps` classified as reputables, in order.
pub open spec fn reputables_of<E: Trait>(
    reps: Seq<RepEntry>,
    ext: &E,
    cid: u64,
    ci: u32,
    ps: Seq<u64>,
) -> Seq<u64>
    decreases ps.len(),
{
    if ps.len() == 0 {
        Seq::<u64>::empty()
    } else {
        let pre = reputables_of(reps, ext, cid, ci, ps.drop_last());
        if reputable_in(reps, ext, cid, ci, ps.last()) {
            pre.push(ps.last())
        } else {
            pre
        }
    }
}

/// The participants of `ps` classified as newbies, in order.
pub open spec fn newbies_of<E: Trait>(
    reps: Seq<RepEntry>,
    ext: &E,
    cid: u64,
    ci: u32,
    ps: Seq<u64>,
) -> Seq<u64>
    decreases ps.len(),
{
    if ps.len() == 0 {
        Seq::<u64>::empty()
    } else {
        let pre = newbies_of(reps, ext, cid, ci, ps.drop_last());
        if !reputable_in(reps, ext, cid, ci, ps.last()) {
            pre.push(ps.last())
        } else {
            pre
        }
    }
}

/// The two classes partition the participants, and both draw only from them.
pub proof fn lemma_split_elems<E: Trait>(
    reps: Seq<RepEntry>,
    ext: &E,
    cid: u64,
    ci: u32,
    ps: Seq<u64>,
)
    ensures
        reputables_of(reps, ext, cid, ci, ps).len() + newbies_of(reps, ext, cid, ci, ps).len()
            == ps.len(),
        forall|i: int|
            0 <= i < reputables_of(reps, ext, cid, ci, ps).len() ==> ps.contains(
                #[trigger] reputables_of(reps, ext, cid, ci, ps)[i],
            ),
        forall|i: int|
            0 <= i < newbies_of(reps, ext, cid, ci, ps).len() ==> ps.contains(
                #[trigger] newbies_of(reps, ext, cid, ci, ps)[i],
            ),
    decreases ps.len(),
{
    if ps.len() == 0 {
    } else {
        lemma_split_elems(reps, ext, cid, ci, ps.drop_last());
        assert forall|i: int|
            0 <= i < reputables_of(reps, ext, cid, ci, ps).len() implies ps.contains(
            #[trigger] reputables_of(reps, ext, cid, ci, ps)[i],
        ) by {
            let pre = reputables_of(reps, ext, cid, ci, ps.drop_last());
            if i < pre.len() {
                assert(ps.drop_last().contains(pre[i]));
                let w = choose|w: int| 0 <= w < ps.drop_last().len() && ps.drop_last()[w] == pre[i];
                assert(ps[w] == pre[i]);
            } else {
                assert(ps[ps.len() - 1] == reputables_of(reps, ext, cid, ci, ps)[i]);
            }
        }
        assert forall|i: int|
            0 <= i < newbies_of(reps, ext, cid, ci, ps).len() implies ps.contains(
            #[trigger] newbies_of(reps, ext, cid, ci, ps)[i],
        ) by {
            let pre = newbies_of(reps, ext, cid, ci, ps.drop_last());
            if i < pre.len() {
                assert(ps.drop_last().contains(pre[i]));
                let w = choose|w: int| 0 <= w < ps.drop_last().len() && ps.drop_last()[w] == pre[i];
                assert(ps[w] == pre[i]);
            } else {
                assert(ps[ps.len() - 1] == newbies_of(reps, ext, cid, ci, ps)[i]);
            }
        }
    }
}

/// Total number of members over a list of meetups.
pub open spec fn total_len(ms: Seq<Vec<u64>>) -> int
    decreases ms.len(),
{
    if ms.len() == 0 {
        0
    } else {
        total_len(ms.drop_last()) + ms.last()@.len()
    }
}

/// The total is nonnegative.
pub proof fn lemma_total_len_nonneg(ms: Seq<Vec<u64>>)
    ensures
        total_len(ms) >= 0,
    decreases ms.len(),
{
    if ms.len() == 0 {
    } else {
        lemma_total_len_nonneg(ms.drop_last());
    }
}

/// The total bounds every single meetup's size.
pub proof fn lemma_total_len_ge(ms: Seq<Vec<u64>>, j: int)
    requires
        0 <= j < ms.len(),
    ensures
        ms[j]@.len() <= total_len(ms),
    decreases ms.len(),
{
    lemma_total_len_nonneg(ms);
    if j == ms.len() - 1 {
        lemma_total_len_nonneg(ms.drop_last());
    } else {
        lemma_total_len_ge(ms.drop_last(), j);
        assert(ms.drop_last()[j] == ms[j]);
    }
}

/// Replacing one meetup changes the total by the difference in its size.
pub proof fn lemma_total_len_update(ms: Seq<Vec<u64>>, j: int, v: Vec<u64>)
    requires
        0 <= j < ms.len(),
    ensures
        total_len(ms.update(j, v)) == total_len(ms) - ms[j]@.len() + v@.len(),
    decreases ms.len(),
{
    if j == ms.len() - 1 {
        assert(ms.update(j, v).drop_last() =~= ms.drop_last());
        assert(ms.update(j, v).last() == v);
    } else {
        lemma_total_len_update(ms.drop_last(), j, v);
        assert(ms.update(j, v).drop_last() =~= ms.drop_last().update(j, v));
        assert(ms.update(j, v).last() == ms.last());
    }
}

/// Total number of accounts stored in meetups 1 through `n` of a ceremony.
pub open spec fn stored_total(mreg: Seq<MembersEntry>, cid: u64, ci: u32, n: int) -> int
    decreases n,
{
    if n <= 0 {
        0
    } else {
        stored_total(mreg, cid, ci, n - 1) + members_lookup(mreg, cid, ci, n as u64).len()
    }
}

/// Two stores agreeing on meetups 1 through `n` have the same stored total.
pub proof fn lemma_stored_total_frame(
    mreg1: Seq<MembersEntry>,
    mreg2: Seq<MembersEntry>,
    cid: u64,
    ci: u32,
    n: int,
)
    requires
        n <= u64::MAX,
        forall|ii: u64|
            1 <= ii <= n ==> #[trigger] members_lookup(mreg1, cid, ci, ii) == members_lookup(
                mreg2,
                cid,
                ci,
                ii,
            ),
    ensures
        stored_total(mreg1, cid, ci, n) == stored_total(mreg2, cid, ci, n),
    decreases n,
{
    if n <= 0 {
    } else {
        lemma_stored_total_frame(mreg1, mreg2, cid, ci, n - 1);
        assert(members_lookup(mreg1, cid, ci, n as u64) == members_lookup(mreg2, cid, ci, n as u64));
    }
}

/// The number of meetups attempted for `r` reputables and `a` admitted
/// newbies: one more than the pool size divided by the target size of 12.
pub open spec fn meetup_target_count(r: int, a: int) -> int {
    (r + a) / 12 + 1
}

/// The elements of `s` handed to meetup `j` when the first `t` of them are
/// distributed round-robin over `k` meetups: those at indices congruent to
/// `j` modulo `k`, in order.
pub open spec fn round_robin(s: Seq<u64>, j: int, k: int, t: int) -> Seq<u64>
    decreases t,
{
    if t <= 0 {
        Seq::<u64>::empty()
    } else {
        let pre = round_robin(s, j, k, t - 1);
        if (t - 1) % k == j {
            pre.push(s[t - 1])
        } else {
            pre
        }
    }
}

/// The newbies admitted to meetup `j` after the first `t` candidates were
/// offered round-robin over `k` meetups: a candidate of this meetup enters
/// only while the meetup's size, `base` reputables plus the newbies so far,
/// stays under `cap`.
pub open spec fn admitted_to(
    s: Seq<u64>,
    j: int,
    k: int,
    base: int,
    cap: int,
    t: int,
) -> Seq<u64>
    decreases t,
{
    if t <= 0 {
        Seq::<u64>::empty()
    } else {
        let pre = admitted_to(s, j, k, base, cap, t - 1);
        if (t - 1) % k == j && base + pre.len() < cap {
            pre.push(s[t - 1])
        } else {
            pre
        }
    }
}

/// The full member list attempted for meetup `j`: its round-robin share of
/// the reputables, then the newbies it admits under the 4/3 size limit,
/// with `a` newbie candidates offered in all.
pub open spec fn attempted_meetup(
    reps: Seq<u64>,
    news: Seq<u64>,
    j: int,
    k: int,
    a: int,
) -> Seq<u64> {
    let rr = round_robin(reps, j, k, reps.len() as int);
    rr + admitted_to(news, j, k, rr.len() as int, rr.len() as int * 4 / 3, a)
}

/// All `k` attempted meetups of one community, in meetup order.
pub open spec fn attempted_meetups(reps: Seq<u64>, news: Seq<u64>, k: int, a: int) -> Seq<
    Seq<u64>,
> {
    Seq::new(k as nat, |j: int| attempted_meetup(reps, news, j, k, a))
}

/// The attempted meetups that reach the minimum size of 3, in order.
pub open spec fn surviving(ms: Seq<Seq<u64>>) -> Seq<Seq<u64>>
    decreases ms.len(),
{
    if ms.len() == 0 {
        Seq::<Seq<u64>>::empty()
    } else {
        let pre = surviving(ms.drop_last());
        if ms.last().len() >= 3 {
            pre.push(ms.last())
        } else {
            pre
        }
    }
}

/// The member lists of a list of meetups.
pub open spec fn views_of(ms: Seq<Vec<u64>>) -> Seq<Seq<u64>> {
    ms.map_values(|v: Vec<u64>| v@)
}

/// The 1-based index of the last meetup in `ms` whose roster holds `a`,
/// 0 when none does. With pairwise-disjoint rosters this is the unique
/// meetup of `a`; with a duplicated account the later binding shadows the
/// earlier one, as the committed reverse index does.
pub open spec fn last_index_in(ms: Seq<Seq<u64>>, a: u64) -> int
    decreases ms.len(),
{
    if ms.len() == 0 {
        0
    } else if ms.last().contains(a) {
        ms.len() as int
    } else {
        last_index_in(ms.drop_last(), a)
    }
}

impl Ceremonies {
    /// The registered participants of `(cid, ci)` classified as reputables,
    /// in registration order.
    pub open spec fn reputables_spec<E: Trait>(self, ext: &E, cid: u64, ci: u32) -> Seq<u64> {
        reputables_of(
            self.participant_reputation@,
            ext,
            cid,
            ci,
            participants_seq(
                self.participant_registry@,
                cid,
                ci,
                count_lookup(self.participant_count@, cid, ci),
            ),
        )
    }

    /// The registered participants of `(cid, ci)` classified as newbies.
    pub open spec fn newbies_spec<E: Trait>(self, ext: &E, cid: u64, ci: u32) -> Seq<u64> {
        newbies_of(
            self.participant_reputation@,
            ext,
            cid,
            ci,
            participants_seq(
                self.participant_registry@,
                cid,
                ci,
                count_lookup(self.participant_count@, cid, ci),
            ),
        )
    }

    /// How many newbies are admitted to the assignment pool: at most one per
    /// four reputables.
    pub open spec fn admitted_newbies_spec<E: Trait>(self, ext: &E, cid: u64, ci: u32) -> int {
        let w = self.newbies_spec(ext, cid, ci).len() as int;
        let r4 = self.reputables_spec(ext, cid, ci).len() as int / 4;
        if w < r4 {
            w
        } else {
            r4
        }
    }

    /// The exact assignment the engine commits for `(cid, ci)`: the
    /// attempted round-robin meetups over the classified participants,
    /// restricted to those of size at least 3.
    pub open spec fn assignment_spec<E: Trait>(self, ext: &E, cid: u64, ci: u32) -> Seq<
        Seq<u64>,
    > {
        let reps = self.reputables_spec(ext, cid, ci);
        let news = self.newbies_spec(ext, cid, ci);
        let a = self.admitted_newbies_spec(ext, cid, ci);
        surviving(attempted_meetups(reps, news, meetup_target_count(reps.len() as int, a), a))
    }

    /// Two states agree on all meetup stores of `(cid, ci)`.
    pub open spec fn same_meetups_key(self, base: Ceremonies, cid: u64, ci: u32) -> bool {
        &&& count_lookup(self.meetup_count@, cid, ci) == count_lookup(base.meetup_count@, cid, ci)
        &&& forall|idx: u64|
            #[trigger] members_lookup(self.meetup_registry@, cid, ci, idx) == members_lookup(
                base.meetup_registry@,
                cid,
                ci,
                idx,
            )
        &&& forall|a: u64|
            #[trigger] slot_lookup(self.meetup_index@, cid, ci, a) == slot_lookup(
                base.meetup_index@,
                cid,
                ci,
                a,
            )
    }

    /// What a committed assignment guarantees for one community: no more
    /// meetups than the target count, every surviving meetup of size at
    /// least 3, only registered participants assigned, and the total
    /// assignment no larger than the admitted pool.
    pub open spec fn community_assigned<E: Trait>(self, ext: &E, cid: u64, ci: u32) -> bool {
        let r = self.reputables_spec(ext, cid, ci).len() as int;
        let a = self.admitted_newbies_spec(ext, cid, ci);
        let pseq = participants_seq(
            self.participant_registry@,
            cid,
            ci,
            count_lookup(self.participant_count@, cid, ci),
        );
        &&& self.mcount_of(cid, ci) <= meetup_target_count(r, a)
        &&& stored_total(self.meetup_registry@, cid, ci, self.mcount_of(cid, ci) as int) <= r + a
        &&& forall|idx: u64|
            1 <= idx <= self.mcount_of(cid, ci) ==> (#[trigger] self.meetup_of(
                cid,
                ci,
                idx,
            )).len() >= 3
        &&& forall|idx: u64, e: int|
            1 <= idx <= self.mcount_of(cid, ci) && 0 <= e < self.meetup_of(cid, ci, idx).len()
                ==> pseq.contains(#[trigger] self.meetup_of(cid, ci, idx)[e])
        &&& self.mcount_of(cid, ci) as int == self.assignment_spec(ext, cid, ci).len()
        &&& forall|idx: u64|
            1 <= idx <= self.mcount_of(cid, ci) ==> #[trigger] self.meetup_of(cid, ci, idx)
                == self.assignment_spec(ext, cid, ci)[idx - 1]
        &&& forall|a: u64|
            last_index_in(self.assignment_spec(ext, cid, ci), a) != 0 ==> #[trigger] self.mindex_of(
                cid,
                ci,
                a,
            ) as int == last_index_in(self.assignment_spec(ext, cid, ci), a)
    }

    /// What one pass of the assignment engine owes for one community,
    /// relative to the state `base` it started from: where the computed
    /// assignment is non-empty it is committed in full; where it is empty
    /// the meetup stores are untouched; accounts outside every committed
    /// roster keep their old reverse-index binding; and rosters above the
    /// committed count are untouched.
    pub open spec fn community_settled<E: Trait>(
        self,
        base: Ceremonies,
        ext: &E,
        cid: u64,
        ci: u32,
    ) -> bool {
        &&& (self.assignment_spec(ext, cid, ci).len() > 0 ==> self.community_assigned(
            ext,
            cid,
            ci,
        ))
        &&& (self.assignment_spec(ext, cid, ci).len() == 0 ==> self.same_meetups_key(
            base,
            cid,
            ci,
        ))
        &&& forall|a: u64|
            last_index_in(self.assignment_spec(ext, cid, ci), a) == 0 ==> #[trigger] self.mindex_of(
                cid,
                ci,
                a,
            ) == base.mindex_of(cid, ci, a)
        &&& forall|idx: u64|
            idx > self.mcount_of(cid, ci) ==> #[trigger] self.meetup_of(cid, ci, idx)
                == base.meetup_of(cid, ci, idx)
    }
}

/// When an account sits in roster `idx` and in no later roster, the last
/// roster index holding it is exactly `idx`.
pub proof fn lemma_last_index_unique(ms: Seq<Seq<u64>>, a: u64, idx: int)
    requires
        1 <= idx <= ms.len(),
        ms[idx - 1].contains(a),
        forall|j: int| idx <= j < ms.len() ==> !(#[trigger] ms[j]).contains(a),
    ensures
        last_index_in(ms, a) == idx,
    decreases ms.len(),
{
    if ms.len() == idx {
    } else {
        assert(!ms[ms.len() - 1].contains(a));
        assert(ms.drop_last()[idx - 1] == ms[idx - 1]);
        assert forall|j: int| idx <= j < ms.drop_last().len() implies !(
        #[trigger] ms.drop_last()[j]).contains(a) by {
            assert(ms.drop_last()[j] == ms[j]);
        }
        lemma_last_index_unique(ms.drop_last(), a, idx);
    }
}

/// A committed prefix never holds more members than all meetups together.
pub proof fn lemma_total_len_take_le(ms: Seq<Vec<u64>>, s: int)
    requires
        0 <= s <= ms.len(),
    ensures
        total_len(ms.take(s)) <= total_len(ms),
    decreases ms.len(),
{
    if s == ms.len() {
        assert(ms.take(s) =~= ms);
    } else {
        assert(ms.take(s) =~= ms.drop_last().take(s));
        lemma_total_len_take_le(ms.drop_last(), s);
    }
}

/// Agreement on meetup stores is transitive.
pub proof fn lemma_same_meetups_trans(a: Ceremonies, b: Ceremonies, c: Ceremonies, cid: u64, ci: u32)
    requires
        a.same_meetups_key(b, cid, ci),
        b.same_meetups_key(c, cid, ci),
    ensures
        a.same_meetups_key(c, cid, ci),
{
    assert forall|idx: u64|
        #[trigger] members_lookup(a.meetup_registry@, cid, ci, idx) == members_lookup(
        c.meetup_registry@,
        cid,
        ci,
        idx,
    ) by {
        assert(members_lookup(a.meetup_registry@, cid, ci, idx) == members_lookup(
            b.meetup_registry@,
            cid,
            ci,
            idx,
        ));
        assert(members_lookup(b.meetup_registry@, cid, ci, idx) == members_lookup(
            c.meetup_registry@,
            cid,
            ci,
            idx,
        ));
    }
    assert forall|a2: u64|
        #[trigger] slot_lookup(a.meetup_index@, cid, ci, a2) == slot_lookup(
        c.meetup_index@,
        cid,
        ci,
        a2,
    ) by {
        assert(slot_lookup(a.meetup_index@, cid, ci, a2) == slot_lookup(
            b.meetup_index@,
            cid,
            ci,
            a2,
        ));
        assert(slot_lookup(b.meetup_index@, cid, ci, a2) == slot_lookup(
            c.meetup_index@,
            cid,
            ci,
            a2,
        ));
    }
}

/// Assignment facts carry over to a state with the same participant and
/// meetup stores.
pub proof fn lemma_assigned_transfer<E: Trait>(
    s1: Ceremonies,
    s2: Ceremonies,
    ext: &E,
    cid: u64,
    ci: u32,
)
    requires
        s2.same_meetups_key(s1, cid, ci),
        s2.participant_registry == s1.participant_registry,
        s2.participant_count == s1.participant_count,
        s2.participant_reputation == s1.participant_reputation,
        s1.community_assigned(ext, cid, ci),
    ensures
        s2.community_assigned(ext, cid, ci),
{
    assert(s2.reputables_spec(ext, cid, ci) == s1.reputables_spec(ext, cid, ci));
    assert(s2.newbies_spec(ext, cid, ci) == s1.newbies_spec(ext, cid, ci));
    assert(s2.assignment_spec(ext, cid, ci) == s1.assignment_spec(ext, cid, ci));
    assert(s2.mcount_of(cid, ci) == s1.mcount_of(cid, ci));
    assert forall|idx: u64| 1 <= idx <= s2.mcount_of(cid, ci) implies #[trigger] s2.meetup_of(
        cid,
        ci,
        idx,
    ) == s2.assignment_spec(ext, cid, ci)[idx - 1] by {
        assert(s2.meetup_of(cid, ci, idx) == s1.meetup_of(cid, ci, idx));
    }
    lemma_stored_total_frame(
        s2.meetup_registry@,
        s1.meetup_registry@,
        cid,
        ci,
        s2.mcount_of(cid, ci) as int,
    );
    assert forall|idx: u64| 1 <= idx <= s2.mcount_of(cid, ci) implies (#[trigger] s2.meetup_of(
        cid,
        ci,
        idx,
    )).len() >= 3 by {
        assert(s2.meetup_of(cid, ci, idx) == s1.meetup_of(cid, ci, idx));
    }
    assert forall|idx: u64, e: int|
        1 <= idx <= s2.mcount_of(cid, ci) && 0 <= e < s2.meetup_of(cid, ci, idx).len() implies
        participants_seq(
        s2.participant_registry@,
        cid,
        ci,
        count_lookup(s2.participant_count@, cid, ci),
    ).contains(#[trigger] s2.meetup_of(cid, ci, idx)[e]) by {
        assert(s2.meetup_of(cid, ci, idx) == s1.meetup_of(cid, ci, idx));
    }
    assert forall|a: u64|
        last_index_in(s2.assignment_spec(ext, cid, ci), a) != 0 implies #[trigger] s2.mindex_of(
        cid,
        ci,
        a,
    ) as int == last_index_in(s2.assignment_spec(ext, cid, ci), a) by {
        assert(s2.mindex_of(cid, ci, a) == s1.mindex_of(cid, ci, a));
    }
}

/// Settlement facts carry over to a state with the same participant and
/// meetup stores.
pub proof fn lemma_settled_transfer<E: Trait>(
    s1: Ceremonies,
    s2: Ceremonies,
    base: Ceremonies,
    ext: &E,
    cid: u64,
    ci: u32,
)
    requires
        s2.same_meetups_key(s1, cid, ci),
        s2.participant_registry == s1.participant_registry,
        s2.participant_count == s1.participant_count,
        s2.participant_reputation == s1.participant_reputation,
        s1.community_settled(base, ext, cid, ci),
    ensures
        s2.community_settled(base, ext, cid, ci),
{
    assert(s2.assignment_spec(ext, cid, ci) == s1.assignment_spec(ext, cid, ci));
    if s2.assignment_spec(ext, cid, ci).len() > 0 {
        lemma_assigned_transfer(s1, s2, ext, cid, ci);
    } else {
        lemma_same_meetups_trans(s2, s1, base, cid, ci);
    }
    assert forall|a: u64|
        last_index_in(s2.assignment_spec(ext, cid, ci), a) == 0 implies #[trigger] s2.mindex_of(
        cid,
        ci,
        a,
    ) == base.mindex_of(cid, ci, a) by {
        assert(s2.mindex_of(cid, ci, a) == s1.mindex_of(cid, ci, a));
    }
    assert(s2.mcount_of(cid, ci) == s1.mcount_of(cid, ci));
    assert forall|idx: u64|
        idx > s2.mcount_of(cid, ci) implies #[trigger] s2.meetup_of(cid, ci, idx) == base.meetup_of(
        cid,
        ci,
        idx,
    ) by {
        assert(s2.meetup_of(cid, ci, idx) == s1.meetup_of(cid, ci, idx));
    }
}

/// Settlement against a state that itself left the stores untouched is
/// settlement against the earlier base.
pub proof fn lemma_settled_rebase<E: Trait>(
    s: Ceremonies,
    b1: Ceremonies,
    b2: Ceremonies,
    ext: &E,
    cid: u64,
    ci: u32,
)
    requires
        s.community_settled(b1, ext, cid, ci),
        b1.same_meetups_key(b2, cid, ci),
    ensures
        s.community_settled(b2, ext, cid, ci),
{
    if s.assignment_spec(ext, cid, ci).len() == 0 {
        lemma_same_meetups_trans(s, b1, b2, cid, ci);
    }
    assert forall|a: u64|
        last_index_in(s.assignment_spec(ext, cid, ci), a) == 0 implies #[trigger] s.mindex_of(
        cid,
        ci,
        a,
    ) == b2.mindex_of(cid, ci, a) by {
        assert(b1.mindex_of(cid, ci, a) == b2.mindex_of(cid, ci, a));
    }
    assert forall|idx: u64|
        idx > s.mcount_of(cid, ci) implies #[trigger] s.meetup_of(cid, ci, idx) == b2.meetup_of(
        cid,
        ci,
        idx,
    ) by {
        assert(b1.meetup_of(cid, ci, idx) == b2.meetup_of(cid, ci, idx));
    }
}

/// Two settlement passes over the same community compose.
pub proof fn lemma_settled_trans<E: Trait>(
    s2: Ceremonies,
    s1: Ceremonies,
    s0: Ceremonies,
    ext: &E,
    cid: u64,
    ci: u32,
)
    requires
        s2.community_settled(s1, ext, cid, ci),
        s1.community_settled(s0, ext, cid, ci),
        s2.participant_registry == s1.participant_registry,
        s2.participant_count == s1.participant_count,
        s2.participant_reputation == s1.participant_reputation,
    ensures
        s2.community_settled(s0, ext, cid, ci),
{
    assert(s2.assignment_spec(ext, cid, ci) == s1.assignment_spec(ext, cid, ci));
    if s2.assignment_spec(ext, cid, ci).len() == 0 {
        lemma_same_meetups_trans(s2, s1, s0, cid, ci);
        assert forall|a: u64|
            last_index_in(s2.assignment_spec(ext, cid, ci), a) == 0 implies #[trigger] s2.mindex_of(
            cid,
            ci,
            a,
        ) == s0.mindex_of(cid, ci, a) by {
            assert(s2.mindex_of(cid, ci, a) == s1.mindex_of(cid, ci, a));
        }
        assert forall|idx: u64|
            idx > s2.mcount_of(cid, ci) implies #[trigger] s2.meetup_of(cid, ci, idx)
                == s0.meetup_of(cid, ci, idx) by {
            assert(s2.meetup_of(cid, ci, idx) == s1.meetup_of(cid, ci, idx));
            assert(s2.mcount_of(cid, ci) == s1.mcount_of(cid, ci));
            assert(s1.meetup_of(cid, ci, idx) == s0.meetup_of(cid, ci, idx));
        }
    } else {
        assert(s2.community_assigned(ext, cid, ci));
        assert(s1.community_assigned(ext, cid, ci));
        assert forall|a: u64|
            last_index_in(s2.assignment_spec(ext, cid, ci), a) == 0 implies #[trigger] s2.mindex_of(
            cid,
            ci,
            a,
        ) == s0.mindex_of(cid, ci, a) by {
            assert(s2.mindex_of(cid, ci, a) == s1.mindex_of(cid, ci, a));
            assert(s1.mindex_of(cid, ci, a) == s0.mindex_of(cid, ci, a));
        }
        assert forall|idx: u64|
            idx > s2.mcount_of(cid, ci) implies #[trigger] s2.meetup_of(cid, ci, idx)
                == s0.meetup_of(cid, ci, idx) by {
            assert(s2.meetup_of(cid, ci, idx) == s1.meetup_of(cid, ci, idx));
            assert(s1.mcount_of(cid, ci) as int == s1.assignment_spec(ext, cid, ci).len());
            assert(s2.mcount_of(cid, ci) as int == s2.assignment_spec(ext, cid, ci).len());
            assert(s1.meetup_of(cid, ci, idx) == s0.meetup_of(cid, ci, idx));
        }
    }
}

impl Ceremonies {
    /// Assign the meetups of one community for the current ceremony:
    /// partition its registered participants, in registration order, into
    /// reputables and newbies; distribute reputables round-robin over
    /// floor(n/12)+1 meetups; admit at most one newbie per four reputables,
    /// and only while a meetup stays under 4/3 of its reputable count; drop
    /// meetups smaller than 3; commit the survivors. Returns the number of
    /// committed meetups; when none survives, nothing is committed.
    #[verifier::rlimit(100)]
    pub fn assign_meetups_for_community<E: Trait>(&mut self, ext: &E, cid: CurrencyIdentifier) -> (r:
        u64)
        ensures
            final(self).participant_registry == old(self).participant_registry,
            final(self).participant_index == old(self).participant_index,
            final(self).participant_count == old(self).participant_count,
            final(self).participant_reputation == old(self).participant_reputation,
            final(self).attestation_registry == old(self).attestation_registry,
            final(self).attestation_index == old(self).attestation_index,
            final(self).attestation_count == old(self).attestation_count,
            final(self).meetup_participant_count_vote == old(self).meetup_participant_count_vote,
            final(self).ceremony_reward == old(self).ceremony_reward,
            final(self).location_tolerance == old(self).location_tolerance,
            final(self).time_tolerance == old(self).time_tolerance,
            forall|c: u64, ci2: u32|
                !(c == cid && ci2 == ext.ceremony_index_spec()) ==> #[trigger] final(self).same_meetups_key(*old(self), c, ci2),
            r as int == final(self).assignment_spec(ext, cid, ext.ceremony_index_spec()).len(),
            r == 0 ==> final(self).same_meetups_key(*old(self), cid, ext.ceremony_index_spec()),
            r > 0 ==> final(self).mcount_of(cid, ext.ceremony_index_spec()) == r && final(self).community_assigned(ext, cid, ext.ceremony_index_spec()),
            final(self).community_settled(*old(self), ext, cid, ext.ceremony_index_spec()),
    {
        let cindex = ext.current_ceremony_index();
        let pcount = count_get(&self.participant_count, cid, cindex);
        let ghost reps_view = self.participant_reputation@;
        let ghost preg_view = self.participant_registry@;
        let ghost pseq_full = participants_seq(preg_view, cid, cindex, pcount);
        let mut reputables: Vec<u64> = Vec::new();
        let mut newbies: Vec<u64> = Vec::new();
        let mut p: u64 = 0;
        while p < pcount
            invariant
                p <= pcount,
                reputables@ == reputables_of(
                    reps_view,
                    ext,
                    cid,
                    cindex,
                    participants_seq(preg_view, cid, cindex, p),
                ),
                newbies@ == newbies_of(
                    reps_view,
                    ext,
                    cid,
                    cindex,
                    participants_seq(preg_view, cid, cindex, p),
                ),
                reputables@.len() + newbies@.len() == p,
                reps_view == self.participant_reputation@,
                preg_view == self.participant_registry@,
            decreases pcount - p,
        {
            let pidx = p + 1;
            let participant = slot_get(&self.participant_registry, cid, cindex, pidx);
            let rep = rep_get(&self.participant_reputation, cid, cindex, participant);
            let is_rep = rep == Reputation::UnverifiedReputable || ext.is_bootstrapper(
                cid,
                participant,
            );
            proof {
                let ps1 = participants_seq(preg_view, cid, cindex, (p + 1) as u64);
                assert(ps1.drop_last() =~= participants_seq(preg_view, cid, cindex, p));
                assert(ps1.last() == participant);
            }
            if is_rep {
                reputables.push(participant);
            } else {
                newbies.push(participant);
            }
            p = p + 1;
        }
        proof {
            assert(participants_seq(preg_view, cid, cindex, p) =~= pseq_full);
            lemma_split_elems(reps_view, ext, cid, cindex, pseq_full);
        }
        let r_len: u64 = reputables.len() as u64;
        let w_len: u64 = newbies.len() as u64;
        let admitted: u64 = if w_len < r_len / 4 {
            w_len
        } else {
            r_len / 4
        };
        let n: u64 = r_len + admitted;
        proof {
            assert(n as int / 12 + 1 <= u64::MAX) by (nonlinear_arith)
                requires
                    n <= u64::MAX,
            ;
        }
        let k: u64 = n / 12 + 1;
        let mut meetups: Vec<Vec<u64>> = Vec::new();
        let mut meetup_n_rep: Vec<u64> = Vec::new();
        let mut jj: u64 = 0;
        while jj < k
            invariant
                jj <= k,
                meetups@.len() == jj,
                meetup_n_rep@.len() == jj,
                total_len(meetups@) == 0,
                forall|j2: int| 0 <= j2 < jj ==> (#[trigger] meetups@[j2])@.len() == 0,
                forall|j2: int| 0 <= j2 < jj ==> #[trigger] meetup_n_rep@[j2] == 0,
            decreases k - jj,
        {
            let ghost pre_m = meetups@;
            let empty_meetup: Vec<u64> = Vec::new();
            meetups.push(empty_meetup);
            meetup_n_rep.push(0);
            proof {
                assert(meetups@.drop_last() =~= pre_m);
            }
            jj = jj + 1;
        }
        let klen: usize = meetups.len();
        proof {
            assert forall|j2: int| 0 <= j2 < k implies #[trigger] meetups@[j2]@ == round_robin(
                reputables@,
                j2,
                k as int,
                0,
            ) by {
                assert(meetups@[j2]@ =~= Seq::<u64>::empty());
            }
        }
        // Distribute reputables round-robin across the meetups.
        let mut t: usize = 0;
        while t < reputables.len()
            invariant
                t <= reputables@.len(),
                k >= 1,
                klen == k,
                meetups@.len() == k,
                meetup_n_rep@.len() == k,
                total_len(meetups@) == t,
                forall|j2: int|
                    0 <= j2 < k ==> #[trigger] meetups@[j2]@ == round_robin(
                        reputables@,
                        j2,
                        k as int,
                        t as int,
                    ),
                forall|j2: int|
                    0 <= j2 < k ==> #[trigger] meetup_n_rep@[j2] == meetups@[j2]@.len(),
                forall|j2: int, e: int|
                    0 <= j2 < k && 0 <= e < meetups@[j2]@.len() ==> pseq_full.contains(
                        #[trigger] meetups@[j2]@[e],
                    ),
                reputables@ == reputables_of(reps_view, ext, cid, cindex, pseq_full),
                forall|i: int| 0 <= i < reputables@.len() ==> pseq_full.contains(
                    #[trigger] reputables@[i],
                ),
            decreases reputables@.len() - t,
        {
            let j: usize = t % klen;
            let ghost m0 = meetups@;
            let account = reputables[t];
            let mut mj = meetups.remove(j);
            mj.push(account);
            meetups.insert(j, mj);
            proof {
                assert(meetups@ =~= m0.update(j as int, meetups@[j as int]));
                assert(meetups@[j as int]@ =~= m0[j as int]@.push(account));
                lemma_total_len_update(m0, j as int, meetups@[j as int]);
                assert forall|j2: int| 0 <= j2 < k implies #[trigger] meetups@[j2]@ == round_robin(
                    reputables@,
                    j2,
                    k as int,
                    t as int + 1,
                ) by {
                    if j2 == j as int {
                        assert((t as int) % (k as int) == j as int);
                        assert(round_robin(reputables@, j2, k as int, t as int + 1) == round_robin(
                            reputables@,
                            j2,
                            k as int,
                            t as int,
                        ).push(reputables@[t as int]));
                    } else {
                        assert(meetups@[j2] == m0[j2]);
                        assert(round_robin(reputables@, j2, k as int, t as int + 1) == round_robin(
                            reputables@,
                            j2,
                            k as int,
                            t as int,
                        ));
                    }
                }
            }
            let cur = meetup_n_rep[j];
            proof {
                lemma_total_len_ge(m0, j as int);
            }
            meetup_n_rep.set(j, cur + 1);
            t = t + 1;
        }
        // Distribute newbies, complying with the per-meetup newbie limit.
        let a_count: usize = if newbies.len() < reputables.len() / 4 {
            newbies.len()
        } else {
            reputables.len() / 4
        };
        proof {
            assert(a_count == admitted);
            assert forall|j2: int| 0 <= j2 < k implies #[trigger] meetups@[j2]@ == round_robin(
                reputables@,
                j2,
                k as int,
                reputables@.len() as int,
            ) + admitted_to(
                newbies@,
                j2,
                k as int,
                round_robin(reputables@, j2, k as int, reputables@.len() as int).len() as int,
                round_robin(reputables@, j2, k as int, reputables@.len() as int).len() as int * 4
                    / 3,
                0,
            ) by {
                assert(meetups@[j2]@ =~= round_robin(
                    reputables@,
                    j2,
                    k as int,
                    reputables@.len() as int,
                ) + Seq::<u64>::empty());
            }
        }
        let mut admitted_count: u64 = 0;
        let mut t2: usize = 0;
        while t2 < a_count
            invariant
                t2 <= a_count,
                a_count <= newbies@.len(),
                a_count == admitted,
                k >= 1,
                klen == k,
                meetups@.len() == k,
                meetup_n_rep@.len() == k,
                admitted_count <= t2,
                total_len(meetups@) == reputables@.len() + admitted_count,
                forall|j2: int|
                    0 <= j2 < k ==> #[trigger] meetup_n_rep@[j2] as int == round_robin(
                        reputables@,
                        j2,
                        k as int,
                        reputables@.len() as int,
                    ).len(),
                forall|j2: int|
                    0 <= j2 < k ==> #[trigger] meetups@[j2]@ == round_robin(
                        reputables@,
                        j2,
                        k as int,
                        reputables@.len() as int,
                    ) + admitted_to(
                        newbies@,
                        j2,
                        k as int,
                        round_robin(
                            reputables@,
                            j2,
                            k as int,
                            reputables@.len() as int,
                        ).len() as int,
                        round_robin(
                            reputables@,
                            j2,
                            k as int,
                            reputables@.len() as int,
                        ).len() as int * 4 / 3,
                        t2 as int,
                    ),
                forall|j2: int, e: int|
                    0 <= j2 < k && 0 <= e < meetups@[j2]@.len() ==> pseq_full.contains(
                        #[trigger] meetups@[j2]@[e],
                    ),
                forall|i: int| 0 <= i < newbies@.len() ==> pseq_full.contains(
                    #[trigger] newbies@[i],
                ),
            decreases a_count - t2,
        {
            let j: usize = t2 % klen;
            let cap_rep = meetup_n_rep[j];
            let cur_len = meetups[j].len();
            let ghost rr_j = round_robin(reputables@, j as int, k as int, reputables@.len() as int);
            let ghost pre_j = admitted_to(
                newbies@,
                j as int,
                k as int,
                rr_j.len() as int,
                rr_j.len() as int * 4 / 3,
                t2 as int,
            );
            proof {
                assert((t2 as int) % (k as int) == j as int);
                assert(cur_len as int == rr_j.len() + pre_j.len());
                assert((cap_rep as u128) * 4 / 3 == rr_j.len() as int * 4 / 3);
            }
            if (cur_len as u128) < (cap_rep as u128) * 4 / 3 {
                let ghost m0 = meetups@;
                let account = newbies[t2];
                let mut mj = meetups.remove(j);
                mj.push(account);
                meetups.insert(j, mj);
                proof {
                    assert(meetups@ =~= m0.update(j as int, meetups@[j as int]));
                    assert(meetups@[j as int]@ =~= m0[j as int]@.push(account));
                    lemma_total_len_update(m0, j as int, meetups@[j as int]);
                    assert(meetups@[j as int]@ =~= rr_j + pre_j.push(newbies@[t2 as int]));
                }
                admitted_count = admitted_count + 1;
            }
            proof {
                assert forall|j2: int| 0 <= j2 < k implies #[trigger] meetups@[j2]@ == round_robin(
                    reputables@,
                    j2,
                    k as int,
                    reputables@.len() as int,
                ) + admitted_to(
                    newbies@,
                    j2,
                    k as int,
                    round_robin(reputables@, j2, k as int, reputables@.len() as int).len() as int,
                    round_robin(reputables@, j2, k as int, reputables@.len() as int).len() as int
                        * 4 / 3,
                    t2 as int + 1,
                ) by {
                    if j2 != j as int {
                        assert((t2 as int) % (k as int) != j2);
                    }
                }
            }
            t2 = t2 + 1;
        }
        // Discard meetups below the minimum size and commit the survivors.
        let mut survivor_count: u64 = 0;
        let mut committed_total: u64 = 0;
        let mut s: usize = 0;
        while s < meetups.len()
            invariant
                s <= meetups@.len(),
                meetups@.len() == k,
                survivor_count <= s,
                committed_total <= total_len(meetups@.take(s as int)),
                total_len(meetups@) == reputables@.len() + admitted_count,
                admitted_count <= admitted,
                reputables@.len() == r_len,
                r_len + admitted == n,
                self.participant_registry == old(self).participant_registry,
                self.participant_index == old(self).participant_index,
                self.participant_count == old(self).participant_count,
                self.participant_reputation == old(self).participant_reputation,
                self.attestation_registry == old(self).attestation_registry,
                self.attestation_index == old(self).attestation_index,
                self.attestation_count == old(self).attestation_count,
                self.meetup_participant_count_vote == old(self).meetup_participant_count_vote,
                self.ceremony_reward == old(self).ceremony_reward,
                self.location_tolerance == old(self).location_tolerance,
                self.time_tolerance == old(self).time_tolerance,
                self.meetup_count == old(self).meetup_count,
                survivor_count == 0 ==> self.meetup_registry == old(self).meetup_registry
                    && self.meetup_index == old(self).meetup_index,
                forall|c: u64, ci2: u32, idx: u64|
                    !(c == cid && ci2 == cindex) ==> #[trigger] members_lookup(
                        self.meetup_registry@,
                        c,
                        ci2,
                        idx,
                    ) == members_lookup(old(self).meetup_registry@, c, ci2, idx),
                forall|c: u64, ci2: u32, a2: u64|
                    !(c == cid && ci2 == cindex) ==> #[trigger] slot_lookup(
                        self.meetup_index@,
                        c,
                        ci2,
                        a2,
                    ) == slot_lookup(old(self).meetup_index@, c, ci2, a2),
                forall|ii: u64|
                    1 <= ii <= survivor_count ==> (#[trigger] members_lookup(
                        self.meetup_registry@,
                        cid,
                        cindex,
                        ii,
                    )).len() >= 3,
                forall|ii: u64, e: int|
                    1 <= ii <= survivor_count && 0 <= e < members_lookup(
                        self.meetup_registry@,
                        cid,
                        cindex,
                        ii,
                    ).len() ==> pseq_full.contains(
                        #[trigger] members_lookup(self.meetup_registry@, cid, cindex, ii)[e],
                    ),
                stored_total(self.meetup_registry@, cid, cindex, survivor_count as int)
                    == committed_total,
                forall|ii: u64|
                    ii > survivor_count ==> #[trigger] members_lookup(
                        self.meetup_registry@,
                        cid,
                        cindex,
                        ii,
                    ) == members_lookup(old(self).meetup_registry@, cid, cindex, ii),
                forall|a: u64|
                    #[trigger] slot_lookup(self.meetup_index@, cid, cindex, a) as int == (
                    if last_index_in(surviving(views_of(meetups@).take(s as int)), a) != 0 {
                        last_index_in(surviving(views_of(meetups@).take(s as int)), a)
                    } else {
                        slot_lookup(old(self).meetup_index@, cid, cindex, a) as int
                    }),
                survivor_count as int == surviving(views_of(meetups@).take(s as int)).len(),
                forall|ii: u64|
                    1 <= ii <= survivor_count ==> #[trigger] members_lookup(
                        self.meetup_registry@,
                        cid,
                        cindex,
                        ii,
                    ) == surviving(views_of(meetups@).take(s as int))[ii - 1],
                forall|j2: int, e: int|
                    0 <= j2 < k && 0 <= e < meetups@[j2]@.len() ==> pseq_full.contains(
                        #[trigger] meetups@[j2]@[e],
                    ),
                pseq_full == participants_seq(
                    self.participant_registry@,
                    cid,
                    cindex,
                    count_lookup(self.participant_count@, cid, cindex),
                ),
            decreases meetups@.len() - s,
        {
            proof {
                assert(meetups@.take(s as int + 1).drop_last() =~= meetups@.take(s as int));
                assert(meetups@.take(s as int + 1).last() == meetups@[s as int]);
                lemma_total_len_nonneg(meetups@.take(s as int));
                lemma_total_len_take_le(meetups@, s as int + 1);
                assert(views_of(meetups@).take(s as int + 1).drop_last() =~= views_of(
                    meetups@,
                ).take(s as int));
                assert(views_of(meetups@).take(s as int + 1).last() == meetups@[s as int]@);
            }
            let sz = meetups[s].len();
            if sz >= 3 {
                let idx = survivor_count + 1;
                let members_copy = copy_u64_vec(&meetups[s]);
                let members_iter = copy_u64_vec(&meetups[s]);
                let ghost pre_reg = self.meetup_registry@;
                let entry = MembersEntry { cid, cindex, idx, members: members_copy };
                proof {
                    lemma_members_push(pre_reg, entry);
                }
                self.meetup_registry.push(entry);
                proof {
                    lemma_stored_total_frame(
                        self.meetup_registry@,
                        pre_reg,
                        cid,
                        cindex,
                        (idx - 1) as int,
                    );
                    assert(members_lookup(self.meetup_registry@, cid, cindex, idx) == meetups@[s
                        as int]@);
                    assert(surviving(views_of(meetups@).take(s as int + 1)) == surviving(
                        views_of(meetups@).take(s as int),
                    ).push(meetups@[s as int]@));
                }
                committed_total = committed_total + sz as u64;
                survivor_count = idx;
                let ghost reg_after = self.meetup_registry@;
                let ghost idx_pre = self.meetup_index@;
                let mut e: usize = 0;
                while e < members_iter.len()
                    invariant
                        e <= members_iter@.len(),
                        members_iter@ == meetups@[s as int]@,
                        forall|a: u64|
                            #[trigger] slot_lookup(self.meetup_index@, cid, cindex, a) == (
                            if members_iter@.take(e as int).contains(a) {
                                idx
                            } else {
                                slot_lookup(idx_pre, cid, cindex, a)
                            }),
                        self.meetup_registry@ == reg_after,
                        self.participant_registry == old(self).participant_registry,
                        self.participant_index == old(self).participant_index,
                        self.participant_count == old(self).participant_count,
                        self.participant_reputation == old(self).participant_reputation,
                        self.attestation_registry == old(self).attestation_registry,
                        self.attestation_index == old(self).attestation_index,
                        self.attestation_count == old(self).attestation_count,
                        self.meetup_participant_count_vote == old(
                            self,
                        ).meetup_participant_count_vote,
                        self.ceremony_reward == old(self).ceremony_reward,
                        self.location_tolerance == old(self).location_tolerance,
                        self.time_tolerance == old(self).time_tolerance,
                        self.meetup_count == old(self).meetup_count,
                        forall|c: u64, ci2: u32, a2: u64|
                            !(c == cid && ci2 == cindex) ==> #[trigger] slot_lookup(
                                self.meetup_index@,
                                c,
                                ci2,
                                a2,
                            ) == slot_lookup(old(self).meetup_index@, c, ci2, a2),
                    decreases members_iter@.len() - e,
                {
                    let acc = members_iter[e];
                    let ghost pre_idx_view = self.meetup_index@;
                    let slot = SlotEntry { cid, cindex, key: acc, val: idx };
                    self.meetup_index.push(slot);
                    proof {
                        lemma_slot_push(pre_idx_view, slot);
                        assert forall|a: u64|
                            #[trigger] slot_lookup(self.meetup_index@, cid, cindex, a) == (
                        if members_iter@.take(e as int + 1).contains(a) {
                            idx
                        } else {
                            slot_lookup(idx_pre, cid, cindex, a)
                        }) by {
                            if a == acc {
                                assert(members_iter@.take(e as int + 1)[e as int] == acc);
                                assert(members_iter@.take(e as int + 1).contains(acc));
                            } else {
                                if members_iter@.take(e as int + 1).contains(a) {
                                    let w = choose|w: int|
                                        0 <= w < members_iter@.take(e as int + 1).len()
                                            && #[trigger] members_iter@.take(e as int + 1)[w]
                                            == a;
                                    assert(members_iter@.take(e as int)[w] == a);
                                    assert(members_iter@.take(e as int).contains(a));
                                }
                                if members_iter@.take(e as int).contains(a) {
                                    let w = choose|w: int|
                                        0 <= w < e && #[trigger] members_iter@.take(e as int)[w]
                                            == a;
                                    assert(members_iter@.take(e as int + 1)[w] == a);
                                    assert(members_iter@.take(e as int + 1).contains(a));
                                }
                            }
                        }
                    }
                    e = e + 1;
                }
                proof {
                    assert(members_iter@.take(members_iter@.len() as int) =~= members_iter@);
                    let prev = surviving(views_of(meetups@).take(s as int));
                    let now = surviving(views_of(meetups@).take(s as int + 1));
                    assert forall|a: u64|
                        #[trigger] slot_lookup(self.meetup_index@, cid, cindex, a) as int == (
                    if last_index_in(now, a) != 0 {
                        last_index_in(now, a)
                    } else {
                        slot_lookup(old(self).meetup_index@, cid, cindex, a) as int
                    }) by {
                        assert(now == prev.push(meetups@[s as int]@));
                        assert(now.drop_last() =~= prev);
                        assert(now.last() == meetups@[s as int]@);
                        assert(now.len() == idx);
                        assert(slot_lookup(idx_pre, cid, cindex, a) as int == (if last_index_in(
                            prev,
                            a,
                        ) != 0 {
                            last_index_in(prev, a)
                        } else {
                            slot_lookup(old(self).meetup_index@, cid, cindex, a) as int
                        }));
                    }
                }
            } else {
                proof {
                    assert(surviving(views_of(meetups@).take(s as int + 1)) == surviving(
                        views_of(meetups@).take(s as int),
                    ));
                }
            }
            s = s + 1;
        }
        let ghost att = attempted_meetups(reputables@, newbies@, k as int, admitted as int);
        proof {
            assert(meetups@.take(meetups@.len() as int) =~= meetups@);
            assert(views_of(meetups@).take(s as int) =~= views_of(meetups@));
            assert forall|j2: int| 0 <= j2 < k implies #[trigger] views_of(meetups@)[j2]
                == att[j2] by {
                assert(views_of(meetups@)[j2] == meetups@[j2]@);
                assert(att[j2] == attempted_meetup(
                    reputables@,
                    newbies@,
                    j2,
                    k as int,
                    admitted as int,
                ));
            }
            assert(views_of(meetups@) =~= att);
            assert(reputables_of(reps_view, ext, cid, cindex, pseq_full) == self.reputables_spec(
                ext,
                cid,
                cindex,
            ));
            assert(newbies_of(reps_view, ext, cid, cindex, pseq_full) == self.newbies_spec(
                ext,
                cid,
                cindex,
            ));
            assert(admitted as int == self.admitted_newbies_spec(ext, cid, cindex));
            assert(k as int == meetup_target_count(
                self.reputables_spec(ext, cid, cindex).len() as int,
                self.admitted_newbies_spec(ext, cid, cindex),
            ));
            assert(self.assignment_spec(ext, cid, cindex) == surviving(att));
            assert(survivor_count as int == self.assignment_spec(ext, cid, cindex).len());
            assert(surviving(views_of(meetups@).take(s as int)) == surviving(att));
        }
        if survivor_count > 0 {
            let ghost pre_counts = self.meetup_count@;
            let centry = CountEntry { cid, cindex, count: survivor_count };
            self.meetup_count.push(centry);
            proof {
                lemma_count_push(pre_counts, centry);
                assert(reputables_of(reps_view, ext, cid, cindex, pseq_full) == self.reputables_spec(
                    ext,
                    cid,
                    cindex,
                ));
                assert(newbies_of(reps_view, ext, cid, cindex, pseq_full) == self.newbies_spec(
                    ext,
                    cid,
                    cindex,
                ));
                assert(admitted == self.admitted_newbies_spec(ext, cid, cindex));
                assert(self.mcount_of(cid, cindex) == survivor_count);
                assert(survivor_count <= k);
                assert(k == meetup_target_count(
                    self.reputables_spec(ext, cid, cindex).len() as int,
                    self.admitted_newbies_spec(ext, cid, cindex),
                ));
                assert(self.assignment_spec(ext, cid, cindex) == surviving(att));
                assert(self.mcount_of(cid, cindex) as int == self.assignment_spec(
                    ext,
                    cid,
                    cindex,
                ).len());
            }
        }
        proof {
            assert(self.assignment_spec(ext, cid, cindex) == surviving(att));
            assert forall|a: u64|
                last_index_in(self.assignment_spec(ext, cid, cindex), a) != 0 implies
                self.mindex_of(cid, cindex, a) as int == last_index_in(
                self.assignment_spec(ext, cid, cindex),
                a,
            ) by {}
            assert forall|a: u64|
                last_index_in(self.assignment_spec(ext, cid, cindex), a) == 0 implies
                self.mindex_of(cid, cindex, a) == old(self).mindex_of(cid, cindex, a) by {}
            assert forall|idx2: u64|
                idx2 > survivor_count implies self.meetup_of(cid, cindex, idx2) == old(
                self,
            ).meetup_of(cid, cindex, idx2) by {}
            assert(self.community_settled(*old(self), ext, cid, cindex));
        }
        survivor_count
    }

    /// Partition the registered participants of every known community into
    /// meetups for the current ceremony. Communities where no meetup of at
    /// least 3 members can be formed get nothing committed.
    pub fn assign_meetups<E: Trait>(&mut self, ext: &E)
        ensures
            final(self).participant_registry == old(self).participant_registry,
            final(self).participant_index == old(self).participant_index,
            final(self).participant_count == old(self).participant_count,
            final(self).participant_reputation == old(self).participant_reputation,
            final(self).attestation_registry == old(self).attestation_registry,
            final(self).attestation_index == old(self).attestation_index,
            final(self).attestation_count == old(self).attestation_count,
            final(self).meetup_participant_count_vote == old(self).meetup_participant_count_vote,
            final(self).ceremony_reward == old(self).ceremony_reward,
            final(self).location_tolerance == old(self).location_tolerance,
            final(self).time_tolerance == old(self).time_tolerance,
            forall|c: u64, ci2: u32|
                !(ext.communities_spec().contains(c) && ci2 == ext.ceremony_index_spec())
                    ==> #[trigger] final(self).same_meetups_key(*old(self), c, ci2),
            forall|t: int|
                0 <= t < ext.communities_spec().len() ==> final(self).community_settled(
                    *old(self),
                    ext,
                    #[trigger] ext.communities_spec()[t],
                    ext.ceremony_index_spec(),
                ),
    {
        let ghost cindex = ext.ceremony_index_spec();
        let cids = ext.currency_identifiers();
        let mut c_i: usize = 0;
        while c_i < cids.len()
            invariant
                c_i <= cids@.len(),
                cids@ == ext.communities_spec(),
                cindex == ext.ceremony_index_spec(),
                self.participant_registry == old(self).participant_registry,
                self.participant_index == old(self).participant_index,
                self.participant_count == old(self).participant_count,
                self.participant_reputation == old(self).participant_reputation,
                self.attestation_registry == old(self).attestation_registry,
                self.attestation_index == old(self).attestation_index,
                self.attestation_count == old(self).attestation_count,
                self.meetup_participant_count_vote == old(self).meetup_participant_count_vote,
                self.ceremony_reward == old(self).ceremony_reward,
                self.location_tolerance == old(self).location_tolerance,
                self.time_tolerance == old(self).time_tolerance,
                forall|c: u64, ci2: u32|
                    (ci2 != cindex || !cids@.take(c_i as int).contains(c))
                        ==> #[trigger] self.same_meetups_key(*old(self), c, ci2),
                forall|t: int|
                    0 <= t < c_i ==> self.community_settled(
                        *old(self),
                        ext,
                        #[trigger] cids@[t],
                        cindex,
                    ),
            decreases cids@.len() - c_i,
        {
            let cid = cids[c_i];
            let ghost pre = *self;
            let r = self.assign_meetups_for_community(ext, cid);
            proof {
                // Per-key carry-over for untouched keys.
                assert forall|c: u64, ci2: u32|
                    (ci2 != cindex || !cids@.take(c_i as int + 1).contains(c)) implies
                    #[trigger] self.same_meetups_key(*old(self), c, ci2) by {
                    if !(c == cid && ci2 == cindex) {
                        assert(self.same_meetups_key(pre, c, ci2));
                    } else {
                        assert(cids@.take(c_i as int + 1)[c_i as int] == cid);
                        assert(cids@.take(c_i as int + 1).contains(cid));
                        assert(false);
                    }
                    if ci2 != cindex || !cids@.take(c_i as int).contains(c) {
                        lemma_same_meetups_trans(*self, pre, *old(self), c, ci2);
                    } else {
                        let w = choose|w: int|
                            0 <= w < c_i && cids@.take(c_i as int)[w] == c;
                        assert(cids@.take(c_i as int + 1)[w] == c);
                        assert(cids@.take(c_i as int + 1).contains(c));
                        assert(false);
                    }
                }
                // The processed prefix is settled against the entry state.
                assert forall|t: int|
                    0 <= t < c_i + 1 implies self.community_settled(
                    *old(self),
                    ext,
                    #[trigger] cids@[t],
                    cindex,
                ) by {
                    let c = cids@[t];
                    if c != cid {
                        // Keys of other communities were not touched by the
                        // call, so the earlier settlement carries over.
                        assert(self.same_meetups_key(pre, c, cindex));
                        assert(pre.community_settled(*old(self), ext, c, cindex));
                        lemma_settled_transfer(pre, *self, *old(self), ext, c, cindex);
                    } else {
                        assert(self.community_settled(pre, ext, c, cindex));
                        if cids@.take(c_i as int).contains(c) {
                            let w = choose|w: int|
                                0 <= w < c_i && #[trigger] cids@.take(c_i as int)[w] == c;
                            assert(cids@[w] == c);
                            assert(pre.community_settled(*old(self), ext, c, cindex));
                            lemma_settled_trans(*self, pre, *old(self), ext, c, cindex);
                        } else {
                            assert(pre.same_meetups_key(*old(self), c, cindex));
                            lemma_settled_rebase(*self, pre, *old(self), ext, c, cindex);
                        }
                    }
                }
            }
            c_i = c_i + 1;
        }
        proof {
            assert(cids@.take(cids@.len() as int) =~= cids@);
        }
    }
}

} // verus!
