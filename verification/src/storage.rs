//! Append-only, shadowing key-value stores backing the ceremony registry.
//!
//! Each store is a vector of entries; the binding of a key is the value of
//! the *last* entry carrying that key, so an insert is a plain push and an
//! overwrite shadows the earlier entry. Purging a ceremony index rebuilds a
//! store without that index's entries.

use vstd::prelude::*;

use crate::Reputation;

verus! {

/// One entry of a per-ceremony map from a `u64` key to a `u64` value
/// (participant index <-> account, meetup index, bundle index, vote).
#[derive(Clone, Copy, PartialEq, Eq, Structural, Debug)]
pub struct SlotEntry {
    pub cid: u64,
    pub cindex: u32,
    pub key: u64,
    pub val: u64,
}

/// One entry of a per-ceremony counter map.
#[derive(Clone, Copy, PartialEq, Eq, Structural, Debug)]
pub struct CountEntry {
    pub cid: u64,
    pub cindex: u32,
    pub count: u64,
}

/// One entry of the reputation map, keyed by (community, ceremony, account).
#[derive(Clone, Copy, PartialEq, Eq, Structural, Debug)]
pub struct RepEntry {
    pub cid: u64,
    pub cindex: u32,
    pub account: u64,
    pub rep: Reputation,
}

/// One entry of a per-ceremony map from an index to a member list
/// (meetup rosters and attestation bundles).
#[derive(Debug)]
pub struct MembersEntry {
    pub cid: u64,
    pub cindex: u32,
    pub idx: u64,
    pub members: Vec<u64>,
}

/// Binding of `(cid, cindex, key)`: the last matching entry's value, 0 if none.
pub open spec fn slot_lookup(s: Seq<SlotEntry>, cid: u64, cindex: u32, key: u64) -> u64
    decreases s.len(),
{
    if s.len() == 0 {
        0u64
    } else if s.last().cid == cid && s.last().cindex == cindex && s.last().key == key {
        s.last().val
    } else {
        slot_lookup(s.drop_last(), cid, cindex, key)
    }
}

/// Binding of `(cid, cindex)`: the last matching entry's count, 0 if none.
pub open spec fn count_lookup(s: Seq<CountEntry>, cid: u64, cindex: u32) -> u64
    decreases s.len(),
{
    if s.len() == 0 {
        0u64
    } else if s.last().cid == cid && s.last().cindex == cindex {
        s.last().count
    } else {
        count_lookup(s.drop_last(), cid, cindex)
    }
}

/// Binding of `(cid, cindex, account)`: last matching entry, Unverified if none.
pub open spec fn rep_lookup(s: Seq<RepEntry>, cid: u64, cindex: u32, account: u64) -> Reputation
    decreases s.len(),
{
    if s.len() == 0 {
        Reputation::Unverified
    } else if s.last().cid == cid && s.last().cindex == cindex && s.last().account == account {
        s.last().rep
    } else {
        rep_lookup(s.drop_last(), cid, cindex, account)
    }
}

/// Binding of `(cid, cindex, idx)`: the last matching entry's member list,
/// the empty sequence if none.
pub open spec fn members_lookup(s: Seq<MembersEntry>, cid: u64, cindex: u32, idx: u64) -> Seq<u64>
    decreases s.len(),
{
    if s.len() == 0 {
        Seq::<u64>::empty()
    } else if s.last().cid == cid && s.last().cindex == cindex && s.last().idx == idx {
        s.last().members@
    } else {
        members_lookup(s.drop_last(), cid, cindex, idx)
    }
}

/// Pushing an entry rebinds exactly its own key.
pub proof fn lemma_slot_push(s: Seq<SlotEntry>, e: SlotEntry)
    ensures
        forall|cid: u64, cindex: u32, key: u64|
            #[trigger] slot_lookup(s.push(e), cid, cindex, key) == (if cid == e.cid && cindex
                == e.cindex && key == e.key {
                e.val
            } else {
                slot_lookup(s, cid, cindex, key)
            }),
{
    assert forall|cid: u64, cindex: u32, key: u64|
        #[trigger] slot_lookup(s.push(e), cid, cindex, key) == (if cid == e.cid && cindex
            == e.cindex && key == e.key {
            e.val
        } else {
            slot_lookup(s, cid, cindex, key)
        }) by {
        assert(s.push(e).drop_last() =~= s);
        assert(s.push(e).last() == e);
    }
}

/// Pushing an entry rebinds exactly its own key.
pub proof fn lemma_count_push(s: Seq<CountEntry>, e: CountEntry)
    ensures
        forall|cid: u64, cindex: u32|
            #[trigger] count_lookup(s.push(e), cid, cindex) == (if cid == e.cid && cindex
                == e.cindex {
                e.count
            } else {
                count_lookup(s, cid, cindex)
            }),
{
    assert forall|cid: u64, cindex: u32|
        #[trigger] count_lookup(s.push(e), cid, cindex) == (if cid == e.cid && cindex == e.cindex {
            e.count
        } else {
            count_lookup(s, cid, cindex)
        }) by {
        assert(s.push(e).drop_last() =~= s);
        assert(s.push(e).last() == e);
    }
}

/// Pushing an entry rebinds exactly its own key.
pub proof fn lemma_rep_push(s: Seq<RepEntry>, e: RepEntry)
    ensures
        forall|cid: u64, cindex: u32, account: u64|
            #[trigger] rep_lookup(s.push(e), cid, cindex, account) == (if cid == e.cid && cindex
                == e.cindex && account == e.account {
                e.rep
            } else {
                rep_lookup(s, cid, cindex, account)
            }),
{
    assert forall|cid: u64, cindex: u32, account: u64|
        #[trigger] rep_lookup(s.push(e), cid, cindex, account) == (if cid == e.cid && cindex
            == e.cindex && account == e.account {
            e.rep
        } else {
            rep_lookup(s, cid, cindex, account)
        }) by {
        assert(s.push(e).drop_last() =~= s);
        assert(s.push(e).last() == e);
    }
}

/// Pushing an entry rebinds exactly its own key.
pub proof fn lemma_members_push(s: Seq<MembersEntry>, e: MembersEntry)
    ensures
        forall|cid: u64, cindex: u32, idx: u64|
            #[trigger] members_lookup(s.push(e), cid, cindex, idx) == (if cid == e.cid && cindex
                == e.cindex && idx == e.idx {
                e.members@
            } else {
                members_lookup(s, cid, cindex, idx)
            }),
{
    assert forall|cid: u64, cindex: u32, idx: u64|
        #[trigger] members_lookup(s.push(e), cid, cindex, idx) == (if cid == e.cid && cindex
            == e.cindex && idx == e.idx {
            e.members@
        } else {
            members_lookup(s, cid, cindex, idx)
        }) by {
        assert(s.push(e).drop_last() =~= s);
        assert(s.push(e).last() == e);
    }
}

/// Read the binding of `(cid, cindex, key)`.
pub fn slot_get(v: &Vec<SlotEntry>, cid: u64, cindex: u32, key: u64) -> (r: u64)
    ensures
        r == slot_lookup(v@, cid, cindex, key),
{
    let mut i: usize = v.len();
    proof {
        assert(v@.take(v@.len() as int) =~= v@);
    }
    while i > 0
        invariant
            i <= v@.len(),
            slot_lookup(v@, cid, cindex, key) == slot_lookup(v@.take(i as int), cid, cindex, key),
        decreases i,
    {
        let e = v[i - 1];
        proof {
            assert(v@.take(i as int).drop_last() =~= v@.take(i as int - 1));
            assert(v@.take(i as int).last() == e);
        }
        if e.cid == cid && e.cindex == cindex && e.key == key {
            return e.val;
        }
        i = i - 1;
    }
    0
}

/// Read the binding of `(cid, cindex)`.
pub fn count_get(v: &Vec<CountEntry>, cid: u64, cindex: u32) -> (r: u64)
    ensures
        r == count_lookup(v@, cid, cindex),
{
    let mut i: usize = v.len();
    proof {
        assert(v@.take(v@.len() as int) =~= v@);
    }
    while i > 0
        invariant
            i <= v@.len(),
            count_lookup(v@, cid, cindex) == count_lookup(v@.take(i as int), cid, cindex),
        decreases i,
    {
        let e = v[i - 1];
        proof {
            assert(v@.take(i as int).drop_last() =~= v@.take(i as int - 1));
            assert(v@.take(i as int).last() == e);
        }
        if e.cid == cid && e.cindex == cindex {
            return e.count;
        }
        i = i - 1;
    }
    0
}

/// Read the binding of `(cid, cindex, account)`.
pub fn rep_get(v: &Vec<RepEntry>, cid: u64, cindex: u32, account: u64) -> (r: Reputation)
    ensures
        r == rep_lookup(v@, cid, cindex, account),
{
    let mut i: usize = v.len();
    proof {
        assert(v@.take(v@.len() as int) =~= v@);
    }
    while i > 0
        invariant
            i <= v@.len(),
            rep_lookup(v@, cid, cindex, account) == rep_lookup(
                v@.take(i as int),
                cid,
                cindex,
                account,
            ),
        decreases i,
    {
        let e = v[i - 1];
        proof {
            assert(v@.take(i as int).drop_last() =~= v@.take(i as int - 1));
            assert(v@.take(i as int).last() == e);
        }
        if e.cid == cid && e.cindex == cindex && e.account == account {
            return e.rep;
        }
        i = i - 1;
    }
    Reputation::Unverified
}

/// Linear membership test on a vector of accounts or community identifiers.
pub fn contains_u64(v: &Vec<u64>, x: u64) -> (r: bool)
    ensures
        r == v@.contains(x),
{
    let mut j: usize = 0;
    while j < v.len()
        invariant
            j <= v@.len(),
            forall|t: int| 0 <= t < j ==> v@[t] != x,
        decreases v@.len() - j,
    {
        if v[j] == x {
            return true;
        }
        j = j + 1;
    }
    false
}

/// Element-wise copy of a vector of accounts.
pub fn copy_u64_vec(v: &Vec<u64>) -> (r: Vec<u64>)
    ensures
        r@ == v@,
{
    let mut out: Vec<u64> = Vec::new();
    let mut j: usize = 0;
    while j < v.len()
        invariant
            j <= v@.len(),
            out@ == v@.take(j as int),
        decreases v@.len() - j,
    {
        out.push(v[j]);
        proof {
            assert(v@.take(j as int + 1) =~= v@.take(j as int).push(v@[j as int]));
        }
        j = j + 1;
    }
    proof {
        assert(v@.take(v@.len() as int) =~= v@);
    }
    out
}

/// Read the member list bound to `(cid, cindex, idx)` as a fresh vector.
pub fn members_get(v: &Vec<MembersEntry>, cid: u64, cindex: u32, idx: u64) -> (r: Vec<u64>)
    ensures
        r@ == members_lookup(v@, cid, cindex, idx),
{
    let mut i: usize = v.len();
    proof {
        assert(v@.take(v@.len() as int) =~= v@);
    }
    while i > 0
        invariant
            i <= v@.len(),
            members_lookup(v@, cid, cindex, idx) == members_lookup(
                v@.take(i as int),
                cid,
                cindex,
                idx,
            ),
        decreases i,
    {
        let e = &v[i - 1];
        proof {
            assert(v@.take(i as int).drop_last() =~= v@.take(i as int - 1));
            assert(v@.take(i as int).last() == v@[i as int - 1]);
        }
        if e.cid == cid && e.cindex == cindex && e.idx == idx {
            return copy_u64_vec(&e.members);
        }
        i = i - 1;
    }
    Vec::new()
}

/// Rebuild a slot store without the entries of ceremony `pc`.
pub fn slot_purge(v: &Vec<SlotEntry>, pc: u32) -> (r: Vec<SlotEntry>)
    ensures
        forall|cid: u64, ci: u32, key: u64|
            #[trigger] slot_lookup(r@, cid, ci, key) == (if ci == pc {
                0u64
            } else {
                slot_lookup(v@, cid, ci, key)
            }),
{
    let mut out: Vec<SlotEntry> = Vec::new();
    let mut j: usize = 0;
    while j < v.len()
        invariant
            j <= v@.len(),
            forall|cid: u64, ci: u32, key: u64|
                #[trigger] slot_lookup(out@, cid, ci, key) == (if ci == pc {
                    0u64
                } else {
                    slot_lookup(v@.take(j as int), cid, ci, key)
                }),
        decreases v@.len() - j,
    {
        let e = v[j];
        let ghost pre_out = out@;
        proof {
            assert(v@.take(j as int + 1).drop_last() =~= v@.take(j as int));
            assert(v@.take(j as int + 1).last() == e);
        }
        if e.cindex != pc {
            out.push(e);
            proof {
                lemma_slot_push(pre_out, e);
            }
        }
        j = j + 1;
    }
    proof {
        assert(v@.take(v@.len() as int) =~= v@);
    }
    out
}

/// Rebuild a counter store without the entries of ceremony `pc`.
pub fn count_purge(v: &Vec<CountEntry>, pc: u32) -> (r: Vec<CountEntry>)
    ensures
        forall|cid: u64, ci: u32|
            #[trigger] count_lookup(r@, cid, ci) == (if ci == pc {
                0u64
            } else {
                count_lookup(v@, cid, ci)
            }),
{
    let mut out: Vec<CountEntry> = Vec::new();
    let mut j: usize = 0;
    while j < v.len()
        invariant
            j <= v@.len(),
            forall|cid: u64, ci: u32|
                #[trigger] count_lookup(out@, cid, ci) == (if ci == pc {
                    0u64
                } else {
                    count_lookup(v@.take(j as int), cid, ci)
                }),
        decreases v@.len() - j,
    {
        let e = v[j];
        let ghost pre_out = out@;
        proof {
            assert(v@.take(j as int + 1).drop_last() =~= v@.take(j as int));
            assert(v@.take(j as int + 1).last() == e);
        }
        if e.cindex != pc {
            out.push(e);
            proof {
                lemma_count_push(pre_out, e);
            }
        }
        j = j + 1;
    }
    proof {
        assert(v@.take(v@.len() as int) =~= v@);
    }
    out
}

/// Rebuild a member-list store without the entries of ceremony `pc`.
pub fn members_purge(v: &Vec<MembersEntry>, pc: u32) -> (r: Vec<MembersEntry>)
    ensures
        forall|cid: u64, ci: u32, idx: u64|
            #[trigger] members_lookup(r@, cid, ci, idx) == (if ci == pc {
                Seq::<u64>::empty()
            } else {
                members_lookup(v@, cid, ci, idx)
            }),
{
    let mut out: Vec<MembersEntry> = Vec::new();
    let mut j: usize = 0;
    while j < v.len()
        invariant
            j <= v@.len(),
            forall|cid: u64, ci: u32, idx: u64|
                #[trigger] members_lookup(out@, cid, ci, idx) == (if ci == pc {
                    Seq::<u64>::empty()
                } else {
                    members_lookup(v@.take(j as int), cid, ci, idx)
                }),
        decreases v@.len() - j,
    {
        let e = &v[j];
        let ghost pre_out = out@;
        proof {
            assert(v@.take(j as int + 1).drop_last() =~= v@.take(j as int));
            assert(v@.take(j as int + 1).last() == v@[j as int]);
        }
        if e.cindex != pc {
            let kept = MembersEntry {
                cid: e.cid,
                cindex: e.cindex,
                idx: e.idx,
                members: copy_u64_vec(&e.members),
            };
            proof {
                lemma_members_push(pre_out, kept);
            }
            out.push(kept);
        }
        j = j + 1;
    }
    proof {
        assert(v@.take(v@.len() as int) =~= v@);
    }
    out
}

} // verus!
