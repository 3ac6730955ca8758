use vstd::prelude::*;

use vstd::set_lib::{lemma_int_range, lemma_len_subset, set_int_range};

use crate::allocator::{after_allocation, allocation_outcome, lemma_first_free};
use crate::clock::window_of;
use crate::error::AnonError;
use crate::ledger::{
    claimed_tags, in_window, lemma_drop_none, latest_tag, lemma_drop_oldest_count, owner_count,
    ordered_pair, tag_claimed, window_count, Ledger, TagRecord,
    RETAINED_PER_OWNER, TAG_SPACE,
};
use crate::session::{rotate_outcome, send_outcome, MAX_RETAGS};

verus! {

proof fn lemma_latest_claimed(s: Seq<TagRecord>, owner: Seq<char>, w: int)
    ensures
        latest_tag(s, owner, w) matches Some(t) ==> tag_claimed(s, w, t as int),
        latest_tag(s, owner, w) is None ==> forall|i: int|
            0 <= i < s.len() ==> !((#[trigger] s[i]).owner@ == owner && in_window(s[i], w)),
    decreases s.len(),
{
    if s.len() > 0 {
        let d = s.drop_last();
        lemma_latest_claimed(d, owner, w);
        if !(s.last().owner@ == owner && in_window(s.last(), w)) {
            if let Some(t) = latest_tag(d, owner, w) {
                let i = choose|i: int| 0 <= i < d.len() && in_window(#[trigger] d[i], w) && d[i].tag == t as int;
                assert(s[i] == d[i]);
            }
            assert forall|i: int| 0 <= i < d.len() implies #[trigger] s[i] == d[i] by {}
        } else {
            assert(s[s.len() - 1] == s.last());
        }
    }
}

proof fn lemma_window_count_witness(s: Seq<TagRecord>, owner: Seq<char>, w: int)
    requires
        window_count(s, owner, w) > 0,
    ensures
        exists|i: int| 0 <= i < s.len() && (#[trigger] s[i]).owner@ == owner && in_window(s[i], w),
    decreases s.len(),
{
    if !(s[0].owner@ == owner && in_window(s[0], w)) {
        lemma_window_count_witness(s.skip(1), owner, w);
        let i = choose|i: int|
            0 <= i < s.skip(1).len() && (#[trigger] s.skip(1)[i]).owner@ == owner && in_window(
                s.skip(1)[i],
                w,
            );
        assert(s[i + 1] == s.skip(1)[i]);
    }
}

proof fn lemma_owner_count_insert(s: Seq<TagRecord>, p: int, r: TagRecord)
    requires
        0 <= p <= s.len(),
    ensures
        owner_count(s.insert(p, r), r.owner@) == owner_count(s, r.owner@) + 1,
    decreases s.len(),
{
    let n = s.insert(p, r);
    if p == 0 {
        assert(n[0] == r);
        assert(n.skip(1) =~= s);
    } else {
        lemma_owner_count_insert(s.skip(1), p - 1, r);
        assert(n[0] == s[0]);
        assert(n.skip(1) =~= s.skip(1).insert(p - 1, r));
    }
}

/// No two records of one window hold the same tag, in every well-formed
/// ledger, and every operation keeps the ledger well formed.
pub proof fn lemma_window_uniqueness(l: Ledger)
    requires
        l.wf(),
    ensures
        forall|i: int, j: int|
            0 <= i < l@.len() && 0 <= j < l@.len() && i != j && window_of(
                l@[i].created_at as int,
            ) == window_of(l@[j].created_at as int) ==> l@[i].tag != l@[j].tag,
{
    assert forall|i: int, j: int|
        0 <= i < l@.len() && 0 <= j < l@.len() && i != j && window_of(l@[i].created_at as int)
            == window_of(l@[j].created_at as int) implies l@[i].tag != l@[j].tag by {
        if i < j {
            assert(ordered_pair(l@[i], l@[j]));
        } else {
            assert(ordered_pair(l@[j], l@[i]));
        }
    }
}

/// Once all `TAG_SPACE` tags are held in a window, every further allocation
/// in that window, from any start, is `Exhausted`.
pub proof fn lemma_exhaustion(l: Ledger, now: int, seed: int)
    requires
        l.wf(),
        claimed_tags(l@, window_of(now)).len() >= TAG_SPACE,
        0 <= seed < TAG_SPACE,
    ensures
        allocation_outcome(l@, now, seed) == Err::<u32, AnonError>(AnonError::Exhausted),
{
    let c = claimed_tags(l@, window_of(now));
    let range = set_int_range(0, TAG_SPACE as int);
    lemma_int_range(0, TAG_SPACE as int);
    assert(c.subset_of(range)) by {
        assert forall|x: int| c.contains(x) implies range.contains(x) by {
            let i = choose|i: int| 0 <= i < l@.len() && in_window(#[trigger] l@[i], window_of(now)) && l@[i].tag == x;
        }
    }
    assert forall|x: int| 0 <= x < TAG_SPACE implies c.contains(x) by {
        if !c.contains(x) {
            assert(c.subset_of(range.remove(x)));
            lemma_len_subset(c, range.remove(x));
        }
    }
    lemma_first_free(c, seed);
}

/// A tag held only in other windows is free in this one: allocating from it
/// returns it.
pub proof fn lemma_window_isolation(s: Seq<TagRecord>, now: int, seed: int)
    requires
        0 <= seed < TAG_SPACE,
        forall|i: int| 0 <= i < s.len() && (#[trigger] s[i]).tag == seed ==> !in_window(s[i], window_of(now)),
    ensures
        allocation_outcome(s, now, seed) == Ok::<u32, AnonError>(seed as u32),
{
    assert(!claimed_tags(s, window_of(now)).contains(seed));
}

/// After an allocation the owner holds one more record, up to
/// `RETAINED_PER_OWNER`, where the count stays.
pub proof fn lemma_retention(s: Seq<TagRecord>, rec: TagRecord)
    ensures
        owner_count(after_allocation(s, rec), rec.owner@) == if owner_count(s, rec.owner@) + 1
            > RETAINED_PER_OWNER {
            RETAINED_PER_OWNER as nat
        } else {
            owner_count(s, rec.owner@) + 1
        },
{
    let p = crate::ledger::insertion_point(s, rec.created_at as int);
    lemma_insertion_point_bound(s, rec.created_at as int);
    let n = s.insert(p as int, rec);
    lemma_owner_count_insert(s, p as int, rec);
    let c = owner_count(n, rec.owner@);
    let k: nat = if c > RETAINED_PER_OWNER { (c - RETAINED_PER_OWNER) as nat } else { 0 };
    lemma_drop_oldest_count(n, rec.owner@, k);
}

proof fn lemma_insertion_point_bound(s: Seq<TagRecord>, t: int)
    ensures
        crate::ledger::insertion_point(s, t) <= s.len(),
    decreases s.len(),
{
    if s.len() > 0 {
        lemma_insertion_point_bound(s.drop_last(), t);
    }
}

/// An allocation by an owner holding fewer than `RETAINED_PER_OWNER` records
/// adds its tag to the tags held in its window and takes none away: after
/// `TAG_SPACE` such allocations in one window every tag is held there.
pub proof fn lemma_allocation_claims(s: Seq<TagRecord>, rec: TagRecord)
    requires
        owner_count(s, rec.owner@) < RETAINED_PER_OWNER,
    ensures
        claimed_tags(after_allocation(s, rec), window_of(rec.created_at as int)) == claimed_tags(
            s,
            window_of(rec.created_at as int),
        ).insert(rec.tag as int),
{
    let w = window_of(rec.created_at as int);
    let p = crate::ledger::insertion_point(s, rec.created_at as int) as int;
    lemma_insertion_point_bound(s, rec.created_at as int);
    let n = s.insert(p, rec);
    lemma_owner_count_insert(s, p, rec);
    lemma_drop_none(n, rec.owner@);
    assert(after_allocation(s, rec) == n);
    assert forall|x: int| tag_claimed(n, w, x) == (tag_claimed(s, w, x) || x == rec.tag) by {
        if tag_claimed(n, w, x) {
            let i = choose|i: int| 0 <= i < n.len() && in_window(#[trigger] n[i], w) && n[i].tag == x;
            if i < p {
                assert(s[i] == n[i]);
            } else if i > p {
                assert(s[i - 1] == n[i]);
            }
        }
        if tag_claimed(s, w, x) {
            let i = choose|i: int| 0 <= i < s.len() && in_window(#[trigger] s[i], w) && s[i].tag == x;
            if i < p {
                assert(n[i] == s[i]);
            } else {
                assert(n[i + 1] == s[i]);
            }
        }
        if x == rec.tag {
            assert(n[p] == rec);
        }
    }
    assert(claimed_tags(n, w) =~= claimed_tags(s, w).insert(rec.tag as int));
}

/// An owner holding `MAX_RETAGS + 1` records in the window (a first tag and
/// `MAX_RETAGS` rotations) is refused a further rotation.
pub proof fn lemma_retag_limit(s: Seq<TagRecord>, owner: Seq<char>, now: int, seed: int)
    requires
        window_count(s, owner, window_of(now)) > MAX_RETAGS,
    ensures
        rotate_outcome(s, owner, now, seed) == Err::<(u32, u32), AnonError>(AnonError::RetagLimit),
{
    lemma_window_count_witness(s, owner, window_of(now));
    lemma_latest_claimed(s, owner, window_of(now));
}

/// In a window where the ledger holds no record, the first send claims the
/// drawn start itself.
pub proof fn lemma_fresh_window(s: Seq<TagRecord>, owner: Seq<char>, now: int, seed: int)
    requires
        0 <= seed < TAG_SPACE,
        forall|i: int| 0 <= i < s.len() ==> !in_window(#[trigger] s[i], window_of(now)),
    ensures
        send_outcome(s, owner, now, seed) == Ok::<u32, AnonError>(seed as u32),
{
    lemma_latest_claimed(s, owner, window_of(now));
    if let Some(t) = latest_tag(s, owner, window_of(now)) {
        assert(tag_claimed(s, window_of(now), t as int));
    }
    assert(!claimed_tags(s, window_of(now)).contains(seed));
}

/// A rotation always hands out a tag different from the one it replaces.
pub proof fn lemma_rotation_changes_tag(s: Seq<TagRecord>, owner: Seq<char>, now: int, seed: int)
    requires
        0 <= seed < TAG_SPACE,
    ensures
        rotate_outcome(s, owner, now, seed) matches Ok((prev, t)) ==> prev != t,
{
    lemma_latest_claimed(s, owner, window_of(now));
    lemma_first_free(claimed_tags(s, window_of(now)), seed);
}

} // verus!
