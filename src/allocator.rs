use vstd::prelude::*;

use crate::clock::{in_window_at, is_window, valid_instant, window_of, window_start};
use crate::error::AnonError;
use crate::ledger::{
    claimed_tags, in_window, insertion_point, ordered_pair, pruned, tag_claimed,
    valid_record, well_ordered, Ledger, TagRecord, TAG_SPACE,
};

verus! {

/// The smallest tag at or above `r` that `claimed` does not hold; `TAG_SPACE` if none.
pub open spec fn first_free(claimed: Set<int>, r: int) -> int
    decreases TAG_SPACE - r,
{
    if r >= TAG_SPACE {
        TAG_SPACE as int
    } else if claimed.contains(r) {
        first_free(claimed, r + 1)
    } else {
        r
    }
}

/// What allocating in the window of `now`, starting from `seed`, returns.
pub open spec fn allocation_outcome(s: Seq<TagRecord>, now: int, seed: int) -> Result<u32, AnonError> {
    let f = first_free(claimed_tags(s, window_of(now)), seed);
    if f >= TAG_SPACE {
        Err(AnonError::Exhausted)
    } else {
        Ok(f as u32)
    }
}

/// The ledger after `rec` is recorded and its owner's records are pruned.
pub open spec fn after_allocation(s: Seq<TagRecord>, rec: TagRecord) -> Seq<TagRecord> {
    pruned(s.insert(insertion_point(s, rec.created_at as int) as int, rec), rec.owner@)
}

pub open spec fn sorted(v: Seq<u32>) -> bool {
    forall|i: int, j: int| 0 <= i < j < v.len() ==> v[i] <= v[j]
}

pub open spec fn holds(v: Seq<u32>, x: int) -> bool {
    exists|k: int| 0 <= k < v.len() && v[k] as int == x
}

pub open spec fn held_set(v: Seq<u32>) -> Set<int> {
    Set::new(|x: int| holds(v, x))
}

/// `first_free` lies at or above its start, is free, and everything between is held.
pub proof fn lemma_first_free(claimed: Set<int>, r: int)
    ensures
        r <= TAG_SPACE ==> r <= first_free(claimed, r),
        r <= TAG_SPACE ==> first_free(claimed, r) <= TAG_SPACE,
        first_free(claimed, r) < TAG_SPACE ==> !claimed.contains(first_free(claimed, r)),
        forall|x: int| r <= x < first_free(claimed, r) && x < TAG_SPACE ==> claimed.contains(x),
    decreases TAG_SPACE - r,
{
    if r < TAG_SPACE && claimed.contains(r) {
        lemma_first_free(claimed, r + 1);
    }
}

proof fn lemma_insertion_point(s: Seq<TagRecord>, t: int)
    requires
        well_ordered(s),
    ensures
        insertion_point(s, t) <= s.len(),
        forall|i: int| 0 <= i < insertion_point(s, t) ==> (#[trigger] s[i]).created_at <= t,
        forall|i: int| insertion_point(s, t) <= i < s.len() ==> (#[trigger] s[i]).created_at > t,
    decreases s.len(),
{
    if s.len() > 0 {
        let n = s.len() - 1;
        if s.last().created_at <= t {
            assert(insertion_point(s, t) == s.len());
            assert forall|i: int| 0 <= i < s.len() implies (#[trigger] s[i]).created_at <= t by {
                if i < n {
                    assert(ordered_pair(s[i], s[n]));
                }
            }
        } else {
            let d = s.drop_last();
            assert(well_ordered(d)) by {
                assert forall|i: int, j: int| 0 <= i < j < d.len() implies #[trigger] ordered_pair(
                    d[i],
                    d[j],
                ) by {
                    assert(ordered_pair(s[i], s[j]));
                }
            }
            lemma_insertion_point(d, t);
            assert(insertion_point(s, t) == insertion_point(d, t));
            assert forall|i: int| 0 <= i < n implies (#[trigger] s[i]) == d[i] by {}
        }
    }
}

proof fn lemma_claimed_step(s: Seq<TagRecord>, w: int, i: int)
    requires
        0 <= i < s.len(),
    ensures
        forall|x: int|
            tag_claimed(s.take(i + 1), w, x) == (tag_claimed(s.take(i), w, x) || (in_window(s[i], w)
                && s[i].tag == x)),
{
    assert forall|x: int|
        tag_claimed(s.take(i + 1), w, x) == (tag_claimed(s.take(i), w, x) || (in_window(s[i], w)
            && s[i].tag == x)) by {
        let a = s.take(i + 1);
        let b = s.take(i);
        if tag_claimed(a, w, x) {
            let k = choose|k: int| 0 <= k < a.len() && in_window(#[trigger] a[k], w) && a[k].tag == x;
            if k < i {
                assert(b[k] == a[k]);
            }
        }
        if tag_claimed(b, w, x) {
            let k = choose|k: int| 0 <= k < b.len() && in_window(#[trigger] b[k], w) && b[k].tag == x;
            assert(a[k] == b[k]);
        }
        if in_window(s[i], w) && s[i].tag == x {
            assert(a[i] == s[i]);
        }
    }
}

/// The tags held in the window of `now`, in ascending order.
fn claimed_in_order(ledger: &Ledger, now: i64) -> (v: Vec<u32>)
    requires
        ledger.wf(),
        valid_instant(now),
    ensures
        sorted(v@),
        forall|k: int| 0 <= k < v@.len() ==> v@[k] < TAG_SPACE,
        held_set(v@) == claimed_tags(ledger@, window_of(now as int)),
{
    let w = window_start(now);
    let ghost s = ledger@;
    let mut taken: Vec<bool> = Vec::new();
    while taken.len() < TAG_SPACE as usize
        invariant
            taken@.len() <= TAG_SPACE,
            forall|k: int| 0 <= k < taken@.len() ==> !taken@[k],
        decreases TAG_SPACE - taken@.len(),
    {
        taken.push(false);
    }
    let mut i: usize = 0;
    while i < ledger.records.len()
        invariant
            ledger.wf(),
            s == ledger@,
            i <= s.len(),
            w == window_of(now as int),
            is_window(w),
            taken@.len() == TAG_SPACE,
            forall|x: int| 0 <= x < TAG_SPACE ==> taken@[x] == tag_claimed(s.take(i as int), w as int, x),
        decreases s.len() - i,
    {
        proof {
            lemma_claimed_step(s, w as int, i as int);
            assert(valid_record(s[i as int], ledger.next_id));
        }
        let r = &ledger.records[i];
        let ghost t0 = taken@;
        if in_window_at(r.created_at, w) {
            taken.set(r.tag as usize, true);
        }
        proof {
            assert forall|x: int| 0 <= x < TAG_SPACE implies taken@[x] == (t0[x] || (in_window(
                s[i as int],
                w as int,
            ) && s[i as int].tag == x)) by {
                if in_window(s[i as int], w as int) && x == r.tag {
                    assert(taken@[x]);
                }
            }
            assert forall|x: int| 0 <= x < TAG_SPACE implies taken@[x] == tag_claimed(
                s.take(i + 1),
                w as int,
                x,
            ) by {
                assert(t0[x] == tag_claimed(s.take(i as int), w as int, x));
            }
        }
        i = i + 1;
    }
    proof {
        assert(s.take(i as int) =~= s);
        assert forall|x: int| tag_claimed(s, w as int, x) implies 0 <= x < TAG_SPACE by {
            let k = choose|k: int| 0 <= k < s.len() && in_window(#[trigger] s[k], w as int) && s[k].tag == x;
            assert(valid_record(s[k], ledger.next_id));
        }
    }
    let mut v: Vec<u32> = Vec::new();
    let mut x: u32 = 0;
    while x < TAG_SPACE
        invariant
            x <= TAG_SPACE,
            taken@.len() == TAG_SPACE,
            forall|y: int| 0 <= y < TAG_SPACE ==> taken@[y] == tag_claimed(s, w as int, y),
            forall|y: int| tag_claimed(s, w as int, y) ==> 0 <= y < TAG_SPACE,
            sorted(v@),
            forall|k: int| 0 <= k < v@.len() ==> v@[k] < x,
            forall|y: int| holds(v@, y) == (0 <= y < x && tag_claimed(s, w as int, y)),
        decreases TAG_SPACE - x,
    {
        if taken[x as usize] {
            let ghost o = v@;
            v.push(x);
            proof {
                assert forall|y: int| holds(v@, y) == (holds(o, y) || y == x) by {
                    if holds(v@, y) {
                        let k = choose|k: int| 0 <= k < v@.len() && v@[k] as int == y;
                        if k < o.len() {
                            assert(o[k] == v@[k]);
                        }
                    }
                    if holds(o, y) {
                        let k = choose|k: int| 0 <= k < o.len() && o[k] as int == y;
                        assert(v@[k] == o[k]);
                    }
                    if y == x {
                        assert(v@[o.len() as int] == x);
                    }
                }
            }
        }
        x = x + 1;
    }
    proof {
        assert(held_set(v@) =~= claimed_tags(s, w as int));
    }
    v
}

/// Walks the ascending list of held tags from `seed`, stepping past each
/// collision: the smallest free tag at or above `seed`, or `TAG_SPACE`.
fn pick_tag(claimed: &Vec<u32>, seed: u32) -> (r: u32)
    requires
        sorted(claimed@),
        forall|k: int| 0 <= k < claimed@.len() ==> claimed@[k] < TAG_SPACE,
        seed < TAG_SPACE,
    ensures
        r == first_free(held_set(claimed@), seed as int),
{
    let ghost held = held_set(claimed@);
    let mut r: u32 = seed;
    let mut i: usize = 0;
    while i < claimed.len() && r >= claimed[i]
        invariant
            i <= claimed@.len(),
            seed <= r <= TAG_SPACE,
            sorted(claimed@),
            forall|k: int| 0 <= k < claimed@.len() ==> claimed@[k] < TAG_SPACE,
            held == held_set(claimed@),
            first_free(held, r as int) == first_free(held, seed as int),
            forall|k: int| 0 <= k < i ==> claimed@[k] < r,
        decreases claimed@.len() - i,
    {
        let t = claimed[i];
        if r == t {
            proof {
                assert(held.contains(r as int));
            }
            r = t + 1;
        }
        i = i + 1;
    }
    proof {
        if r < TAG_SPACE {
            assert(!held.contains(r as int)) by {
                if held.contains(r as int) {
                    let k = choose|k: int| 0 <= k < claimed@.len() && claimed@[k] as int == r as int;
                    if k >= i {
                        assert(claimed@[i as int] <= claimed@[k]);
                    }
                }
            }
        }
    }
    r
}

/// Relies on rand's `thread_rng` and `Rng::gen_range`: a value drawn from `0..bound`.
#[verifier::external_body]
fn draw_below(bound: u32) -> (r: u32)
    requires
        bound > 0,
    ensures
        r < bound,
{
    rand::Rng::gen_range(&mut rand::thread_rng(), 0..bound)
}

impl Ledger {
    /// Records `rec` after every record created at or before it.
    fn insert_record(&mut self, rec: TagRecord)
        requires
            old(self).wf(),
            old(self).next_id < u64::MAX,
            rec.id == old(self).next_id,
            rec.tag < TAG_SPACE,
            valid_instant(rec.created_at),
            !claimed_tags(old(self)@, window_of(rec.created_at as int)).contains(rec.tag as int),
        ensures
            final(self).wf(),
            final(self)@ == old(self)@.insert(
                insertion_point(old(self)@, rec.created_at as int) as int,
                rec,
            ),
            final(self).next_id == old(self).next_id + 1,
    {
        let ghost s = self@;
        let ghost t = rec.created_at as int;
        let mut i: usize = self.records.len();
        proof {
            assert(s.take(i as int) =~= s);
        }
        while i > 0 && self.records[i - 1].created_at > rec.created_at
            invariant
                self@ == s,
                i <= s.len(),
                t == rec.created_at,
                insertion_point(s.take(i as int), t) == insertion_point(s, t),
            decreases i,
        {
            proof {
                assert(s.take(i as int).drop_last() =~= s.take(i - 1));
            }
            i = i - 1;
        }
        proof {
            if i > 0 {
                assert(s.take(i as int).last() == s[i - 1]);
            }
            lemma_insertion_point(s, t);
        }
        let ghost p = i as int;
        let ghost r = rec;
        self.next_id = self.next_id + 1;
        self.records.insert(i, rec);
        proof {
            let n = self@;
            let w = window_of(t);
            assert forall|k: int| 0 <= k < n.len() implies valid_record(#[trigger] n[k], self.next_id) by {
                if k < p {
                    assert(n[k] == s[k]);
                    assert(valid_record(s[k], (self.next_id - 1) as u64));
                } else if k > p {
                    assert(n[k] == s[k - 1]);
                    assert(valid_record(s[k - 1], (self.next_id - 1) as u64));
                }
            }
            assert forall|a: int, b: int| 0 <= a < b < n.len() implies #[trigger] ordered_pair(
                n[a],
                n[b],
            ) by {
                if b < p {
                    assert(ordered_pair(s[a], s[b]));
                } else if b == p {
                    assert(valid_record(s[a], (self.next_id - 1) as u64));
                    if window_of(s[a].created_at as int) == w {
                        assert(tag_claimed(s, w, s[a].tag as int));
                    }
                } else if a == p {
                    assert(n[b] == s[b - 1]);
                    if window_of(s[b - 1].created_at as int) == w {
                        assert(tag_claimed(s, w, s[b - 1].tag as int));
                    }
                } else if a < p {
                    assert(n[b] == s[b - 1]);
                    assert(ordered_pair(s[a], s[b - 1]));
                } else {
                    assert(n[b] == s[b - 1]);
                    assert(n[a] == s[a - 1]);
                    assert(ordered_pair(s[a - 1], s[b - 1]));
                }
            }
        }
    }

    /// Claims a tag for `owner` in the window of `now`, starting the search at
    /// `seed`: the smallest free tag at or above `seed`. On success the record
    /// is stored and the owner's records are pruned; when no tag is free from
    /// `seed` on, nothing changes.
    pub fn generate_tag_with_seed(&mut self, owner: &String, now: i64, seed: u32) -> (r: Result<u32, AnonError>)
        requires
            old(self).wf(),
            old(self).next_id < u64::MAX,
            valid_instant(now),
            seed < TAG_SPACE,
        ensures
            final(self).wf(),
            r == allocation_outcome(old(self)@, now as int, seed as int),
            r matches Ok(t) ==> final(self)@ == after_allocation(
                old(self)@,
                (TagRecord { id: old(self).next_id, owner: *owner, tag: t, created_at: now }),
            ) && final(self).next_id == old(self).next_id + 1,
            r is Err ==> *final(self) == *old(self),
    {
        let claimed = claimed_in_order(self, now);
        let t = pick_tag(&claimed, seed);
        proof {
            lemma_first_free(claimed_tags(self@, window_of(now as int)), seed as int);
        }
        if t >= TAG_SPACE {
            return Err(AnonError::Exhausted);
        }
        let rec = TagRecord { id: self.next_id, owner: owner.clone(), tag: t, created_at: now };
        self.insert_record(rec);
        self.prune(owner);
        Ok(t)
    }

    /// Claims a tag for `owner` in the window of `now`, from a uniformly drawn
    /// start. Succeeds whenever the highest tag is free in that window; fails
    /// with `Exhausted`, changing nothing, whenever every tag is held.
    pub fn generate_tag(&mut self, owner: &String, now: i64) -> (r: Result<u32, AnonError>)
        requires
            old(self).wf(),
            old(self).next_id < u64::MAX,
            valid_instant(now),
        ensures
            final(self).wf(),
            r matches Ok(t) ==> t < TAG_SPACE && !claimed_tags(old(self)@, window_of(now as int)).contains(
                t as int,
            ) && final(self)@ == after_allocation(
                old(self)@,
                (TagRecord { id: old(self).next_id, owner: *owner, tag: t, created_at: now }),
            ) && final(self).next_id == old(self).next_id + 1,
            r is Err ==> r == Err::<u32, AnonError>(AnonError::Exhausted) && *final(self) == *old(self),
            !claimed_tags(old(self)@, window_of(now as int)).contains(TAG_SPACE - 1) ==> r is Ok,
            (forall|x: int|
                0 <= x < TAG_SPACE ==> claimed_tags(old(self)@, window_of(now as int)).contains(x))
                ==> r is Err,
    {
        let seed = draw_below(TAG_SPACE);
        proof {
            let c = claimed_tags(self@, window_of(now as int));
            lemma_first_free(c, seed as int);
            lemma_first_free(c, 0);
        }
        self.generate_tag_with_seed(owner, now, seed)
    }
}

} // verus!
