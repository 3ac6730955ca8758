use vstd::prelude::*;

use crate::clock::{in_window_at, is_window, valid_instant, window_of, window_start, MAX_INSTANT, MIN_INSTANT};

verus! {

/// Number of distinct tags: a tag is a value in `0..TAG_SPACE`.
pub const TAG_SPACE: u32 = 10000;

/// How many records of one owner the ledger keeps.
pub const RETAINED_PER_OWNER: usize = 20;

/// One allocation of a tag to an owner.
#[derive(Debug)]
pub struct TagRecord {
    pub id: u64,
    pub owner: String,
    pub tag: u32,
    /// Seconds since the Unix epoch, UTC.
    pub created_at: i64,
}

impl TagRecord {
    /// A copy of this record.
    pub fn duplicate(&self) -> (r: TagRecord)
        ensures
            r == *self,
    {
        TagRecord { id: self.id, owner: self.owner.clone(), tag: self.tag, created_at: self.created_at }
    }
}

/// `a` was created before `b`: earlier in time, or at the same second with a smaller id.
pub open spec fn precedes(a: TagRecord, b: TagRecord) -> bool {
    a.created_at < b.created_at || (a.created_at == b.created_at && a.id < b.id)
}

pub open spec fn in_window(r: TagRecord, w: int) -> bool {
    window_of(r.created_at as int) == w
}

/// Two records as the ledger stores them: in creation order, and holding
/// different tags if they fall in one window.
pub open spec fn ordered_pair(a: TagRecord, b: TagRecord) -> bool {
    &&& precedes(a, b)
    &&& window_of(a.created_at as int) == window_of(b.created_at as int) ==> a.tag != b.tag
}

pub open spec fn well_ordered(s: Seq<TagRecord>) -> bool {
    forall|i: int, j: int| 0 <= i < j < s.len() ==> #[trigger] ordered_pair(s[i], s[j])
}

pub open spec fn valid_record(r: TagRecord, next_id: u64) -> bool {
    &&& r.tag < TAG_SPACE
    &&& valid_instant(r.created_at)
    &&& r.id < next_id
}

/// Some record of window `w` holds tag `x`.
pub open spec fn tag_claimed(s: Seq<TagRecord>, w: int, x: int) -> bool {
    exists|i: int| 0 <= i < s.len() && in_window(#[trigger] s[i], w) && s[i].tag == x
}

/// The tags held in window `w`.
pub open spec fn claimed_tags(s: Seq<TagRecord>, w: int) -> Set<int> {
    Set::new(|x: int| tag_claimed(s, w, x))
}

/// Number of records of `owner`.
pub open spec fn owner_count(s: Seq<TagRecord>, owner: Seq<char>) -> nat
    decreases s.len(),
{
    if s.len() == 0 {
        0
    } else {
        (if s[0].owner@ == owner { 1nat } else { 0nat }) + owner_count(s.skip(1), owner)
    }
}

/// Number of records of `owner` in window `w`.
pub open spec fn window_count(s: Seq<TagRecord>, owner: Seq<char>, w: int) -> nat
    decreases s.len(),
{
    if s.len() == 0 {
        0
    } else {
        (if s[0].owner@ == owner && in_window(s[0], w) { 1nat } else { 0nat })
            + window_count(s.skip(1), owner, w)
    }
}

/// The tag of the most recent record of `owner` in window `w`.
pub open spec fn latest_tag(s: Seq<TagRecord>, owner: Seq<char>, w: int) -> Option<u32>
    decreases s.len(),
{
    if s.len() == 0 {
        None
    } else if s.last().owner@ == owner && in_window(s.last(), w) {
        Some(s.last().tag)
    } else {
        latest_tag(s.drop_last(), owner, w)
    }
}

/// `s` without the `k` oldest records of `owner`.
pub open spec fn drop_oldest(s: Seq<TagRecord>, owner: Seq<char>, k: nat) -> Seq<TagRecord>
    decreases s.len(),
{
    if s.len() == 0 {
        s
    } else if s[0].owner@ == owner && k > 0 {
        drop_oldest(s.skip(1), owner, (k - 1) as nat)
    } else {
        seq![s[0]] + drop_oldest(s.skip(1), owner, k)
    }
}

/// `s` keeping only the most recent `RETAINED_PER_OWNER` records of `owner`.
pub open spec fn pruned(s: Seq<TagRecord>, owner: Seq<char>) -> Seq<TagRecord> {
    let n = owner_count(s, owner);
    drop_oldest(
        s,
        owner,
        if n > RETAINED_PER_OWNER { (n - RETAINED_PER_OWNER) as nat } else { 0 },
    )
}

/// Where a record created at `t` goes: after every record created at or before `t`.
pub open spec fn insertion_point(s: Seq<TagRecord>, t: int) -> nat
    decreases s.len(),
{
    if s.len() == 0 {
        0
    } else if s.last().created_at <= t {
        s.len()
    } else {
        insertion_point(s.drop_last(), t)
    }
}

proof fn lemma_skip_step<A>(s: Seq<A>, i: int)
    requires
        0 <= i < s.len(),
    ensures
        s.skip(i).skip(1) == s.skip(i + 1),
        s.skip(i)[0] == s[i],
        s.skip(i).len() == s.len() - i,
{
    assert(s.skip(i).skip(1) =~= s.skip(i + 1));
}

proof fn lemma_drop_oldest_members(s: Seq<TagRecord>, owner: Seq<char>, k: nat)
    ensures
        drop_oldest(s, owner, k).len() <= s.len(),
        forall|i: int|
            0 <= i < drop_oldest(s, owner, k).len() ==> s.contains(
                #[trigger] drop_oldest(s, owner, k)[i],
            ),
        well_ordered(s) ==> well_ordered(drop_oldest(s, owner, k)),
    decreases s.len(),
{
    if s.len() > 0 {
        let rest = s.skip(1);
        let k2: nat = if s[0].owner@ == owner && k > 0 { (k - 1) as nat } else { k };
        lemma_drop_oldest_members(rest, owner, k2);
        let d = drop_oldest(rest, owner, k2);
        assert forall|i: int| 0 <= i < d.len() implies s.contains(#[trigger] d[i]) by {
            assert(rest.contains(d[i]));
            let j = choose|j: int| 0 <= j < rest.len() && rest[j] == d[i];
            assert(s[j + 1] == d[i]);
        }
        if s[0].owner@ == owner && k > 0 {
            assert(well_ordered(s) ==> well_ordered(rest)) by {
                if well_ordered(s) {
                    assert forall|i: int, j: int| 0 <= i < j < rest.len() implies #[trigger] ordered_pair(
                        rest[i],
                        rest[j],
                    ) by {
                        assert(ordered_pair(s[i + 1], s[j + 1]));
                    }
                }
            }
        } else {
            let r = drop_oldest(s, owner, k);
            assert(r == seq![s[0]] + d);
            assert forall|i: int| 0 <= i < r.len() implies s.contains(#[trigger] r[i]) by {
                if i == 0 {
                    assert(s[0] == r[0]);
                } else {
                    assert(r[i] == d[i - 1]);
                }
            }
            if well_ordered(s) {
                assert(well_ordered(rest)) by {
                    assert forall|i: int, j: int| 0 <= i < j < rest.len() implies #[trigger] ordered_pair(
                        rest[i],
                        rest[j],
                    ) by {
                        assert(ordered_pair(s[i + 1], s[j + 1]));
                    }
                }
                assert forall|i: int, j: int| 0 <= i < j < r.len() implies #[trigger] ordered_pair(
                    r[i],
                    r[j],
                ) by {
                    if i == 0 {
                        assert(r[j] == d[j - 1]);
                        assert(s.contains(d[j - 1]));
                        let m = choose|m: int| 0 <= m < rest.len() && rest[m] == d[j - 1];
                        assert(ordered_pair(s[0], s[m + 1]));
                    } else {
                        assert(ordered_pair(d[i - 1], d[j - 1]));
                    }
                }
            }
        }
    }
}

pub proof fn lemma_drop_none(s: Seq<TagRecord>, owner: Seq<char>)
    ensures
        drop_oldest(s, owner, 0) == s,
    decreases s.len(),
{
    if s.len() > 0 {
        lemma_drop_none(s.skip(1), owner);
        assert(seq![s[0]] + s.skip(1) =~= s);
    }
}

/// Dropping the `k` oldest records of `owner` leaves `count - k` of them.
pub proof fn lemma_drop_oldest_count(s: Seq<TagRecord>, owner: Seq<char>, k: nat)
    requires
        k <= owner_count(s, owner),
    ensures
        owner_count(drop_oldest(s, owner, k), owner) == owner_count(s, owner) - k,
    decreases s.len(),
{
    if s.len() > 0 {
        let rest = s.skip(1);
        if s[0].owner@ == owner && k > 0 {
            lemma_drop_oldest_count(rest, owner, (k - 1) as nat);
        } else {
            lemma_drop_oldest_count(rest, owner, k);
            let d = drop_oldest(rest, owner, k);
            let r = seq![s[0]] + d;
            assert(r[0] == s[0]);
            assert(r.skip(1) =~= d);
        }
    }
}

/// Records that make a well-formed ledger.
pub open spec fn loadable(s: Seq<TagRecord>) -> bool {
    &&& forall|i: int| 0 <= i < s.len() ==> valid_record(#[trigger] s[i], u64::MAX)
    &&& well_ordered(s)
}

/// The ledger of tag allocations, oldest first.
pub struct Ledger {
    pub records: Vec<TagRecord>,
    /// Greater than the id of every record; the id the next record receives.
    pub next_id: u64,
}

impl View for Ledger {
    type V = Seq<TagRecord>;

    open spec fn view(&self) -> Seq<TagRecord> {
        self.records@
    }
}

impl Ledger {
    /// Every record is valid, records are in creation order, and no two
    /// records of one window hold the same tag.
    pub open spec fn wf(&self) -> bool {
        &&& forall|i: int| 0 <= i < self@.len() ==> valid_record(#[trigger] self@[i], self.next_id)
        &&& well_ordered(self@)
    }

    /// An empty ledger.
    pub fn new() -> (l: Ledger)
        ensures
            l.wf(),
            l@ == Seq::<TagRecord>::empty(),
            l.next_id == 1,
    {
        Ledger { records: Vec::new(), next_id: 1 }
    }

    /// A ledger of `records`, oldest first, if they are valid: tags below
    /// `TAG_SPACE`, instants the clock handles, ids below `u64::MAX`, strictly
    /// in creation order, and no tag twice in one window.
    pub fn from_records(records: Vec<TagRecord>) -> (r: Option<Ledger>)
        ensures
            r is Some <==> loadable(records@),
            r matches Some(l) ==> l.wf() && l@ == records@,
    {
        let ghost s = records@;
        let mut next_id: u64 = 0;
        let mut i: usize = 0;
        while i < records.len()
            invariant
                s == records@,
                i <= s.len(),
                forall|k: int| 0 <= k < i ==> valid_record(#[trigger] s[k], next_id),
            decreases s.len() - i,
        {
            let r = &records[i];
            if r.tag >= TAG_SPACE || r.created_at < MIN_INSTANT || r.created_at > MAX_INSTANT
                || r.id == u64::MAX {
                return None;
            }
            if r.id >= next_id {
                next_id = r.id + 1;
            }
            i = i + 1;
        }
        let mut i: usize = 0;
        while i < records.len()
            invariant
                s == records@,
                i <= s.len(),
                forall|k: int| 0 <= k < s.len() ==> valid_record(#[trigger] s[k], next_id),
                forall|a: int, b: int| 0 <= a < i && a < b < s.len() ==> #[trigger] ordered_pair(s[a], s[b]),
            decreases s.len() - i,
        {
            let a = &records[i];
            proof {
                assert(valid_record(s[i as int], next_id));
            }
            let wa = window_start(a.created_at);
            let mut j: usize = i + 1;
            while j < records.len()
                invariant
                    s == records@,
                    i < j <= s.len(),
                    forall|k: int| 0 <= k < s.len() ==> valid_record(#[trigger] s[k], next_id),
                    wa == window_of(s[i as int].created_at as int),
                    is_window(wa),
                    forall|b: int| i < b < j ==> #[trigger] ordered_pair(s[i as int], s[b]),
                decreases s.len() - j,
            {
                let a = &records[i];
                let b = &records[j];
                proof {
                    assert(valid_record(s[j as int], next_id));
                }
                let before = a.created_at < b.created_at || (a.created_at == b.created_at && a.id
                    < b.id);
                if !before || (in_window_at(b.created_at, wa) && a.tag == b.tag) {
                    proof {
                        assert(!ordered_pair(s[i as int], s[j as int]));
                    }
                    return None;
                }
                j = j + 1;
            }
            i = i + 1;
        }
        Some(Ledger { records, next_id })
    }

    /// Number of records of `owner` created in the window of `now`.
    pub fn count_tags(&self, owner: &String, now: i64) -> (n: usize)
        requires
            self.wf(),
            valid_instant(now),
        ensures
            n == window_count(self@, owner@, window_of(now as int)),
    {
        let w = window_start(now);
        let mut n: usize = 0;
        let mut i: usize = 0;
        proof {
            assert(self@.skip(0) =~= self@);
        }
        while i < self.records.len()
            invariant
                self.wf(),
                i <= self@.len(),
                n <= i,
                w == window_of(now as int),
                is_window(w),
                n + window_count(self@.skip(i as int), owner@, w as int) == window_count(
                    self@,
                    owner@,
                    w as int,
                ),
            decreases self@.len() - i,
        {
            proof {
                lemma_skip_step(self@, i as int);
            }
            let r = &self.records[i];
            if r.owner == *owner && in_window_at(r.created_at, w) {
                n = n + 1;
            }
            i = i + 1;
        }
        n
    }

    /// The tag of the owner's most recent record in the window of `now`, if any.
    pub fn get_tag(&self, owner: &String, now: i64) -> (r: Option<u32>)
        requires
            self.wf(),
            valid_instant(now),
        ensures
            r == latest_tag(self@, owner@, window_of(now as int)),
            r matches Some(t) ==> t < TAG_SPACE,
    {
        let w = window_start(now);
        let mut i: usize = self.records.len();
        proof {
            assert(self@.take(i as int) =~= self@);
        }
        while i > 0
            invariant
                self.wf(),
                i <= self@.len(),
                w == window_of(now as int),
                is_window(w),
                latest_tag(self@.take(i as int), owner@, w as int) == latest_tag(
                    self@,
                    owner@,
                    w as int,
                ),
            decreases i,
        {
            proof {
                assert(self@.take(i as int).drop_last() =~= self@.take(i - 1));
            }
            let r = &self.records[i - 1];
            if r.owner == *owner && in_window_at(r.created_at, w) {
                proof {
                    assert(valid_record(self@[i - 1], self.next_id));
                }
                return Some(r.tag);
            }
            i = i - 1;
        }
        None
    }

    /// Number of records of `owner`.
    fn count_owner(&self, owner: &String) -> (n: usize)
        ensures
            n == owner_count(self@, owner@),
    {
        let mut n: usize = 0;
        let mut i: usize = 0;
        proof {
            assert(self@.skip(0) =~= self@);
        }
        while i < self.records.len()
            invariant
                i <= self@.len(),
                n <= i,
                n + owner_count(self@.skip(i as int), owner@) == owner_count(self@, owner@),
            decreases self@.len() - i,
        {
            proof {
                lemma_skip_step(self@, i as int);
            }
            if self.records[i].owner == *owner {
                n = n + 1;
            }
            i = i + 1;
        }
        n
    }

    /// Deletes the owner's records beyond the `RETAINED_PER_OWNER` most recent.
    pub fn prune(&mut self, owner: &String)
        requires
            old(self).wf(),
        ensures
            final(self).wf(),
            final(self)@ == pruned(old(self)@, owner@),
            final(self).next_id == old(self).next_id,
    {
        let total = self.count_owner(owner);
        if total <= RETAINED_PER_OWNER {
            proof {
                lemma_drop_none(self@, owner@);
            }
            return;
        }
        let k: usize = total - RETAINED_PER_OWNER;
        let ghost s = self@;
        let mut remaining: usize = k;
        let mut kept: Vec<TagRecord> = Vec::new();
        let mut i: usize = 0;
        proof {
            assert(s.skip(0) =~= s);
            assert(kept@ + drop_oldest(s, owner@, k as nat) =~= drop_oldest(s, owner@, k as nat));
        }
        while i < self.records.len()
            invariant
                self@ == s,
                i <= s.len(),
                kept@ + drop_oldest(s.skip(i as int), owner@, remaining as nat) == drop_oldest(
                    s,
                    owner@,
                    k as nat,
                ),
            decreases s.len() - i,
        {
            proof {
                lemma_skip_step(s, i as int);
            }
            let r = &self.records[i];
            if r.owner == *owner && remaining > 0 {
                remaining = remaining - 1;
            } else {
                let ghost d = drop_oldest(s.skip(i + 1), owner@, remaining as nat);
                let c = r.duplicate();
                proof {
                    assert(kept@.push(c) + d =~= kept@ + (seq![c] + d));
                }
                kept.push(c);
            }
            i = i + 1;
        }
        proof {
            assert(kept@ + drop_oldest(s.skip(i as int), owner@, remaining as nat) =~= kept@);
            lemma_drop_oldest_members(s, owner@, k as nat);
            let r = kept@;
            assert forall|j: int| 0 <= j < r.len() implies valid_record(
                #[trigger] r[j],
                self.next_id,
            ) by {
                assert(s.contains(r[j]));
            }
        }
        self.records = kept;
    }
}

} // verus!
