use vstd::prelude::*;

use crate::allocator::{after_allocation, allocation_outcome};
use crate::clock::{valid_instant, window_of};
use crate::error::AnonError;
use crate::ledger::{claimed_tags, latest_tag, window_count, Ledger, TagRecord, TAG_SPACE};

verus! {

/// How many times an owner may rotate within one window.
pub const MAX_RETAGS: usize = 3;

/// The tag a message is sent under: the owner's current tag, else a new one.
pub open spec fn send_outcome(s: Seq<TagRecord>, owner: Seq<char>, now: int, seed: int) -> Result<
    u32,
    AnonError,
> {
    match latest_tag(s, owner, window_of(now)) {
        Some(t) => Ok(t),
        None => allocation_outcome(s, now, seed),
    }
}

/// A rotation is allowed while the owner holds at most `MAX_RETAGS` records in the window.
pub open spec fn can_retag(s: Seq<TagRecord>, owner: Seq<char>, now: int) -> bool {
    window_count(s, owner, window_of(now)) <= MAX_RETAGS
}

/// What rotating the owner's tag returns: the previous and the new tag.
pub open spec fn rotate_outcome(s: Seq<TagRecord>, owner: Seq<char>, now: int, seed: int) -> Result<
    (u32, u32),
    AnonError,
> {
    match latest_tag(s, owner, window_of(now)) {
        None => Err(AnonError::NoTagToRotate),
        Some(prev) => if !can_retag(s, owner, now) {
            Err(AnonError::RetagLimit)
        } else {
            match allocation_outcome(s, now, seed) {
                Ok(t) => Ok((prev, t)),
                Err(e) => Err(e),
            }
        },
    }
}

impl Ledger {
    /// The tag for sending a message: the owner's current tag in the window of
    /// `now`, or else a tag claimed from `seed`.
    pub fn send_tag_with_seed(&mut self, owner: &String, now: i64, seed: u32) -> (r: Result<u32, AnonError>)
        requires
            old(self).wf(),
            old(self).next_id < u64::MAX,
            valid_instant(now),
            seed < TAG_SPACE,
        ensures
            final(self).wf(),
            r == send_outcome(old(self)@, owner@, now as int, seed as int),
            latest_tag(old(self)@, owner@, window_of(now as int)) is Some ==> *final(self) == *old(
                self,
            ),
            r is Err ==> *final(self) == *old(self),
            latest_tag(old(self)@, owner@, window_of(now as int)) is None ==> (r matches Ok(t)
                ==> final(self)@ == after_allocation(
                old(self)@,
                (TagRecord { id: old(self).next_id, owner: *owner, tag: t, created_at: now }),
            )),
    {
        match self.get_tag(owner, now) {
            Some(t) => Ok(t),
            None => self.generate_tag_with_seed(owner, now, seed),
        }
    }

    /// The tag for sending a message, claiming one from a drawn start when the
    /// owner holds none in the window of `now`.
    pub fn send_tag(&mut self, owner: &String, now: i64) -> (r: Result<u32, AnonError>)
        requires
            old(self).wf(),
            old(self).next_id < u64::MAX,
            valid_instant(now),
        ensures
            final(self).wf(),
            latest_tag(old(self)@, owner@, window_of(now as int)) matches Some(t) ==> r == Ok::<
                u32,
                AnonError,
            >(t) && *final(self) == *old(self),
            r is Err ==> r == Err::<u32, AnonError>(AnonError::Exhausted) && *final(self) == *old(
                self,
            ),
            latest_tag(old(self)@, owner@, window_of(now as int)) is None ==> (r matches Ok(t)
                ==> !claimed_tags(old(self)@, window_of(now as int)).contains(t as int)
                && final(self)@ == after_allocation(
                old(self)@,
                (TagRecord { id: old(self).next_id, owner: *owner, tag: t, created_at: now }),
            )),
            !claimed_tags(old(self)@, window_of(now as int)).contains(TAG_SPACE - 1) ==> r is Ok,
            r matches Ok(t) ==> t < TAG_SPACE,
    {
        match self.get_tag(owner, now) {
            Some(t) => Ok(t),
            None => self.generate_tag(owner, now),
        }
    }

    /// Rotates the owner's tag from `seed`: fails with `NoTagToRotate` when the
    /// owner holds no tag in the window of `now`, with `RetagLimit` when the
    /// owner has rotated `MAX_RETAGS` times already, and with `Exhausted` when
    /// no tag is free from `seed` on. Nothing changes on failure.
    pub fn rotate_tag_with_seed(&mut self, owner: &String, now: i64, seed: u32) -> (r: Result<
        (u32, u32),
        AnonError,
    >)
        requires
            old(self).wf(),
            old(self).next_id < u64::MAX,
            valid_instant(now),
            seed < TAG_SPACE,
        ensures
            final(self).wf(),
            r == rotate_outcome(old(self)@, owner@, now as int, seed as int),
            r is Err ==> *final(self) == *old(self),
            r matches Ok((prev, t)) ==> final(self)@ == after_allocation(
                old(self)@,
                (TagRecord { id: old(self).next_id, owner: *owner, tag: t, created_at: now }),
            ),
    {
        let prev = match self.get_tag(owner, now) {
            Some(t) => t,
            None => {
                return Err(AnonError::NoTagToRotate);
            },
        };
        if self.count_tags(owner, now) > MAX_RETAGS {
            return Err(AnonError::RetagLimit);
        }
        match self.generate_tag_with_seed(owner, now, seed) {
            Ok(t) => Ok((prev, t)),
            Err(e) => Err(e),
        }
    }

    /// Rotates the owner's tag, claiming the new one from a drawn start.
    pub fn rotate_tag(&mut self, owner: &String, now: i64) -> (r: Result<(u32, u32), AnonError>)
        requires
            old(self).wf(),
            old(self).next_id < u64::MAX,
            valid_instant(now),
        ensures
            final(self).wf(),
            r is Err ==> *final(self) == *old(self),
            latest_tag(old(self)@, owner@, window_of(now as int)) is None ==> r == Err::<
                (u32, u32),
                AnonError,
            >(AnonError::NoTagToRotate),
            latest_tag(old(self)@, owner@, window_of(now as int)) is Some && !can_retag(
                old(self)@,
                owner@,
                now as int,
            ) ==> r == Err::<(u32, u32), AnonError>(AnonError::RetagLimit),
            r matches Ok((prev, t)) ==> latest_tag(old(self)@, owner@, window_of(now as int))
                == Some(prev) && !claimed_tags(old(self)@, window_of(now as int)).contains(t as int)
                && final(self)@ == after_allocation(
                old(self)@,
                (TagRecord { id: old(self).next_id, owner: *owner, tag: t, created_at: now }),
            ),
            r matches Err(e) ==> e == AnonError::NoTagToRotate || e == AnonError::RetagLimit || e
                == AnonError::Exhausted,
            latest_tag(old(self)@, owner@, window_of(now as int)) is Some && can_retag(
                old(self)@,
                owner@,
                now as int,
            ) && !claimed_tags(old(self)@, window_of(now as int)).contains(TAG_SPACE - 1) ==> r is Ok,
            latest_tag(old(self)@, owner@, window_of(now as int)) is Some && can_retag(
                old(self)@,
                owner@,
                now as int,
            ) && r is Err ==> r == Err::<(u32, u32), AnonError>(AnonError::Exhausted),
            r matches Ok((prev, t)) ==> prev < TAG_SPACE && t < TAG_SPACE,
    {
        let prev = match self.get_tag(owner, now) {
            Some(t) => t,
            None => {
                return Err(AnonError::NoTagToRotate);
            },
        };
        if self.count_tags(owner, now) > MAX_RETAGS {
            return Err(AnonError::RetagLimit);
        }
        match self.generate_tag(owner, now) {
            Ok(t) => Ok((prev, t)),
            Err(e) => Err(e),
        }
    }
}

} // verus!
