//! A sliding window of slot leaders, refilled ahead of the current slot and
//! trimmed behind it.

use std::collections::VecDeque;
use vstd::prelude::*;

use crate::Slot;
use solana_sdk::pubkey::Pubkey;

verus! {

/// The leader of one slot.
#[derive(Clone, Copy, Debug)]
pub struct LeaderData {
    pub leader_slot: Slot,
    pub pubkey: Pubkey,
}

/// One batched request for leaders: `count` slots from `first_slot` on.
#[derive(Clone, Copy, Debug, PartialEq, Eq, Structural)]
pub struct LeaderFetch {
    pub first_slot: Slot,
    pub count: u64,
}

/// Why the leader schedule refuses a call.
#[derive(Clone, Copy, Debug, PartialEq, Eq, Structural)]
pub enum LeaderScheduleError {
    /// The range is empty or reversed, or longer than the schedule caches ahead.
    InvalidArguments,
    /// Upstream answered fewer leaders than were asked for.
    MissingLeaders,
    /// The fetched range does not continue the schedule.
    UnexpectedFetch,
}

/// The entries hold consecutive slots in ascending order.
pub open spec fn contiguous(schedule: Seq<LeaderData>) -> bool {
    forall|i: int|
        0 <= i < schedule.len() ==> (#[trigger] schedule[i]).leader_slot == schedule[0].leader_slot
            + i
}

/// The oldest slot kept by a refill at `slot`.
pub open spec fn oldest_kept(slot: Slot, old_slot_leader_cache_size: u64) -> int {
    if slot >= old_slot_leader_cache_size {
        slot - old_slot_leader_cache_size
    } else {
        0
    }
}

/// The schedule after entries are evicted from its front, for as long as the
/// front slot is older than the oldest slot kept.
pub open spec fn evicted(schedule: Seq<LeaderData>, oldest: int) -> Seq<LeaderData>
    decreases schedule.len(),
{
    if schedule.len() > 0 && schedule[0].leader_slot < oldest {
        evicted(schedule.drop_first(), oldest)
    } else {
        schedule
    }
}

/// The first slot that the schedule lacks, seen from `slot`.
pub open spec fn first_slot_to_fetch(schedule: Seq<LeaderData>, slot: Slot) -> int {
    if schedule.len() == 0 {
        slot as int
    } else {
        schedule.last().leader_slot + 1
    }
}

/// The slot up to which a refill at `slot` fills the schedule, itself left
/// out: `leaders_to_cache_count` slots on, or the last slot there is where
/// that comes first.
pub open spec fn last_slot_needed(slot: Slot, leaders_to_cache_count: u64) -> int {
    if slot + leaders_to_cache_count <= u64::MAX {
        slot + leaders_to_cache_count
    } else {
        u64::MAX as int
    }
}

/// The request that brings the schedule up to the last slot needed, or none
/// where nothing is missing.
pub open spec fn pending_fetch(
    schedule: Seq<LeaderData>,
    slot: Slot,
    leaders_to_cache_count: u64,
) -> Option<LeaderFetch> {
    let first = first_slot_to_fetch(schedule, slot);
    let last_slot_needed = last_slot_needed(slot, leaders_to_cache_count);
    if first < last_slot_needed {
        Some(LeaderFetch { first_slot: first as u64, count: (last_slot_needed - first) as u64 })
    } else {
        None
    }
}

/// The leaders that upstream answered, each with its slot.
pub open spec fn fetched(fetch: LeaderFetch, leaders: Seq<Pubkey>) -> Seq<LeaderData> {
    Seq::new(
        fetch.count as nat,
        |i: int| LeaderData { leader_slot: (fetch.first_slot + i) as u64, pubkey: leaders[i] },
    )
}

/// Whether a fetched range continues the schedule: it starts one past the
/// schedule's last slot, or anywhere where the schedule is empty.
pub open spec fn continues(schedule: Seq<LeaderData>, fetch: LeaderFetch) -> bool {
    &&& fetch.first_slot + fetch.count <= u64::MAX
    &&& schedule.len() > 0 ==> fetch.first_slot == schedule.last().leader_slot + 1
}

/// Whether the schedule holds every slot from `from` to `to`.
pub open spec fn covers(schedule: Seq<LeaderData>, from: Slot, to: Slot) -> bool {
    &&& schedule.len() > 0
    &&& schedule.first().leader_slot <= from
    &&& schedule.last().leader_slot >= to
}

/// The entries of the schedule for the slots from `from` to `to`, in order.
pub open spec fn leaders_between(schedule: Seq<LeaderData>, from: Slot, to: Slot) -> Seq<
    LeaderData,
> {
    schedule.filter(|leader: LeaderData| from <= leader.leader_slot <= to)
}

/// Whether a range may be asked for: it ends after it starts and spans at
/// most `leaders_to_cache_count` slots.
pub open spec fn valid_range(from: Slot, to: Slot, leaders_to_cache_count: u64) -> bool {
    from < to && to - from <= leaders_to_cache_count
}

/// The leader schedule cache.
pub struct JsonRpcLeaderGetter {
    leader_schedule: VecDeque<LeaderData>,
    leaders_to_cache_count: u64,
    old_slot_leader_cache_size: u64,
}

impl JsonRpcLeaderGetter {
    /// The cached entries, oldest first.
    pub closed spec fn view(&self) -> Seq<LeaderData> {
        self.leader_schedule@
    }

    /// How many slots ahead of the refill slot the schedule is filled.
    pub closed spec fn leaders_to_cache_count(&self) -> u64 {
        self.leaders_to_cache_count
    }

    /// How many slots behind the refill slot entries are kept.
    pub closed spec fn old_slot_leader_cache_size(&self) -> u64 {
        self.old_slot_leader_cache_size
    }

    /// The cached entries hold consecutive slots in ascending order.
    pub open spec fn wf(&self) -> bool {
        contiguous(self@)
    }

    /// Whether `other` has the same limits.
    pub open spec fn same_limits(&self, other: JsonRpcLeaderGetter) -> bool {
        &&& self.leaders_to_cache_count() == other.leaders_to_cache_count()
        &&& self.old_slot_leader_cache_size() == other.old_slot_leader_cache_size()
    }

    /// An empty schedule with the given limits.
    pub fn new(leaders_to_cache_count: u64, old_slot_leader_cache_size: u64) -> (getter:
        JsonRpcLeaderGetter)
        ensures
            getter.wf(),
            getter@ == Seq::<LeaderData>::empty(),
            getter.leaders_to_cache_count() == leaders_to_cache_count,
            getter.old_slot_leader_cache_size() == old_slot_leader_cache_size,
    {
        JsonRpcLeaderGetter {
            leader_schedule: VecDeque::new(),
            leaders_to_cache_count,
            old_slot_leader_cache_size,
        }
    }

    /// Begins a refill at `slot`: evicts from the front every entry older than
    /// `slot - old_slot_leader_cache_size`, and says which leaders to ask
    /// upstream for so that the schedule reaches `slot + leaders_to_cache_count`,
    /// or the end of the slot range where that comes first. Where the schedule
    /// already reaches that far, there is nothing to ask for.
    pub fn update_leader_schedule(&mut self, slot: Slot) -> (fetch: Option<LeaderFetch>)
        requires
            old(self).wf(),
        ensures
            final(self).wf(),
            final(self).same_limits(*old(self)),
            final(self)@ == evicted(
                old(self)@,
                oldest_kept(slot, old(self).old_slot_leader_cache_size()),
            ),
            fetch == pending_fetch(final(self)@, slot, old(self).leaders_to_cache_count()),
            fetch matches Some(f) ==> continues(final(self)@, f) && f.count > 0,
            forall|i: int|
                0 <= i < final(self)@.len() ==> (#[trigger] final(self)@[i]).leader_slot
                    >= oldest_kept(slot, old(self).old_slot_leader_cache_size()),
    {
        let oldest = slot.saturating_sub(self.old_slot_leader_cache_size);
        while self.leader_schedule.len() > 0 && self.leader_schedule[0].leader_slot < oldest
            invariant
                contiguous(self.leader_schedule@),
                self.same_limits(*old(self)),
                oldest == oldest_kept(slot, old(self).old_slot_leader_cache_size()),
                evicted(old(self)@, oldest as int) == evicted(self.leader_schedule@, oldest as int),
            decreases self.leader_schedule@.len(),
        {
            proof {
                lemma_contiguous_drop_first(self.leader_schedule@);
            }
            self.leader_schedule.pop_front();
        }
        proof {
            lemma_contiguous_ascending(self.leader_schedule@);
        }
        let last_slot_needed = slot.saturating_add(self.leaders_to_cache_count);
        let len = self.leader_schedule.len();
        let first = if len == 0 {
            slot
        } else {
            let back = self.leader_schedule[len - 1].leader_slot;
            if back >= last_slot_needed {
                return None;
            }
            back + 1
        };
        if first < last_slot_needed {
            Some(LeaderFetch { first_slot: first, count: last_slot_needed - first })
        } else {
            None
        }
    }

    /// Completes a refill: appends the leaders that upstream answered for
    /// `fetch`, each with its slot.
    ///
    /// Nothing is appended where the answer holds fewer leaders than asked
    /// for, or where the fetched range does not continue the schedule.
    pub fn add_fetched_leaders(&mut self, fetch: LeaderFetch, leaders: &Vec<Pubkey>) -> (result:
        Result<(), LeaderScheduleError>)
        requires
            old(self).wf(),
        ensures
            final(self).wf(),
            final(self).same_limits(*old(self)),
            match result {
                Ok(()) => {
                    &&& continues(old(self)@, fetch)
                    &&& leaders@.len() >= fetch.count
                    &&& final(self)@ == old(self)@ + fetched(fetch, leaders@)
                },
                Err(e) => {
                    &&& final(self)@ == old(self)@
                    &&& e == if continues(old(self)@, fetch) {
                        LeaderScheduleError::MissingLeaders
                    } else {
                        LeaderScheduleError::UnexpectedFetch
                    }
                    &&& !continues(old(self)@, fetch) || leaders@.len() < fetch.count
                },
            },
    {
        let len = self.leader_schedule.len();
        if fetch.first_slot > u64::MAX - fetch.count {
            return Err(LeaderScheduleError::UnexpectedFetch);
        }
        if len > 0 {
            let back = self.leader_schedule[len - 1].leader_slot;
            if back == u64::MAX || fetch.first_slot != back + 1 {
                return Err(LeaderScheduleError::UnexpectedFetch);
            }
        }
        if (leaders.len() as u64) < fetch.count {
            return Err(LeaderScheduleError::MissingLeaders);
        }
        let ghost news = fetched(fetch, leaders@);
        let count: usize = fetch.count as usize;
        let mut i: usize = 0;
        while i < count
            invariant
                i <= count == fetch.count <= leaders@.len(),
                fetch.first_slot + fetch.count <= u64::MAX,
                news == fetched(fetch, leaders@),
                self.same_limits(*old(self)),
                self.leader_schedule@ == old(self)@ + news.take(i as int),
            decreases count - i,
        {
            let leader = LeaderData {
                leader_slot: fetch.first_slot + i as u64,
                pubkey: leaders[i],
            };
            assert(leader == news[i as int]);
            self.leader_schedule.push_back(leader);
            assert(self.leader_schedule@ =~= old(self)@ + news.take(i + 1));
            i += 1;
        }
        proof {
            assert(news.take(i as int) =~= news);
            lemma_contiguous_extended(old(self)@, fetch, leaders@);
        }
        Ok(())
    }

    /// Says whether a lookup of the slots from `from` to `to` must be preceded
    /// by a refill at `from`: it must where the schedule does not hold all of
    /// them. A range that is empty or reversed, or longer than
    /// `leaders_to_cache_count`, is refused.
    pub fn needs_refill(&self, from: Slot, to: Slot) -> (result: Result<bool, LeaderScheduleError>)
        ensures
            match result {
                Ok(refill) => valid_range(from, to, self.leaders_to_cache_count()) && refill
                    == !covers(self@, from, to),
                Err(e) => !valid_range(from, to, self.leaders_to_cache_count()) && e
                    == LeaderScheduleError::InvalidArguments,
            },
    {
        if to <= from || to - from > self.leaders_to_cache_count {
            return Err(LeaderScheduleError::InvalidArguments);
        }
        let len = self.leader_schedule.len();
        Ok(
            len == 0 || self.leader_schedule[0].leader_slot > from || self.leader_schedule[len
                - 1].leader_slot < to,
        )
    }

    /// The cached leaders of the slots from `from` to `to`, in ascending slot
    /// order. A range that is empty or reversed, or longer than
    /// `leaders_to_cache_count`, is refused.
    pub fn get_slot_leaders(&self, from: Slot, to: Slot) -> (result: Result<
        Vec<LeaderData>,
        LeaderScheduleError,
    >)
        ensures
            match result {
                Ok(leaders) => valid_range(from, to, self.leaders_to_cache_count()) && leaders@
                    == leaders_between(self@, from, to),
                Err(e) => !valid_range(from, to, self.leaders_to_cache_count()) && e
                    == LeaderScheduleError::InvalidArguments,
            },
    {
        if to <= from || to - from > self.leaders_to_cache_count {
            return Err(LeaderScheduleError::InvalidArguments);
        }
        let mut found: Vec<LeaderData> = Vec::new();
        let mut i: usize = 0;
        proof {
            reveal(Seq::filter);
        }
        while i < self.leader_schedule.len()
            invariant
                i <= self.leader_schedule@.len(),
                found@ == leaders_between(self.leader_schedule@.take(i as int), from, to),
            decreases self.leader_schedule@.len() - i,
        {
            proof {
                reveal(Seq::filter);
                assert(self.leader_schedule@.take(i + 1).drop_last() =~= self.leader_schedule@.take(
                    i as int,
                ));
            }
            let leader = self.leader_schedule[i];
            if leader.leader_slot >= from && leader.leader_slot <= to {
                found.push(leader);
            }
            i += 1;
        }
        assert(self.leader_schedule@.take(i as int) =~= self.leader_schedule@);
        Ok(found)
    }
}

/// A contiguous schedule stays contiguous without its first entry.
proof fn lemma_contiguous_drop_first(schedule: Seq<LeaderData>)
    requires
        contiguous(schedule),
        schedule.len() > 0,
    ensures
        contiguous(schedule.drop_first()),
{
    let rest = schedule.drop_first();
    assert forall|i: int| 0 <= i < rest.len() implies (#[trigger] rest[i]).leader_slot
        == rest[0].leader_slot + i by {
        assert(rest[i] == schedule[i + 1]);
        assert(rest[0] == schedule[1]);
    }
}

/// In a contiguous schedule no entry is older than the first.
proof fn lemma_contiguous_ascending(schedule: Seq<LeaderData>)
    requires
        contiguous(schedule),
    ensures
        forall|i: int|
            0 <= i < schedule.len() ==> (#[trigger] schedule[i]).leader_slot
                >= schedule[0].leader_slot,
{
}

/// Appending a fetched range that continues a contiguous schedule leaves it
/// contiguous.
proof fn lemma_contiguous_extended(
    schedule: Seq<LeaderData>,
    fetch: LeaderFetch,
    leaders: Seq<Pubkey>,
)
    requires
        contiguous(schedule),
        continues(schedule, fetch),
    ensures
        contiguous(schedule + fetched(fetch, leaders)),
{
    let news = fetched(fetch, leaders);
    let all = schedule + news;
    assert forall|i: int| 0 <= i < all.len() implies (#[trigger] all[i]).leader_slot
        == all[0].leader_slot + i by {
        if schedule.len() > 0 {
            assert(all[0] == schedule[0]);
            assert(schedule.last() == schedule[schedule.len() - 1]);
        }
        if i < schedule.len() {
            assert(all[i] == schedule[i]);
        } else {
            assert(all[i] == news[i - schedule.len()]);
            if schedule.len() == 0 {
                assert(all[0] == news[0]);
            }
        }
    }
}

/// The schedule after a whole refill at `slot`: old entries evicted, and the
/// leaders that upstream answered for the pending request appended.
pub open spec fn refilled(
    schedule: Seq<LeaderData>,
    slot: Slot,
    leaders_to_cache_count: u64,
    old_slot_leader_cache_size: u64,
    leaders: Seq<Pubkey>,
) -> Seq<LeaderData> {
    let kept = evicted(schedule, oldest_kept(slot, old_slot_leader_cache_size));
    match pending_fetch(kept, slot, leaders_to_cache_count) {
        Some(fetch) => kept + fetched(fetch, leaders),
        None => kept,
    }
}

/// Evicting leaves a contiguous schedule contiguous, with no entry older than
/// the oldest slot kept; what is left is a tail of the schedule.
pub proof fn lemma_evicted(schedule: Seq<LeaderData>, oldest: int)
    requires
        contiguous(schedule),
    ensures
        contiguous(evicted(schedule, oldest)),
        forall|i: int|
            0 <= i < evicted(schedule, oldest).len() ==> (#[trigger] evicted(
                schedule,
                oldest,
            )[i]).leader_slot >= oldest,
        evicted(schedule, oldest).len() <= schedule.len(),
        evicted(schedule, oldest) == schedule.skip(
            schedule.len() - evicted(schedule, oldest).len(),
        ),
    decreases schedule.len(),
{
    if schedule.len() > 0 && schedule[0].leader_slot < oldest {
        lemma_contiguous_drop_first(schedule);
        lemma_evicted(schedule.drop_first(), oldest);
        let rest = schedule.drop_first();
        let kept = evicted(rest, oldest);
        assert(rest.skip(rest.len() - kept.len()) =~= schedule.skip(schedule.len() - kept.len()));
    } else {
        lemma_contiguous_ascending(schedule);
        assert(schedule.skip(0) =~= schedule);
    }
}

/// Every entry that is evicted is older than the oldest slot kept.
pub proof fn lemma_evicted_are_older(schedule: Seq<LeaderData>, oldest: int)
    ensures
        evicted(schedule, oldest).len() <= schedule.len(),
        forall|i: int|
            0 <= i < schedule.len() - evicted(schedule, oldest).len() ==> (
            #[trigger] schedule[i]).leader_slot < oldest,
    decreases schedule.len(),
{
    if schedule.len() > 0 && schedule[0].leader_slot < oldest {
        let rest = schedule.drop_first();
        lemma_evicted_are_older(rest, oldest);
        assert forall|i: int| 0 <= i < schedule.len() - evicted(schedule, oldest).len() implies (
        #[trigger] schedule[i]).leader_slot < oldest by {
            if i > 0 {
                assert(schedule[i] == rest[i - 1]);
            }
        }
    }
}

/// Evicting changes nothing where no entry is older than the oldest slot kept.
pub proof fn lemma_evicted_is_stable(schedule: Seq<LeaderData>, oldest: int)
    requires
        forall|i: int| 0 <= i < schedule.len() ==> (#[trigger] schedule[i]).leader_slot >= oldest,
    ensures
        evicted(schedule, oldest) == schedule,
{
}

/// After a refill at `slot` the schedule is contiguous, holds no entry older
/// than `slot - old_slot_leader_cache_size`, and reaches the slot before the
/// last slot needed where that lies beyond `slot`.
#[verifier::rlimit(50)]
pub proof fn lemma_refilled(
    schedule: Seq<LeaderData>,
    slot: Slot,
    leaders_to_cache_count: u64,
    old_slot_leader_cache_size: u64,
    leaders: Seq<Pubkey>,
)
    requires
        contiguous(schedule),
    ensures
        ({
            let after = refilled(
                schedule,
                slot,
                leaders_to_cache_count,
                old_slot_leader_cache_size,
                leaders,
            );
            &&& contiguous(after)
            &&& forall|i: int|
                0 <= i < after.len() ==> (#[trigger] after[i]).leader_slot >= oldest_kept(
                    slot,
                    old_slot_leader_cache_size,
                )
            &&& last_slot_needed(slot, leaders_to_cache_count) > slot ==> after.len() > 0
                && after.last().leader_slot >= last_slot_needed(slot, leaders_to_cache_count) - 1
        }),
{
    let oldest = oldest_kept(slot, old_slot_leader_cache_size);
    let kept = evicted(schedule, oldest);
    let last = last_slot_needed(slot, leaders_to_cache_count);
    let after = refilled(
        schedule,
        slot,
        leaders_to_cache_count,
        old_slot_leader_cache_size,
        leaders,
    );
    lemma_evicted(schedule, oldest);
    if kept.len() > 0 {
        assert(kept.last() == kept[kept.len() - 1]);
    }
    match pending_fetch(kept, slot, leaders_to_cache_count) {
        Some(fetch) => {
            let news = fetched(fetch, leaders);
            assert(after == kept + news);
            assert(fetch.first_slot == first_slot_to_fetch(kept, slot));
            assert(fetch.first_slot + fetch.count == last);
            assert(fetch.first_slot >= oldest);
            assert(contiguous(after)) by {
                lemma_contiguous_extended(kept, fetch, leaders);
            }
            assert forall|i: int| 0 <= i < after.len() implies (#[trigger] after[i]).leader_slot
                >= oldest by {
                if i < kept.len() {
                    assert(after[i] == kept[i]);
                } else {
                    assert(after[i] == news[i - kept.len()]);
                }
            }
            assert(after.last() == news[fetch.count - 1]);
            assert(after.last().leader_slot == last - 1);
        },
        None => {
            assert(after == kept);
            assert(first_slot_to_fetch(kept, slot) >= last);
        },
    }
}

/// A refill at a slot that was just refilled asks upstream for nothing and
/// leaves the schedule as it is.
#[verifier::rlimit(50)]
pub proof fn lemma_refill_is_idempotent(
    schedule: Seq<LeaderData>,
    slot: Slot,
    leaders_to_cache_count: u64,
    old_slot_leader_cache_size: u64,
    leaders: Seq<Pubkey>,
)
    requires
        contiguous(schedule),
    ensures
        ({
            let after = refilled(
                schedule,
                slot,
                leaders_to_cache_count,
                old_slot_leader_cache_size,
                leaders,
            );
            let oldest = oldest_kept(slot, old_slot_leader_cache_size);
            &&& evicted(after, oldest) == after
            &&& pending_fetch(evicted(after, oldest), slot, leaders_to_cache_count) is None
            &&& forall|again: Seq<Pubkey>|
                #[trigger] refilled(
                    after,
                    slot,
                    leaders_to_cache_count,
                    old_slot_leader_cache_size,
                    again,
                ) == after
        }),
{
    let oldest = oldest_kept(slot, old_slot_leader_cache_size);
    let kept = evicted(schedule, oldest);
    let after = refilled(
        schedule,
        slot,
        leaders_to_cache_count,
        old_slot_leader_cache_size,
        leaders,
    );
    lemma_refilled(schedule, slot, leaders_to_cache_count, old_slot_leader_cache_size, leaders);
    lemma_evicted_is_stable(after, oldest);
    lemma_evicted(schedule, oldest);
    match pending_fetch(kept, slot, leaders_to_cache_count) {
        Some(fetch) => {
            assert(after.last() == fetched(fetch, leaders)[fetch.count - 1]);
        },
        None => {},
    }
}

/// Where in a contiguous schedule the entries of the slots from `from` to
/// `to` begin.
pub open spec fn range_start(schedule: Seq<LeaderData>, from: Slot) -> int {
    if schedule.len() == 0 || from <= schedule[0].leader_slot {
        0
    } else if from - schedule[0].leader_slot <= schedule.len() {
        from - schedule[0].leader_slot
    } else {
        schedule.len() as int
    }
}

/// Where in a contiguous schedule the entries of the slots from `from` to
/// `to` end.
pub open spec fn range_end(schedule: Seq<LeaderData>, from: Slot, to: Slot) -> int {
    let start = range_start(schedule, from);
    if schedule.len() == 0 || to - schedule[0].leader_slot + 1 <= start {
        start
    } else if to - schedule[0].leader_slot + 1 <= schedule.len() {
        to - schedule[0].leader_slot + 1
    } else {
        schedule.len() as int
    }
}

/// A lookup in a contiguous schedule returns one stretch of it: the entries
/// of the slots from `from` to `to` that the schedule holds.
pub proof fn lemma_lookup_is_a_stretch(schedule: Seq<LeaderData>, from: Slot, to: Slot)
    requires
        contiguous(schedule),
    ensures
        0 <= range_start(schedule, from) <= range_end(schedule, from, to) <= schedule.len(),
        leaders_between(schedule, from, to) == schedule.subrange(
            range_start(schedule, from),
            range_end(schedule, from, to),
        ),
{
    lemma_lookup_of_prefix(schedule, from, to, schedule.len() as int);
    assert(schedule.take(schedule.len() as int) =~= schedule);
}

proof fn lemma_lookup_of_prefix(schedule: Seq<LeaderData>, from: Slot, to: Slot, n: int)
    requires
        contiguous(schedule),
        0 <= n <= schedule.len(),
    ensures
        ({
            let lo = range_start(schedule, from);
            let hi = range_end(schedule, from, to);
            &&& 0 <= lo <= hi <= schedule.len()
            &&& leaders_between(schedule.take(n), from, to) == schedule.subrange(
                if n <= lo { n } else { lo },
                if n <= hi { n } else { hi },
            )
        }),
    decreases n,
{
    reveal(Seq::filter);
    let lo = range_start(schedule, from);
    let hi = range_end(schedule, from, to);
    if n == 0 {
        assert(schedule.take(0) =~= schedule.subrange(0, 0));
    } else {
        lemma_lookup_of_prefix(schedule, from, to, n - 1);
        assert(schedule.take(n).drop_last() =~= schedule.take(n - 1));
        assert(schedule.take(n).last() == schedule[n - 1]);
        assert(schedule[n - 1].leader_slot == schedule[0].leader_slot + (n - 1));
        let before = schedule.subrange(
            if n - 1 <= lo { n - 1 } else { lo },
            if n - 1 <= hi { n - 1 } else { hi },
        );
        let after = schedule.subrange(if n <= lo { n } else { lo }, if n <= hi { n } else { hi });
        if from <= schedule[n - 1].leader_slot <= to {
            assert(lo <= n - 1 < hi);
            assert(before.push(schedule[n - 1]) =~= after);
        } else {
            assert(n - 1 < lo || hi <= n - 1);
            assert(before =~= after);
        }
    }
}

/// Of a contiguous schedule that holds every slot from `from` to `to`, the
/// lookup returns exactly the entries of those slots: one for each slot, in
/// ascending order, none twice.
pub proof fn lemma_lookup_of_covered_range(schedule: Seq<LeaderData>, from: Slot, to: Slot)
    requires
        contiguous(schedule),
        from <= to,
        covers(schedule, from, to),
    ensures
        leaders_between(schedule, from, to).len() == to - from + 1,
        forall|i: int|
            0 <= i <= to - from ==> {
                &&& (#[trigger] leaders_between(schedule, from, to)[i]).leader_slot == from + i
                &&& leaders_between(schedule, from, to)[i] == schedule[from
                    - schedule[0].leader_slot + i]
            },
{
    assert(schedule.last() == schedule[schedule.len() - 1]);
    lemma_lookup_is_a_stretch(schedule, from, to);
}

/// A lookup that returns an entry for each slot from `from` to `to` was made
/// of a schedule that holds all of them.
pub proof fn lemma_exact_lookup_is_covered(schedule: Seq<LeaderData>, from: Slot, to: Slot)
    requires
        contiguous(schedule),
        from <= to,
        leaders_between(schedule, from, to).len() == to - from + 1,
    ensures
        covers(schedule, from, to),
{
    lemma_lookup_is_a_stretch(schedule, from, to);
    if schedule.len() > 0 {
        assert(schedule.last() == schedule[schedule.len() - 1]);
    }
}

/// Whether a refill at `from` brings the whole range from `from` to `to`
/// into the schedule: the range ends before the last slot needed, and the
/// entries kept from before do not all lie beyond `from`.
pub open spec fn refill_reaches(
    schedule: Seq<LeaderData>,
    from: Slot,
    to: Slot,
    leaders_to_cache_count: u64,
    old_slot_leader_cache_size: u64,
) -> bool {
    let kept = evicted(schedule, oldest_kept(from, old_slot_leader_cache_size));
    to < last_slot_needed(from, leaders_to_cache_count) && (kept.len() == 0 || kept[0].leader_slot
        <= from)
}

/// After a refill at `from` that reaches the range, the schedule holds every
/// slot from `from` to `to`.
pub proof fn lemma_refill_covers(
    schedule: Seq<LeaderData>,
    from: Slot,
    to: Slot,
    leaders_to_cache_count: u64,
    old_slot_leader_cache_size: u64,
    leaders: Seq<Pubkey>,
)
    requires
        contiguous(schedule),
        from < to,
        refill_reaches(schedule, from, to, leaders_to_cache_count, old_slot_leader_cache_size),
    ensures
        covers(
            refilled(schedule, from, leaders_to_cache_count, old_slot_leader_cache_size, leaders),
            from,
            to,
        ),
{
    let oldest = oldest_kept(from, old_slot_leader_cache_size);
    let kept = evicted(schedule, oldest);
    let after = refilled(
        schedule,
        from,
        leaders_to_cache_count,
        old_slot_leader_cache_size,
        leaders,
    );
    lemma_refilled(schedule, from, leaders_to_cache_count, old_slot_leader_cache_size, leaders);
    match pending_fetch(kept, from, leaders_to_cache_count) {
        Some(fetch) => {
            if kept.len() > 0 {
                assert(after[0] == kept[0]);
            } else {
                assert(after[0] == fetched(fetch, leaders)[0]);
            }
        },
        None => {},
    }
}

/// What a lookup of the slots from `from` to `to` returns when a refill at
/// `from` precedes it wherever the schedule does not hold all of them.
pub open spec fn looked_up(
    schedule: Seq<LeaderData>,
    from: Slot,
    to: Slot,
    leaders_to_cache_count: u64,
    old_slot_leader_cache_size: u64,
    leaders: Seq<Pubkey>,
) -> Seq<LeaderData> {
    if covers(schedule, from, to) {
        leaders_between(schedule, from, to)
    } else {
        leaders_between(
            refilled(schedule, from, leaders_to_cache_count, old_slot_leader_cache_size, leaders),
            from,
            to,
        )
    }
}

/// Whether the schedule has an entry for `slot`.
pub open spec fn holds_slot(schedule: Seq<LeaderData>, slot: Slot) -> bool {
    schedule.len() > 0 && schedule.first().leader_slot <= slot <= schedule.last().leader_slot
}

/// The leader that such a lookup names for `slot`: the schedule's own entry
/// where it has one, else the one that upstream answered for that slot when
/// the schedule was refilled at `from`.
pub open spec fn leader_looked_up(
    schedule: Seq<LeaderData>,
    slot: Slot,
    from: Slot,
    old_slot_leader_cache_size: u64,
    leaders: Seq<Pubkey>,
) -> LeaderData {
    if holds_slot(schedule, slot) {
        schedule[slot - schedule.first().leader_slot]
    } else {
        let kept = evicted(schedule, oldest_kept(from, old_slot_leader_cache_size));
        LeaderData { leader_slot: slot, pubkey: leaders[slot - first_slot_to_fetch(kept, from)] }
    }
}

/// A lookup of a valid range returns exactly the leaders of its slots, one
/// for each slot in ascending order, whenever the schedule holds the range or
/// a refill brings it in. Each entry is the schedule's own for its slot, or
/// the one that upstream answered for it.
#[verifier::rlimit(50)]
pub proof fn lemma_lookup_is_exact(
    schedule: Seq<LeaderData>,
    from: Slot,
    to: Slot,
    leaders_to_cache_count: u64,
    old_slot_leader_cache_size: u64,
    leaders: Seq<Pubkey>,
)
    requires
        contiguous(schedule),
        valid_range(from, to, leaders_to_cache_count),
        covers(schedule, from, to) || refill_reaches(
            schedule,
            from,
            to,
            leaders_to_cache_count,
            old_slot_leader_cache_size,
        ),
    ensures
        ({
            let found = looked_up(
                schedule,
                from,
                to,
                leaders_to_cache_count,
                old_slot_leader_cache_size,
                leaders,
            );
            &&& found.len() == to - from + 1
            &&& forall|i: int|
                0 <= i <= to - from ==> {
                    &&& (#[trigger] found[i]).leader_slot == from + i
                    &&& found[i] == leader_looked_up(
                        schedule,
                        (from + i) as u64,
                        from,
                        old_slot_leader_cache_size,
                        leaders,
                    )
                }
        }),
{
    let found = looked_up(
        schedule,
        from,
        to,
        leaders_to_cache_count,
        old_slot_leader_cache_size,
        leaders,
    );
    if covers(schedule, from, to) {
        lemma_lookup_of_covered_range(schedule, from, to);
        assert forall|i: int| 0 <= i <= to - from implies (#[trigger] found[i]) == leader_looked_up(
            schedule,
            (from + i) as u64,
            from,
            old_slot_leader_cache_size,
            leaders,
        ) by {
            assert(holds_slot(schedule, (from + i) as u64));
        }
    } else {
        let oldest = oldest_kept(from, old_slot_leader_cache_size);
        let kept = evicted(schedule, oldest);
        let gone = schedule.len() - kept.len();
        let after = refilled(
            schedule,
            from,
            leaders_to_cache_count,
            old_slot_leader_cache_size,
            leaders,
        );
        lemma_evicted(schedule, oldest);
        lemma_evicted_are_older(schedule, oldest);
        lemma_refilled(schedule, from, leaders_to_cache_count, old_slot_leader_cache_size, leaders);
        lemma_refill_covers(
            schedule,
            from,
            to,
            leaders_to_cache_count,
            old_slot_leader_cache_size,
            leaders,
        );
        lemma_lookup_of_covered_range(after, from, to);
        assert forall|i: int| 0 <= i <= to - from implies (#[trigger] found[i]) == leader_looked_up(
            schedule,
            (from + i) as u64,
            from,
            old_slot_leader_cache_size,
            leaders,
        ) by {
            let slot = (from + i) as u64;
            let at = from - after[0].leader_slot + i;
            assert(found[i] == after[at]);
            assert(after[at].leader_slot == slot);
            if schedule.len() > 0 {
                assert(schedule.last() == schedule[schedule.len() - 1]);
            }
            if at < kept.len() {
                assert(after[at] == kept[at]);
                assert(kept[at] == schedule[at + gone]);
                assert(schedule[at + gone].leader_slot == schedule[0].leader_slot + at + gone);
                assert(holds_slot(schedule, slot));
            } else {
                if kept.len() > 0 {
                    assert(after[kept.len() - 1] == kept[kept.len() - 1]);
                    assert(kept[kept.len() - 1] == schedule[schedule.len() - 1]);
                } else if schedule.len() > 0 {
                    assert(schedule[schedule.len() - 1].leader_slot < oldest);
                }
                assert(!holds_slot(schedule, slot));
                let fetch = pending_fetch(kept, from, leaders_to_cache_count)->0;
                assert(after[at] == fetched(fetch, leaders)[at - kept.len()]);
            }
        }
    }
}

/// On every other valid range the lookup falls short: it returns fewer
/// entries than the range has slots.
#[verifier::rlimit(50)]
pub proof fn lemma_lookup_falls_short(
    schedule: Seq<LeaderData>,
    from: Slot,
    to: Slot,
    leaders_to_cache_count: u64,
    old_slot_leader_cache_size: u64,
    leaders: Seq<Pubkey>,
)
    requires
        contiguous(schedule),
        valid_range(from, to, leaders_to_cache_count),
        !covers(schedule, from, to),
        !refill_reaches(schedule, from, to, leaders_to_cache_count, old_slot_leader_cache_size),
    ensures
        looked_up(
            schedule,
            from,
            to,
            leaders_to_cache_count,
            old_slot_leader_cache_size,
            leaders,
        ).len() < to - from + 1,
{
    let oldest = oldest_kept(from, old_slot_leader_cache_size);
    let kept = evicted(schedule, oldest);
    let after = refilled(
        schedule,
        from,
        leaders_to_cache_count,
        old_slot_leader_cache_size,
        leaders,
    );
    lemma_evicted(schedule, oldest);
    lemma_refilled(schedule, from, leaders_to_cache_count, old_slot_leader_cache_size, leaders);
    lemma_lookup_is_a_stretch(after, from, to);
    if leaders_between(after, from, to).len() >= to - from + 1 {
        lemma_exact_lookup_is_covered(after, from, to);
        assert(after.last() == after[after.len() - 1]);
        if kept.len() > 0 {
            assert(kept.last() == kept[kept.len() - 1]);
            assert(schedule.last() == schedule[schedule.len() - 1]);
            assert(kept.last() == schedule.last());
            assert(after[0] == kept[0]);
        }
        match pending_fetch(kept, from, leaders_to_cache_count) {
            Some(fetch) => {
                let news = fetched(fetch, leaders);
                assert(after.last() == news[fetch.count - 1]);
                if kept.len() == 0 {
                    assert(after[0] == news[0]);
                }
            },
            None => {},
        }
        assert(false);
    }
}

} // verus!
