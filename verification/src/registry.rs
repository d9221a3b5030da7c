//! The challenge registry and command dispatcher.
//!
//! The registry owns the dense, append-only challenge list and three
//! account-to-ids indexes (created, joined, sponsored) used for querying.
//! Indexes are association lists unique by account; their mathematical
//! content is the [`index_ids`] spec function, which yields the empty
//! sequence for an absent account.

use vstd::prelude::*;

use crate::challenge::complete_daily_error;
use crate::challenge::complete_daily_step;
use crate::challenge::created_challenge;
use crate::challenge::creation_error;
use crate::challenge::day_index_of;
use crate::challenge::execution_error;
use crate::challenge::execution_step;
use crate::challenge::join_error;
use crate::challenge::join_step;
use crate::challenge::lemma_sponsor_total_nonneg;
use crate::challenge::participant_total;
use crate::challenge::payouts_of;
use crate::challenge::recruitment_error;
use crate::challenge::recruitment_step;
use crate::challenge::sponsor_error;
use crate::challenge::sponsor_step;
use crate::challenge::succeeded_in;
use crate::types::ActorId;
use crate::types::Challenge;
use crate::types::ChallengeStatus;
use crate::types::ChallengeView;
use crate::types::Error;
use crate::types::Event;
use crate::types::ChallengeFilter;
use crate::types::Command;
use crate::types::Payout;
use crate::types::StateQuery;
use crate::types::StateReply;

verus! {

/// The challenge ids recorded for one account in one index.
#[derive(Debug)]
pub struct IndexEntry {
    /// The account the ids belong to.
    pub account: ActorId,
    /// Challenge ids in recording order.
    pub ids: Vec<u64>,
}

/// The ids an index records for `account`: those of its first entry for the
/// account, or the empty sequence when it has none.
pub open spec fn index_ids(entries: Seq<IndexEntry>, account: ActorId) -> Seq<u64>
    decreases entries.len(),
{
    if entries.len() == 0 {
        Seq::empty()
    } else if entries[0].account == account {
        entries[0].ids@
    } else {
        index_ids(entries.drop_first(), account)
    }
}

/// No two entries belong to the same account.
pub open spec fn index_accounts_unique(entries: Seq<IndexEntry>) -> bool {
    forall|i: int, j: int|
        0 <= i < j < entries.len() ==> entries[i].account != entries[j].account
}

/// Every recorded id is below `n`.
pub open spec fn index_ids_bounded(entries: Seq<IndexEntry>, n: int) -> bool {
    forall|i: int, k: int|
        0 <= i < entries.len() && 0 <= k < entries[i].ids@.len() ==> #[trigger] entries[i].ids@[k]
            < n
}

/// A search that stopped on the first entry for `account` found the
/// recorded ids.
proof fn lemma_index_ids_found(entries: Seq<IndexEntry>, account: ActorId, i: int)
    requires
        0 <= i < entries.len(),
        entries[i].account == account,
        forall|j: int| 0 <= j < i ==> entries[j].account != account,
    ensures
        index_ids(entries, account) == entries[i].ids@,
    decreases i,
{
    if i > 0 {
        assert(forall|j: int|
            0 <= j < entries.drop_first().len() ==> entries.drop_first()[j] == entries[j + 1]);
        lemma_index_ids_found(entries.drop_first(), account, i - 1);
    }
}

/// An index without an entry for `account` records nothing for it.
proof fn lemma_index_ids_missing(entries: Seq<IndexEntry>, account: ActorId)
    requires
        forall|j: int| 0 <= j < entries.len() ==> entries[j].account != account,
    ensures
        index_ids(entries, account) == Seq::<u64>::empty(),
    decreases entries.len(),
{
    if entries.len() > 0 {
        assert(forall|j: int|
            0 <= j < entries.drop_first().len() ==> entries.drop_first()[j] == entries[j + 1]);
        lemma_index_ids_missing(entries.drop_first(), account);
    }
}

/// Replacing the first entry for an account, keeping its account, rewrites
/// exactly that account's ids.
proof fn lemma_index_ids_update(entries: Seq<IndexEntry>, i: int, e: IndexEntry)
    requires
        0 <= i < entries.len(),
        e.account == entries[i].account,
        forall|j: int| 0 <= j < i ==> entries[j].account != e.account,
    ensures
        forall|a: ActorId| #![auto]
            index_ids(entries.update(i, e), a) == if a == e.account {
                e.ids@
            } else {
                index_ids(entries, a)
            },
    decreases i,
{
    let updated = entries.update(i, e);
    if i == 0 {
        assert(updated.drop_first() =~= entries.drop_first());
    } else {
        assert(updated.drop_first() =~= entries.drop_first().update(i - 1, e));
        assert(forall|j: int|
            0 <= j < entries.drop_first().len() ==> entries.drop_first()[j] == entries[j + 1]);
        lemma_index_ids_update(entries.drop_first(), i - 1, e);
    }
    assert forall|a: ActorId| #![auto]
        index_ids(updated, a) == if a == e.account {
            e.ids@
        } else {
            index_ids(entries, a)
        } by {
        if i == 0 {
            if a != e.account {
                assert(index_ids(updated, a) == index_ids(updated.drop_first(), a));
                assert(index_ids(entries, a) == index_ids(entries.drop_first(), a));
            }
        } else {
            if entries[0].account != a {
                assert(index_ids(updated, a) == index_ids(updated.drop_first(), a));
                assert(index_ids(entries, a) == index_ids(entries.drop_first(), a));
            }
        }
    }
}

/// Appending an entry for a fresh account records its ids and leaves every
/// other account's ids alone.
proof fn lemma_index_ids_push(entries: Seq<IndexEntry>, e: IndexEntry)
    requires
        forall|j: int| 0 <= j < entries.len() ==> entries[j].account != e.account,
    ensures
        forall|a: ActorId| #![auto]
            index_ids(entries.push(e), a) == if a == e.account {
                e.ids@
            } else {
                index_ids(entries, a)
            },
    decreases entries.len(),
{
    let pushed = entries.push(e);
    if entries.len() == 0 {
        assert(pushed.drop_first() =~= Seq::<IndexEntry>::empty());
    } else {
        assert(pushed.drop_first() =~= entries.drop_first().push(e));
        assert(forall|j: int|
            0 <= j < entries.drop_first().len() ==> entries.drop_first()[j] == entries[j + 1]);
        lemma_index_ids_push(entries.drop_first(), e);
    }
    assert forall|a: ActorId| #![auto]
        index_ids(pushed, a) == if a == e.account {
            e.ids@
        } else {
            index_ids(entries, a)
        } by {
        if entries.len() == 0 {
            if a != e.account {
                assert(index_ids(pushed, a) == index_ids(pushed.drop_first(), a));
            }
        } else {
            if entries[0].account != a {
                assert(index_ids(pushed, a) == index_ids(pushed.drop_first(), a));
                assert(index_ids(entries, a) == index_ids(entries.drop_first(), a));
            }
        }
    }
}

/// Appends `id` to the ids recorded for `account`, creating the entry if
/// the account has none yet.
fn index_append(entries: &mut Vec<IndexEntry>, account: ActorId, id: u64)
    requires
        index_accounts_unique(old(entries)@),
    ensures
        index_ids(final(entries)@, account) == index_ids(old(entries)@, account).push(id),
        forall|a: ActorId| #![auto]
            a != account ==> index_ids(final(entries)@, a) == index_ids(old(entries)@, a),
        index_accounts_unique(final(entries)@),
        forall|n: int|
            #![trigger index_ids_bounded(final(entries)@, n)]
            index_ids_bounded(old(entries)@, n) && id < n ==> index_ids_bounded(
                final(entries)@,
                n,
            ),
{
    let ghost pre = entries@;
    let mut i: usize = 0;
    while i < entries.len()
        invariant
            entries@ == pre,
            i <= pre.len(),
            forall|j: int| 0 <= j < i ==> pre[j].account != account,
        ensures
            entries@ == pre,
            i <= pre.len(),
            forall|j: int| 0 <= j < i ==> pre[j].account != account,
            i < pre.len() ==> pre[i as int].account == account,
        decreases pre.len() - i,
    {
        if entries[i].account == account {
            break ;
        }
        i = i + 1;
    }
    if i == entries.len() {
        let mut ids: Vec<u64> = Vec::new();
        ids.push(id);
        let entry = IndexEntry { account, ids };
        entries.push(entry);
        proof {
            let e = entries@.last();
            assert(entries@ =~= pre.push(e));
            lemma_index_ids_missing(pre, account);
            lemma_index_ids_push(pre, e);
            assert(e.ids@ =~= index_ids(pre, account).push(id));
        }
    } else {
        let entry = &mut entries[i];
        entry.ids.push(id);
        proof {
            let e = entries@[i as int];
            assert(entries@ =~= pre.update(i as int, e));
            assert(e.ids@ =~= pre[i as int].ids@.push(id));
            lemma_index_ids_found(pre, account, i as int);
            lemma_index_ids_update(pre, i as int, e);
        }
    }
}

/// Returns a copy of the ids recorded for `account`, empty when it has
/// none.
fn index_lookup(entries: &Vec<IndexEntry>, account: ActorId) -> (ids: Vec<u64>)
    ensures
        ids@ == index_ids(entries@, account),
{
    let mut i: usize = 0;
    while i < entries.len()
        invariant
            i <= entries@.len(),
            forall|j: int| 0 <= j < i ==> entries@[j].account != account,
        ensures
            i <= entries@.len(),
            forall|j: int| 0 <= j < i ==> entries@[j].account != account,
            i < entries@.len() ==> entries@[i as int].account == account,
        decreases entries@.len() - i,
    {
        if entries[i].account == account {
            break ;
        }
        i = i + 1;
    }
    if i == entries.len() {
        proof {
            lemma_index_ids_missing(entries@, account);
        }
        Vec::new()
    } else {
        proof {
            lemma_index_ids_found(entries@, account, i as int);
        }
        let source = &entries[i].ids;
        let mut out: Vec<u64> = Vec::new();
        let mut k: usize = 0;
        while k < source.len()
            invariant
                k <= source@.len(),
                out@ == source@.subrange(0, k as int),
            decreases source@.len() - k,
        {
            out.push(source[k]);
            proof {
                assert(out@ =~= source@.subrange(0, k + 1 as int));
            }
            k = k + 1;
        }
        proof {
            assert(out@ =~= source@);
        }
        out
    }
}

/// Views of a challenge list, elementwise.
pub open spec fn views_of(challenges: Seq<Challenge>) -> Seq<ChallengeView> {
    challenges.map_values(|c: Challenge| c@)
}

/// Whether a challenge of the given status is included under the four
/// inclusion flags of a query.
pub open spec fn status_included(
    status: ChallengeStatus,
    include_recruiting: bool,
    include_recruit_failed: bool,
    include_executing: bool,
    include_completed: bool,
) -> bool {
    match status {
        ChallengeStatus::Recruiting => include_recruiting,
        ChallengeStatus::RecruitFailed => include_recruit_failed,
        ChallengeStatus::Executing => include_executing,
        ChallengeStatus::Completed => include_completed,
    }
}

/// The page of `ids` selected by `offset` and `count`: skip, then take; an
/// out-of-range offset yields the empty page.
pub open spec fn paginate(ids: Seq<u64>, offset: int, count: int) -> Seq<u64> {
    let start = if offset > ids.len() {
        ids.len() as int
    } else {
        offset
    };
    let end = if offset + count > ids.len() {
        ids.len() as int
    } else {
        offset + count
    };
    ids.subrange(start, end)
}

/// Ids recorded for an account never leave the bound of the whole index.
proof fn lemma_index_ids_bound(entries: Seq<IndexEntry>, account: ActorId, n: int)
    requires
        index_ids_bounded(entries, n),
    ensures
        forall|k: int|
            0 <= k < index_ids(entries, account).len() ==> #[trigger] index_ids(entries, account)[k]
                < n,
    decreases entries.len(),
{
    if entries.len() > 0 {
        if entries[0].account != account {
            assert(forall|j: int|
                0 <= j < entries.drop_first().len() ==> entries.drop_first()[j] == entries[j + 1]);
            assert(index_ids_bounded(entries.drop_first(), n));
            lemma_index_ids_bound(entries.drop_first(), account, n);
        }
    }
    assert forall|k: int|
        0 <= k < index_ids(entries, account).len() implies #[trigger] index_ids(entries, account)[k]
        < n by {
        if entries.len() > 0 && entries[0].account == account {
            assert(index_ids(entries, account) == entries[0].ids@);
            assert(entries[0].ids@[k] < n);
        } else if entries.len() > 0 {
            assert(index_ids(entries, account) == index_ids(entries.drop_first(), account));
            assert(index_ids(entries.drop_first(), account)[k] < n);
        }
    }
}

/// The registry: the dense, append-only challenge list and the three
/// account indexes, appended to exactly when the matching challenge
/// operation succeeds.
#[derive(Debug)]
pub struct ChronoQuest {
    /// Every challenge ever created; a challenge's id is its position.
    pub challenges: Vec<Challenge>,
    /// Ids of the challenges each account created.
    pub created_map: Vec<IndexEntry>,
    /// Ids of the challenges each account joined.
    pub joined_map: Vec<IndexEntry>,
    /// Ids of the challenges each account sponsored, one per sponsorship.
    pub sponsored_map: Vec<IndexEntry>,
}

impl ChronoQuest {
    /// Views of the stored challenges, in id order.
    pub open spec fn challenge_views(self) -> Seq<ChallengeView> {
        views_of(self.challenges@)
    }

    /// Well-formedness: ids are dense, every challenge is well formed, and
    /// the indexes are unique by account and point inside the list.
    pub open spec fn wf(self) -> bool {
        &&& forall|i: int|
            0 <= i < self.challenge_views().len() ==> (#[trigger] self.challenge_views()[i]).id
                == i
        &&& forall|i: int|
            0 <= i < self.challenge_views().len() ==> (#[trigger] self.challenge_views()[i]).wf()
        &&& index_accounts_unique(self.created_map@)
        &&& index_accounts_unique(self.joined_map@)
        &&& index_accounts_unique(self.sponsored_map@)
        &&& index_ids_bounded(self.created_map@, self.challenges@.len() as int)
        &&& index_ids_bounded(self.joined_map@, self.challenges@.len() as int)
        &&& index_ids_bounded(self.sponsored_map@, self.challenges@.len() as int)
    }

    /// An empty registry.
    pub fn new() -> (registry: ChronoQuest)
        ensures
            registry.wf(),
            registry.challenges@.len() == 0,
            registry.created_map@.len() == 0,
            registry.joined_map@.len() == 0,
            registry.sponsored_map@.len() == 0,
    {
        ChronoQuest {
            challenges: Vec::new(),
            created_map: Vec::new(),
            joined_map: Vec::new(),
            sponsored_map: Vec::new(),
        }
    }

    /// Creates a challenge under the next dense id and records the creator.
    /// On any failure nothing is appended.
    pub fn create_challenge(
        &mut self,
        name: String,
        entry_fee: u128,
        timezone: i8,
        start_time: u64,
        end_time: u64,
        creator: ActorId,
        now: u64,
        recruitment_scheduled: bool,
    ) -> (outcome: Result<Event, Error>)
        requires
            old(self).wf(),
            start_time + 43200 <= i64::MAX,
            end_time + 43200 <= i64::MAX,
        ensures
            final(self).wf(),
            outcome is Ok <==> (creation_error(timezone, start_time, end_time, now) is None
                && recruitment_scheduled),
            outcome matches Ok(ev) ==> ev == (Event::ChallengeCreated {
                id: old(self).challenges@.len() as u64,
            }),
            outcome is Ok ==> final(self).challenge_views() == old(self).challenge_views().push(
                created_challenge(
                    old(self).challenges@.len() as u64,
                    name@,
                    entry_fee,
                    timezone,
                    start_time,
                    end_time,
                    creator,
                    now,
                ),
            ),
            outcome is Ok ==> index_ids(final(self).created_map@, creator) == index_ids(
                old(self).created_map@,
                creator,
            ).push(old(self).challenges@.len() as u64),
            outcome is Ok ==> forall|a: ActorId| #![auto]
                a != creator ==> index_ids(final(self).created_map@, a) == index_ids(
                    old(self).created_map@,
                    a,
                ),
            outcome is Err ==> final(self).challenges@ == old(self).challenges@,
            outcome is Err ==> final(self).created_map@ == old(self).created_map@,
            outcome matches Err(e) ==> match creation_error(timezone, start_time, end_time, now) {
                Some(err) => e == err,
                None => e == (Error::FailedToScheduleRecruitmentEnd {
                    id: old(self).challenges@.len() as u64,
                }),
            },
            final(self).joined_map@ == old(self).joined_map@,
            final(self).sponsored_map@ == old(self).sponsored_map@,
    {
        let id = self.challenges.len() as u64;
        let challenge = match Challenge::new(
            id,
            name,
            entry_fee,
            timezone,
            start_time,
            end_time,
            creator,
            now,
            recruitment_scheduled,
        ) {
            Ok(c) => c,
            Err(e) => {
                return Err(e);
            },
        };
        let ghost pre = *self;
        self.challenges.push(challenge);
        proof {
            assert(self.challenge_views() =~= pre.challenge_views().push(
                created_challenge(
                    id,
                    name@,
                    entry_fee,
                    timezone,
                    start_time,
                    end_time,
                    creator,
                    now,
                ),
            ));
        }
        index_append(&mut self.created_map, creator, id);
        proof {
            assert forall|i: int|
                0 <= i < self.challenge_views().len() implies (
            #[trigger] self.challenge_views()[i]).id == i && self.challenge_views()[i].wf() by {
                if i < pre.challenge_views().len() {
                    assert(self.challenge_views()[i] == pre.challenge_views()[i]);
                }
            }
        }
        Ok(Event::ChallengeCreated { id })
    }

    /// Joins `caller` to the challenge `id` with attached value `amount`,
    /// recording the id for the caller on success.
    pub fn join_challenge(&mut self, id: u64, caller: ActorId, amount: u128) -> (outcome: Result<
        Event,
        Error,
    >)
        requires
            old(self).wf(),
            id < old(self).challenges@.len(),
            join_error(old(self).challenge_views()[id as int], caller, amount) is None ==> old(
                self,
            ).challenge_views()[id as int].prize_pool + amount <= u128::MAX,
        ensures
            final(self).wf(),
            final(self).challenge_views() == old(self).challenge_views().update(
                id as int,
                join_step(old(self).challenge_views()[id as int], caller, amount),
            ),
            outcome is Ok <==> join_error(old(self).challenge_views()[id as int], caller, amount)
                is None,
            outcome matches Ok(ev) ==> ev == (Event::ChallengeJoined { id }),
            outcome matches Err(e) ==> Some(e) == join_error(
                old(self).challenge_views()[id as int],
                caller,
                amount,
            ),
            outcome is Ok ==> index_ids(final(self).joined_map@, caller) == index_ids(
                old(self).joined_map@,
                caller,
            ).push(id),
            outcome is Ok ==> forall|a: ActorId| #![auto]
                a != caller ==> index_ids(final(self).joined_map@, a) == index_ids(
                    old(self).joined_map@,
                    a,
                ),
            outcome is Err ==> final(self).joined_map@ == old(self).joined_map@,
            final(self).created_map@ == old(self).created_map@,
            final(self).sponsored_map@ == old(self).sponsored_map@,
    {
        let ghost pre = *self;
        let n: usize = self.challenges.len();
        let idx: usize = id as usize;
        proof {
            assert(id < n);
            assert(idx as int == id as int);
        }
        let challenge = &mut self.challenges[idx];
        let joined = challenge.join(caller, amount);
        proof {
            assert(self.challenge_views() =~= pre.challenge_views().update(
                id as int,
                join_step(pre.challenge_views()[id as int], caller, amount),
            ));
            assert forall|i: int|
                0 <= i < self.challenge_views().len() implies (
            #[trigger] self.challenge_views()[i]).id == i && self.challenge_views()[i].wf() by {
                if i != id as int {
                    assert(self.challenge_views()[i] == pre.challenge_views()[i]);
                }
            }
        }
        match joined {
            Ok(_) => {
                index_append(&mut self.joined_map, caller, id);
                Ok(Event::ChallengeJoined { id })
            },
            Err(e) => Err(e),
        }
    }

    /// Records a sponsorship of the challenge `id` by `caller` over
    /// `amount`, recording the id for the caller on success.
    pub fn sponsor_challenge(&mut self, id: u64, caller: ActorId, amount: u128) -> (outcome:
        Result<Event, Error>)
        requires
            old(self).wf(),
            id < old(self).challenges@.len(),
            sponsor_error(old(self).challenge_views()[id as int], caller, amount) is None ==> old(
                self,
            ).challenge_views()[id as int].prize_pool + amount <= u128::MAX,
        ensures
            final(self).wf(),
            final(self).challenge_views() == old(self).challenge_views().update(
                id as int,
                sponsor_step(old(self).challenge_views()[id as int], caller, amount),
            ),
            outcome is Ok <==> sponsor_error(
                old(self).challenge_views()[id as int],
                caller,
                amount,
            ) is None,
            outcome matches Ok(ev) ==> ev == (Event::ChallengeSponsored { id }),
            outcome matches Err(e) ==> Some(e) == sponsor_error(
                old(self).challenge_views()[id as int],
                caller,
                amount,
            ),
            outcome is Ok ==> index_ids(final(self).sponsored_map@, caller) == index_ids(
                old(self).sponsored_map@,
                caller,
            ).push(id),
            outcome is Ok ==> forall|a: ActorId| #![auto]
                a != caller ==> index_ids(final(self).sponsored_map@, a) == index_ids(
                    old(self).sponsored_map@,
                    a,
                ),
            outcome is Err ==> final(self).sponsored_map@ == old(self).sponsored_map@,
            final(self).created_map@ == old(self).created_map@,
            final(self).joined_map@ == old(self).joined_map@,
    {
        let ghost pre = *self;
        let n: usize = self.challenges.len();
        let idx: usize = id as usize;
        proof {
            assert(id < n);
            assert(idx as int == id as int);
        }
        let challenge = &mut self.challenges[idx];
        let sponsored = challenge.sponsor(caller, amount);
        proof {
            assert(self.challenge_views() =~= pre.challenge_views().update(
                id as int,
                sponsor_step(pre.challenge_views()[id as int], caller, amount),
            ));
            assert forall|i: int|
                0 <= i < self.challenge_views().len() implies (
            #[trigger] self.challenge_views()[i]).id == i && self.challenge_views()[i].wf() by {
                if i != id as int {
                    assert(self.challenge_views()[i] == pre.challenge_views()[i]);
                }
            }
        }
        match sponsored {
            Ok(_) => {
                index_append(&mut self.sponsored_map, caller, id);
                Ok(Event::ChallengeSponsored { id })
            },
            Err(e) => Err(e),
        }
    }

    /// Delivers the scheduled recruitment-end command to the challenge `id`.
    /// `sender` must be the program's own address.
    pub fn recruitment_ended(
        &mut self,
        id: u64,
        sender: ActorId,
        program_id: ActorId,
        execution_scheduled: bool,
    ) -> (outcome: Result<Event, Error>)
        requires
            old(self).wf(),
            id < old(self).challenges@.len(),
        ensures
            final(self).wf(),
            final(self).challenge_views() == old(self).challenge_views().update(
                id as int,
                recruitment_step(
                    old(self).challenge_views()[id as int],
                    sender,
                    program_id,
                    execution_scheduled,
                ),
            ),
            outcome is Ok <==> recruitment_error(
                old(self).challenge_views()[id as int],
                sender,
                program_id,
                execution_scheduled,
            ) is None,
            outcome matches Ok(ev) ==> ev == (Event::ChallengeRecruitmentEnded {
                id,
                status: recruitment_step(
                    old(self).challenge_views()[id as int],
                    sender,
                    program_id,
                    execution_scheduled,
                ).status,
            }),
            outcome matches Err(e) ==> Some(e) == recruitment_error(
                old(self).challenge_views()[id as int],
                sender,
                program_id,
                execution_scheduled,
            ),
            final(self).created_map@ == old(self).created_map@,
            final(self).joined_map@ == old(self).joined_map@,
            final(self).sponsored_map@ == old(self).sponsored_map@,
    {
        let ghost pre = *self;
        let n: usize = self.challenges.len();
        let idx: usize = id as usize;
        proof {
            assert(id < n);
            assert(idx as int == id as int);
        }
        let challenge = &mut self.challenges[idx];
        let ended = challenge.recruitment_ended(sender, program_id, execution_scheduled);
        proof {
            assert(self.challenge_views() =~= pre.challenge_views().update(
                id as int,
                recruitment_step(
                    pre.challenge_views()[id as int],
                    sender,
                    program_id,
                    execution_scheduled,
                ),
            ));
            assert forall|i: int|
                0 <= i < self.challenge_views().len() implies (
            #[trigger] self.challenge_views()[i]).id == i && self.challenge_views()[i].wf() by {
                if i != id as int {
                    assert(self.challenge_views()[i] == pre.challenge_views()[i]);
                }
            }
        }
        match ended {
            Ok(_) => {
                let status = self.challenges[idx].status;
                Ok(Event::ChallengeRecruitmentEnded { id, status })
            },
            Err(e) => Err(e),
        }
    }

    /// Delivers the scheduled execution-end command to the challenge `id`.
    /// `sender` must be the program's own address. On success the returned
    /// payouts are the transfers the host must execute, in join order.
    pub fn excution_ended(&mut self, id: u64, sender: ActorId, program_id: ActorId) -> (outcome:
        Result<(Event, Vec<Payout>), Error>)
        requires
            old(self).wf(),
            id < old(self).challenges@.len(),
            execution_error(old(self).challenge_views()[id as int], sender, program_id) is None
                ==> forall|i: int|
                0 <= i < old(self).challenge_views()[id as int].participants.len() && succeeded_in(
                    old(self).challenge_views()[id as int],
                    old(self).challenge_views()[id as int].participants[i],
                ) ==> old(self).challenge_views()[id as int].prize_pool * old(
                    self,
                ).challenge_views()[id as int].participants[i].payment <= u128::MAX,
        ensures
            final(self).wf(),
            final(self).challenge_views() == old(self).challenge_views().update(
                id as int,
                execution_step(old(self).challenge_views()[id as int], sender, program_id),
            ),
            outcome is Ok <==> execution_error(
                old(self).challenge_views()[id as int],
                sender,
                program_id,
            ) is None,
            outcome matches Ok((ev, payouts)) ==> ev == (Event::ChallengeExecutionEnded { id })
                && payouts@ == payouts_of(old(self).challenge_views()[id as int]),
            outcome matches Err(e) ==> Some(e) == execution_error(
                old(self).challenge_views()[id as int],
                sender,
                program_id,
            ),
            final(self).created_map@ == old(self).created_map@,
            final(self).joined_map@ == old(self).joined_map@,
            final(self).sponsored_map@ == old(self).sponsored_map@,
    {
        let ghost pre = *self;
        let n: usize = self.challenges.len();
        let idx: usize = id as usize;
        proof {
            assert(id < n);
            assert(idx as int == id as int);
            let view = pre.challenge_views()[id as int];
            if execution_error(view, sender, program_id) is None {
                assert(view.wf());
                lemma_sponsor_total_nonneg(view.sponsors);
                assert(participant_total(view.participants) <= u128::MAX);
            }
        }
        let challenge = &mut self.challenges[idx];
        let ended = challenge.execution_ended(sender, program_id);
        proof {
            assert(self.challenge_views() =~= pre.challenge_views().update(
                id as int,
                execution_step(pre.challenge_views()[id as int], sender, program_id),
            ));
            assert forall|i: int|
                0 <= i < self.challenge_views().len() implies (
            #[trigger] self.challenge_views()[i]).id == i && self.challenge_views()[i].wf() by {
                if i != id as int {
                    assert(self.challenge_views()[i] == pre.challenge_views()[i]);
                }
            }
        }
        match ended {
            Ok(payouts) => Ok((Event::ChallengeExecutionEnded { id }, payouts)),
            Err(e) => Err(e),
        }
    }

    /// Records the current day as completed for `caller` in the challenge
    /// `id`.
    pub fn complete_daily(&mut self, id: u64, caller: ActorId, now: u64) -> (outcome: Result<
        Event,
        Error,
    >)
        requires
            old(self).wf(),
            id < old(self).challenges@.len(),
            old(self).challenge_views()[id as int].status == ChallengeStatus::Executing ==> now
                >= old(self).challenge_views()[id as int].start_time,
            old(self).challenge_views()[id as int].status == ChallengeStatus::Executing
                ==> day_index_of(old(self).challenge_views()[id as int], now) <= u16::MAX,
        ensures
            final(self).wf(),
            final(self).challenge_views() == old(self).challenge_views().update(
                id as int,
                complete_daily_step(old(self).challenge_views()[id as int], caller, now),
            ),
            outcome is Ok <==> complete_daily_error(old(self).challenge_views()[id as int], caller)
                is None,
            outcome matches Ok(ev) ==> ev == (Event::ChallengeDailyCompleted { id }),
            outcome matches Err(e) ==> Some(e) == complete_daily_error(
                old(self).challenge_views()[id as int],
                caller,
            ),
            final(self).created_map@ == old(self).created_map@,
            final(self).joined_map@ == old(self).joined_map@,
            final(self).sponsored_map@ == old(self).sponsored_map@,
    {
        let ghost pre = *self;
        let n: usize = self.challenges.len();
        let idx: usize = id as usize;
        proof {
            assert(id < n);
            assert(idx as int == id as int);
        }
        let challenge = &mut self.challenges[idx];
        let completed = challenge.complete_daily(caller, now);
        proof {
            assert(self.challenge_views() =~= pre.challenge_views().update(
                id as int,
                complete_daily_step(pre.challenge_views()[id as int], caller, now),
            ));
            assert forall|i: int|
                0 <= i < self.challenge_views().len() implies (
            #[trigger] self.challenge_views()[i]).id == i && self.challenge_views()[i].wf() by {
                if i != id as int {
                    assert(self.challenge_views()[i] == pre.challenge_views()[i]);
                }
            }
        }
        match completed {
            Ok(_) => Ok(Event::ChallengeDailyCompleted { id }),
            Err(e) => Err(e),
        }
    }

    /// The base id selection of a query: every id for `All`, else the index
    /// recorded for the account.
    pub open spec fn base_ids(self, filter: ChallengeFilter) -> Seq<u64> {
        match filter {
            ChallengeFilter::All => Seq::new(self.challenges@.len(), |i: int| i as u64),
            ChallengeFilter::Created(account) => index_ids(self.created_map@, account),
            ChallengeFilter::Joined(account) => index_ids(self.joined_map@, account),
            ChallengeFilter::Sponsored(account) => index_ids(self.sponsored_map@, account),
        }
    }

    /// Among the first `i` of `ids`, those whose challenge's status is
    /// included under the flags, in order.
    pub open spec fn selected_prefix(
        self,
        ids: Seq<u64>,
        include_recruiting: bool,
        include_recruit_failed: bool,
        include_executing: bool,
        include_completed: bool,
        i: int,
    ) -> Seq<u64>
        decreases i,
    {
        if i <= 0 {
            Seq::empty()
        } else {
            let rest = self.selected_prefix(
                ids,
                include_recruiting,
                include_recruit_failed,
                include_executing,
                include_completed,
                i - 1,
            );
            if status_included(
                self.challenge_views()[ids[i - 1] as int].status,
                include_recruiting,
                include_recruit_failed,
                include_executing,
                include_completed,
            ) {
                rest.push(ids[i - 1])
            } else {
                rest
            }
        }
    }

    /// The ids a query selects before pagination: the base selection of the
    /// filter, restricted to the statuses whose inclusion flag is set.
    pub open spec fn selected_ids(
        self,
        filter: ChallengeFilter,
        include_recruiting: bool,
        include_recruit_failed: bool,
        include_executing: bool,
        include_completed: bool,
    ) -> Seq<u64> {
        self.selected_prefix(
            self.base_ids(filter),
            include_recruiting,
            include_recruit_failed,
            include_executing,
            include_completed,
            self.base_ids(filter).len() as int,
        )
    }

    /// The challenges a query returns: the selected ids, paginated, each
    /// resolved to its challenge.
    pub open spec fn query_results(
        self,
        filter: ChallengeFilter,
        include_recruiting: bool,
        include_recruit_failed: bool,
        include_executing: bool,
        include_completed: bool,
        offset: u64,
        count: u64,
    ) -> Seq<ChallengeView> {
        let paged = paginate(
            self.selected_ids(
                filter,
                include_recruiting,
                include_recruit_failed,
                include_executing,
                include_completed,
            ),
            offset as int,
            count as int,
        );
        Seq::new(paged.len(), |i: int| self.challenge_views()[paged[i] as int])
    }

    /// How many challenges were ever created.
    pub fn total_challenge_count(&self) -> (reply: StateReply)
        ensures
            reply matches StateReply::TotalChallengeCount { count } && count
                == self.challenges@.len(),
    {
        StateReply::TotalChallengeCount { count: self.challenges.len() as u64 }
    }

    /// Looks up one challenge by id; the id must exist.
    pub fn query_challenge(&self, id: u64) -> (reply: StateReply)
        requires
            id < self.challenges@.len(),
        ensures
            reply matches StateReply::QueryChallenge { challenge } && challenge@
                == self.challenge_views()[id as int],
    {
        let n: usize = self.challenges.len();
        let idx: usize = id as usize;
        proof {
            assert(id < n);
            assert(idx as int == id as int);
        }
        StateReply::QueryChallenge { challenge: self.challenges[idx].clone() }
    }

    /// Lists challenges: the filter picks a base id set, the flags restrict
    /// it by status, and `offset`/`count` paginate the result, in selection
    /// order.
    pub fn query_challenges(
        &self,
        filter: ChallengeFilter,
        include_recruiting: bool,
        include_recruit_failed: bool,
        include_executing: bool,
        include_completed: bool,
        offset: u64,
        count: u64,
    ) -> (reply: StateReply)
        requires
            self.wf(),
        ensures
            reply matches StateReply::QueryChallenges { challenges } && views_of(challenges@)
                == self.query_results(
                filter,
                include_recruiting,
                include_recruit_failed,
                include_executing,
                include_completed,
                offset,
                count,
            ),
    {
        let n: usize = self.challenges.len();
        let ids: Vec<u64> = match filter {
            ChallengeFilter::All => {
                let mut all: Vec<u64> = Vec::new();
                let mut i: usize = 0;
                while i < n
                    invariant
                        i <= n,
                        n == self.challenges@.len(),
                        all@.len() == i,
                        forall|t: int| 0 <= t < i ==> all@[t] == t as u64,
                    decreases n - i,
                {
                    all.push(i as u64);
                    i = i + 1;
                }
                proof {
                    assert(all@ =~= self.base_ids(filter));
                }
                all
            },
            ChallengeFilter::Created(account) => index_lookup(&self.created_map, account),
            ChallengeFilter::Joined(account) => index_lookup(&self.joined_map, account),
            ChallengeFilter::Sponsored(account) => index_lookup(&self.sponsored_map, account),
        };
        proof {
            assert(ids@ == self.base_ids(filter));
            match filter {
                ChallengeFilter::All => {},
                ChallengeFilter::Created(account) => {
                    lemma_index_ids_bound(self.created_map@, account, n as int);
                },
                ChallengeFilter::Joined(account) => {
                    lemma_index_ids_bound(self.joined_map@, account, n as int);
                },
                ChallengeFilter::Sponsored(account) => {
                    lemma_index_ids_bound(self.sponsored_map@, account, n as int);
                },
            }
            assert(forall|t: int| 0 <= t < ids@.len() ==> #[trigger] ids@[t] < n);
        }

        let mut selected: Vec<u64> = Vec::new();
        let mut i: usize = 0;
        while i < ids.len()
            invariant
                i <= ids@.len(),
                n == self.challenges@.len(),
                ids@ == self.base_ids(filter),
                forall|t: int| 0 <= t < ids@.len() ==> #[trigger] ids@[t] < n,
                forall|t: int| 0 <= t < selected@.len() ==> #[trigger] selected@[t] < n,
                selected@ == self.selected_prefix(
                    ids@,
                    include_recruiting,
                    include_recruit_failed,
                    include_executing,
                    include_completed,
                    i as int,
                ),
            decreases ids@.len() - i,
        {
            let cid: u64 = ids[i];
            let cidx: usize = cid as usize;
            proof {
                assert(cid < n);
                assert(cidx as int == cid as int);
            }
            let included: bool = match self.challenges[cidx].status {
                ChallengeStatus::Recruiting => include_recruiting,
                ChallengeStatus::RecruitFailed => include_recruit_failed,
                ChallengeStatus::Executing => include_executing,
                ChallengeStatus::Completed => include_completed,
            };
            proof {
                assert(self.challenge_views()[cid as int].status == self.challenges@[cid as int]@.status);
            }
            if included {
                selected.push(cid);
            }
            proof {
                assert(selected@ =~= self.selected_prefix(
                    ids@,
                    include_recruiting,
                    include_recruit_failed,
                    include_executing,
                    include_completed,
                    i + 1 as int,
                ));
            }
            i = i + 1;
        }

        let total: usize = selected.len();
        let start: usize = if offset >= total as u64 {
            total
        } else {
            offset as usize
        };
        let take: usize = if count >= (total - start) as u64 {
            total - start
        } else {
            count as usize
        };
        let end: usize = start + take;
        let ghost paged = paginate(selected@, offset as int, count as int);
        proof {
            assert(paged =~= selected@.subrange(start as int, end as int));
        }

        let mut out: Vec<Challenge> = Vec::new();
        let mut t: usize = start;
        while t < end
            invariant
                start <= t <= end,
                end <= selected@.len(),
                n == self.challenges@.len(),
                forall|r: int| 0 <= r < selected@.len() ==> #[trigger] selected@[r] < n,
                out@.len() == t - start,
                forall|r: int|
                    0 <= r < out@.len() ==> (#[trigger] out@[r])@ == self.challenge_views()[selected@[start
                        + r] as int],
            decreases end - t,
        {
            let cid: u64 = selected[t];
            let cidx: usize = cid as usize;
            proof {
                assert(cid < n);
                assert(cidx as int == cid as int);
            }
            out.push(self.challenges[cidx].clone());
            t = t + 1;
        }
        proof {
            assert(views_of(out@) =~= self.query_results(
                filter,
                include_recruiting,
                include_recruit_failed,
                include_executing,
                include_completed,
                offset,
                count,
            ));
        }
        StateReply::QueryChallenges { challenges: out }
    }

    /// What the host must establish before dispatching `command`: the
    /// addressed challenge exists, the machine-width time and amount bounds
    /// hold, and on paths that pay out, the proportional products fit.
    pub open spec fn dispatch_requires(
        self,
        command: Command,
        caller: ActorId,
        value: u128,
        now: u64,
    ) -> bool {
        match command {
            Command::CreateChallenge { start_time, end_time, .. } => {
                &&& start_time + 43200 <= i64::MAX
                &&& end_time + 43200 <= i64::MAX
            },
            Command::JoinChallenge { id } => {
                &&& id < self.challenges@.len()
                &&& join_error(self.challenge_views()[id as int], caller, value) is None
                    ==> self.challenge_views()[id as int].prize_pool + value <= u128::MAX
            },
            Command::SponsorChallenge { id } => {
                &&& id < self.challenges@.len()
                &&& sponsor_error(self.challenge_views()[id as int], caller, value) is None
                    ==> self.challenge_views()[id as int].prize_pool + value <= u128::MAX
            },
            Command::ChallengeRecruitmentEnded { id } => id < self.challenges@.len(),
            Command::ChallengeExecutionEnded { id } => {
                &&& id < self.challenges@.len()
                &&& forall|i: int|
                    0 <= i < self.challenge_views()[id as int].participants.len() && succeeded_in(
                        self.challenge_views()[id as int],
                        self.challenge_views()[id as int].participants[i],
                    ) ==> self.challenge_views()[id as int].prize_pool * self.challenge_views()[id as int].participants[i].payment
                        <= u128::MAX
            },
            Command::CompleteDaily { id } => {
                &&& id < self.challenges@.len()
                &&& self.challenge_views()[id as int].status == ChallengeStatus::Executing ==> now
                    >= self.challenge_views()[id as int].start_time && day_index_of(
                    self.challenge_views()[id as int],
                    now,
                ) <= u16::MAX
            },
        }
    }

    /// What dispatching `command` did: the reply and state change of the
    /// matching registry operation, with `caller` as the sender, `value` as
    /// the attached amount, and `scheduled` as the host's answer to the
    /// scheduling request the operation makes, if any. Only a successful
    /// execution end produces payouts.
    pub open spec fn dispatch_spec(
        pre: ChronoQuest,
        post: ChronoQuest,
        command: Command,
        caller: ActorId,
        value: u128,
        now: u64,
        program_id: ActorId,
        scheduled: bool,
        reply: Result<Event, Error>,
        payouts: Seq<Payout>,
    ) -> bool {
        match command {
            Command::CreateChallenge { name, entry_fee, timezone, start_time, end_time } => {
                let id = pre.challenges@.len() as u64;
                &&& (reply is Ok <==> creation_error(timezone, start_time, end_time, now) is None
                    && scheduled)
                &&& reply matches Ok(ev) ==> ev == Event::ChallengeCreated { id }
                &&& reply is Ok ==> post.challenge_views() == pre.challenge_views().push(
                    created_challenge(
                        id,
                        name@,
                        entry_fee,
                        timezone,
                        start_time,
                        end_time,
                        caller,
                        now,
                    ),
                )
                &&& reply is Ok ==> index_ids(post.created_map@, caller) == index_ids(
                    pre.created_map@,
                    caller,
                ).push(id)
                &&& reply is Err ==> post.challenges@ == pre.challenges@ && post.created_map@
                    == pre.created_map@
                &&& reply matches Err(e) ==> e == (match creation_error(
                    timezone,
                    start_time,
                    end_time,
                    now,
                ) {
                    Some(err) => err,
                    None => Error::FailedToScheduleRecruitmentEnd { id },
                })
                &&& post.joined_map@ == pre.joined_map@
                &&& post.sponsored_map@ == pre.sponsored_map@
                &&& payouts == Seq::<Payout>::empty()
            },
            Command::JoinChallenge { id } => {
                let c = pre.challenge_views()[id as int];
                &&& post.challenge_views() == pre.challenge_views().update(
                    id as int,
                    join_step(c, caller, value),
                )
                &&& (reply is Ok <==> join_error(c, caller, value) is None)
                &&& reply matches Ok(ev) ==> ev == Event::ChallengeJoined { id }
                &&& reply matches Err(e) ==> Some(e) == join_error(c, caller, value)
                &&& reply is Ok ==> index_ids(post.joined_map@, caller) == index_ids(
                    pre.joined_map@,
                    caller,
                ).push(id)
                &&& reply is Err ==> post.joined_map@ == pre.joined_map@
                &&& post.created_map@ == pre.created_map@
                &&& post.sponsored_map@ == pre.sponsored_map@
                &&& payouts == Seq::<Payout>::empty()
            },
            Command::SponsorChallenge { id } => {
                let c = pre.challenge_views()[id as int];
                &&& post.challenge_views() == pre.challenge_views().update(
                    id as int,
                    sponsor_step(c, caller, value),
                )
                &&& (reply is Ok <==> sponsor_error(c, caller, value) is None)
                &&& reply matches Ok(ev) ==> ev == Event::ChallengeSponsored { id }
                &&& reply matches Err(e) ==> Some(e) == sponsor_error(c, caller, value)
                &&& reply is Ok ==> index_ids(post.sponsored_map@, caller) == index_ids(
                    pre.sponsored_map@,
                    caller,
                ).push(id)
                &&& reply is Err ==> post.sponsored_map@ == pre.sponsored_map@
                &&& post.created_map@ == pre.created_map@
                &&& post.joined_map@ == pre.joined_map@
                &&& payouts == Seq::<Payout>::empty()
            },
            Command::ChallengeRecruitmentEnded { id } => {
                let c = pre.challenge_views()[id as int];
                &&& post.challenge_views() == pre.challenge_views().update(
                    id as int,
                    recruitment_step(c, caller, program_id, scheduled),
                )
                &&& (reply is Ok <==> recruitment_error(c, caller, program_id, scheduled) is None)
                &&& reply matches Ok(ev) ==> ev == Event::ChallengeRecruitmentEnded {
                    id,
                    status: recruitment_step(c, caller, program_id, scheduled).status,
                }
                &&& reply matches Err(e) ==> Some(e) == recruitment_error(
                    c,
                    caller,
                    program_id,
                    scheduled,
                )
                &&& post.created_map@ == pre.created_map@
                &&& post.joined_map@ == pre.joined_map@
                &&& post.sponsored_map@ == pre.sponsored_map@
                &&& payouts == Seq::<Payout>::empty()
            },
            Command::ChallengeExecutionEnded { id } => {
                let c = pre.challenge_views()[id as int];
                &&& post.challenge_views() == pre.challenge_views().update(
                    id as int,
                    execution_step(c, caller, program_id),
                )
                &&& (reply is Ok <==> execution_error(c, caller, program_id) is None)
                &&& reply matches Ok(ev) ==> ev == Event::ChallengeExecutionEnded { id }
                &&& reply matches Err(e) ==> Some(e) == execution_error(c, caller, program_id)
                &&& reply is Ok ==> payouts == payouts_of(c)
                &&& reply is Err ==> payouts == Seq::<Payout>::empty()
                &&& post.created_map@ == pre.created_map@
                &&& post.joined_map@ == pre.joined_map@
                &&& post.sponsored_map@ == pre.sponsored_map@
            },
            Command::CompleteDaily { id } => {
                let c = pre.challenge_views()[id as int];
                &&& post.challenge_views() == pre.challenge_views().update(
                    id as int,
                    complete_daily_step(c, caller, now),
                )
                &&& (reply is Ok <==> complete_daily_error(c, caller) is None)
                &&& reply matches Ok(ev) ==> ev == Event::ChallengeDailyCompleted { id }
                &&& reply matches Err(e) ==> Some(e) == complete_daily_error(c, caller)
                &&& post.created_map@ == pre.created_map@
                &&& post.joined_map@ == pre.joined_map@
                &&& post.sponsored_map@ == pre.sponsored_map@
                &&& payouts == Seq::<Payout>::empty()
            },
        }
    }

    /// Routes an inbound command to the matching registry operation. The
    /// host supplies the calling account, the attached value, the current
    /// time, the program's own address, and `scheduled`, its answer to the
    /// scheduling request the operation makes, if any. The reply goes back
    /// to the caller; the payouts are transfers the host must execute.
    pub fn handle(
        &mut self,
        command: Command,
        caller: ActorId,
        value: u128,
        now: u64,
        program_id: ActorId,
        scheduled: bool,
    ) -> (outcome: (Result<Event, Error>, Vec<Payout>))
        requires
            old(self).wf(),
            old(self).dispatch_requires(command, caller, value, now),
        ensures
            final(self).wf(),
            ChronoQuest::dispatch_spec(
                *old(self),
                *final(self),
                command,
                caller,
                value,
                now,
                program_id,
                scheduled,
                outcome.0,
                outcome.1@,
            ),
    {
        match command {
            Command::CreateChallenge { name, entry_fee, timezone, start_time, end_time } => {
                let reply = self.create_challenge(
                    name,
                    entry_fee,
                    timezone,
                    start_time,
                    end_time,
                    caller,
                    now,
                    scheduled,
                );
                (reply, Vec::new())
            },
            Command::JoinChallenge { id } => (self.join_challenge(id, caller, value), Vec::new()),
            Command::SponsorChallenge { id } => (
                self.sponsor_challenge(id, caller, value),
                Vec::new(),
            ),
            Command::ChallengeRecruitmentEnded { id } => (
                self.recruitment_ended(id, caller, program_id, scheduled),
                Vec::new(),
            ),
            Command::ChallengeExecutionEnded { id } => {
                match self.excution_ended(id, caller, program_id) {
                    Ok((ev, payouts)) => (Ok(ev), payouts),
                    Err(e) => (Err(e), Vec::new()),
                }
            },
            Command::CompleteDaily { id } => (self.complete_daily(id, caller, now), Vec::new()),
        }
    }

    /// Answers a read-only query; the registry is unchanged.
    pub fn state(&self, query: StateQuery) -> (reply: StateReply)
        requires
            self.wf(),
            query matches StateQuery::QueryChallenge { id } ==> id < self.challenges@.len(),
        ensures
            query is TotalChallengeCount ==> (reply matches StateReply::TotalChallengeCount {
                count,
            } && count == self.challenges@.len()),
            query matches StateQuery::QueryChallenge { id } ==> (
            reply matches StateReply::QueryChallenge { challenge } && challenge@
                == self.challenge_views()[id as int]),
            query matches StateQuery::QueryChallenges {
                filter,
                include_recruiting,
                include_recruit_failed,
                include_executing,
                include_completed,
                offset,
                count,
            } ==> (reply matches StateReply::QueryChallenges { challenges } && views_of(
                challenges@,
            ) == self.query_results(
                filter,
                include_recruiting,
                include_recruit_failed,
                include_executing,
                include_completed,
                offset,
                count,
            )),
    {
        match query {
            StateQuery::TotalChallengeCount => self.total_challenge_count(),
            StateQuery::QueryChallenge { id } => self.query_challenge(id),
            StateQuery::QueryChallenges {
                filter,
                include_recruiting,
                include_recruit_failed,
                include_executing,
                include_completed,
                offset,
                count,
            } => self.query_challenges(
                filter,
                include_recruiting,
                include_recruit_failed,
                include_executing,
                include_completed,
                offset,
                count,
            ),
        }
    }
}

} // verus!
