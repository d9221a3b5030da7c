//! The challenge lifecycle state machine.
//!
//! Every operation is specified against a mathematical step function over
//! [`ChallengeView`]: the executable method returns exactly the typed error
//! that the matching `..._error` spec function names, and leaves the
//! challenge in exactly the state the matching `..._step` spec function
//! builds. Facts only the host knows (the caller, the attached value, the
//! current time, whether a scheduling request was accepted) enter as plain
//! arguments; effects to perform (payouts) leave as plain data.

use vstd::prelude::*;

use crate::time::blocks_of;
use crate::time::is_local_midnight;
use crate::time::is_start_of_day;
use crate::time::seconds_to_blocks;
use crate::types::ActorId;
use crate::types::Challenge;
use crate::types::ChallengeStatus;
use crate::types::ChallengeView;
use crate::types::Error;
use crate::types::Participant;
use crate::types::ParticipantView;
use crate::types::Payout;
use crate::types::Sponsorship;

verus! {

/// Sum of all participant payments.
pub open spec fn participant_total(participants: Seq<ParticipantView>) -> int
    decreases participants.len(),
{
    if participants.len() == 0 {
        0
    } else {
        participant_total(participants.drop_last()) + participants.last().payment
    }
}

/// Sum of all sponsor payments.
pub open spec fn sponsor_total(sponsors: Seq<Sponsorship>) -> int
    decreases sponsors.len(),
{
    if sponsors.len() == 0 {
        0
    } else {
        sponsor_total(sponsors.drop_last()) + sponsors.last().payment
    }
}

/// Whether some participant entry belongs to `account`.
pub open spec fn has_participant(participants: Seq<ParticipantView>, account: ActorId) -> bool {
    exists|i: int| 0 <= i < participants.len() && participants[i].id == account
}

/// Position of the first participant entry belonging to `account`, or -1.
pub open spec fn first_participant_index(
    participants: Seq<ParticipantView>,
    account: ActorId,
) -> int
    decreases participants.len(),
{
    if participants.len() == 0 {
        -1
    } else if participants[0].id == account {
        0
    } else {
        let rest = first_participant_index(participants.drop_first(), account);
        if rest < 0 {
            -1
        } else {
            1 + rest
        }
    }
}

/// No two participant entries belong to the same account.
pub open spec fn unique_participants(participants: Seq<ParticipantView>) -> bool {
    forall|i: int, j: int|
        0 <= i < j < participants.len() ==> participants[i].id != participants[j].id
}

/// No day index is recorded twice.
pub open spec fn unique_days(days: Seq<u16>) -> bool {
    forall|i: int, j: int| 0 <= i < j < days.len() ==> days[i] != days[j]
}

impl ChallengeView {
    /// Number of whole local days in the execution window.
    pub open spec fn execution_days(self) -> int {
        (self.end_time - self.start_time) / 86400
    }

    /// The prize pool equals the sum of all recorded payments.
    pub open spec fn accounting_ok(self) -> bool {
        self.prize_pool == participant_total(self.participants) + sponsor_total(self.sponsors)
    }

    /// Well-formedness: established by the constructor, preserved by every
    /// operation.
    pub open spec fn wf(self) -> bool {
        &&& self.accounting_ok()
        &&& -12 <= self.timezone <= 12
        &&& is_local_midnight(self.start_time, self.timezone)
        &&& is_local_midnight(self.end_time, self.timezone)
        &&& self.start_time < self.end_time
        &&& self.creation_time < self.start_time
        &&& unique_participants(self.participants)
        &&& forall|i: int|
            0 <= i < self.participants.len() ==> unique_days(self.participants[i].completed_days)
    }
}

/// The validation error creation reports, if any, checked in order:
/// timezone range, start alignment, end alignment, window order, futurity.
pub open spec fn creation_error(timezone: i8, start_time: u64, end_time: u64, now: u64) -> Option<
    Error,
> {
    if timezone < -12 || timezone > 12 {
        Some(Error::InvalidTimezone { timezone })
    } else if !is_local_midnight(start_time, timezone) {
        Some(Error::InvalidStartTime { time: start_time, timezone })
    } else if !is_local_midnight(end_time, timezone) {
        Some(Error::InvalidEndTime { time: end_time, timezone })
    } else if start_time >= end_time {
        Some(Error::InvalidTimeRange { start: start_time, end: end_time })
    } else if now >= start_time {
        Some(Error::StartTimeNotInFuture { creation: now, start: start_time })
    } else {
        None
    }
}

/// The state of a freshly created challenge.
pub open spec fn created_challenge(
    id: u64,
    name: Seq<char>,
    entry_fee: u128,
    timezone: i8,
    start_time: u64,
    end_time: u64,
    creator: ActorId,
    now: u64,
) -> ChallengeView {
    ChallengeView {
        id,
        name,
        creator,
        entry_fee,
        timezone,
        creation_time: now,
        start_time,
        end_time,
        prize_pool: 0,
        status: ChallengeStatus::Recruiting,
        participants: Seq::empty(),
        sponsors: Seq::empty(),
    }
}

/// The error a join reports, if any, checked in order: status, funds,
/// duplicate account.
pub open spec fn join_error(c: ChallengeView, caller: ActorId, amount: u128) -> Option<Error> {
    if c.status != ChallengeStatus::Recruiting {
        Some(Error::ChallengeIsNotRecruiting { id: c.id, status: c.status })
    } else if amount < c.entry_fee {
        Some(Error::NotEnoughFunds { expected: c.entry_fee, actual: amount })
    } else if has_participant(c.participants, caller) {
        Some(Error::ParticipantAlreadyJoined { id: c.id })
    } else {
        None
    }
}

/// The challenge after a join attempt: on success the caller is appended
/// with the full attached amount and the pool grows by it; on failure the
/// challenge is unchanged.
pub open spec fn join_step(c: ChallengeView, caller: ActorId, amount: u128) -> ChallengeView {
    if join_error(c, caller, amount) is None {
        ChallengeView {
            prize_pool: (c.prize_pool + amount) as u128,
            participants: c.participants.push(
                ParticipantView { id: caller, payment: amount, completed_days: Seq::empty() },
            ),
            ..c
        }
    } else {
        c
    }
}

/// The error a sponsorship reports, if any, checked in order: status, funds.
pub open spec fn sponsor_error(c: ChallengeView, caller: ActorId, amount: u128) -> Option<Error> {
    if c.status != ChallengeStatus::Recruiting && c.status != ChallengeStatus::Executing {
        Some(Error::ChallengeIsNotRecruitingAndNotExecuting { id: c.id, status: c.status })
    } else if amount < c.entry_fee {
        Some(Error::NotEnoughFunds { expected: c.entry_fee, actual: amount })
    } else {
        None
    }
}

/// The challenge after a sponsorship attempt: on success the payment is
/// appended and the pool grows by it; on failure the challenge is unchanged.
pub open spec fn sponsor_step(c: ChallengeView, caller: ActorId, amount: u128) -> ChallengeView {
    if sponsor_error(c, caller, amount) is None {
        ChallengeView {
            prize_pool: (c.prize_pool + amount) as u128,
            sponsors: c.sponsors.push(Sponsorship { sponsor: caller, payment: amount }),
            ..c
        }
    } else {
        c
    }
}

/// The error a recruitment-end delivery reports, if any, checked in order:
/// sender authorization, status, empty recruitment, scheduling refusal.
pub open spec fn recruitment_error(
    c: ChallengeView,
    sender: ActorId,
    program_id: ActorId,
    execution_scheduled: bool,
) -> Option<Error> {
    if sender != program_id {
        Some(Error::InternalMethodCalledExternally)
    } else if c.status != ChallengeStatus::Recruiting {
        Some(Error::ChallengeIsNotRecruiting { id: c.id, status: c.status })
    } else if c.participants.len() == 0 {
        Some(Error::RecruitEndedWithNoParticipants { id: c.id })
    } else if !execution_scheduled {
        Some(Error::FailedToScheduleExecutionEnd { id: c.id })
    } else {
        None
    }
}

/// The challenge after a recruitment-end delivery: with participants and an
/// accepted execution-end schedule it starts executing; with none it fails
/// recruitment permanently; otherwise it is unchanged.
pub open spec fn recruitment_step(
    c: ChallengeView,
    sender: ActorId,
    program_id: ActorId,
    execution_scheduled: bool,
) -> ChallengeView {
    if recruitment_error(c, sender, program_id, execution_scheduled) is None {
        ChallengeView { status: ChallengeStatus::Executing, ..c }
    } else if sender == program_id && c.status == ChallengeStatus::Recruiting
        && c.participants.len() == 0 {
        ChallengeView { status: ChallengeStatus::RecruitFailed, ..c }
    } else {
        c
    }
}

/// Whether a participant completed every day of the execution window.
pub open spec fn succeeded_in(c: ChallengeView, p: ParticipantView) -> bool {
    p.completed_days.len() == c.execution_days()
}

/// The participants among the first `i` that completed every day, in join
/// order.
pub open spec fn succeeded_prefix(c: ChallengeView, i: int) -> Seq<ParticipantView>
    decreases i,
{
    if i <= 0 {
        Seq::empty()
    } else {
        let rest = succeeded_prefix(c, i - 1);
        if succeeded_in(c, c.participants[i - 1]) {
            rest.push(c.participants[i - 1])
        } else {
            rest
        }
    }
}

/// The participants that completed every day, in join order.
pub open spec fn succeeded_participants(c: ChallengeView) -> Seq<ParticipantView> {
    succeeded_prefix(c, c.participants.len() as int)
}

/// The error an execution-end delivery reports, if any, checked in order:
/// sender authorization, status.
pub open spec fn execution_error(c: ChallengeView, sender: ActorId, program_id: ActorId) -> Option<
    Error,
> {
    if sender != program_id {
        Some(Error::InternalMethodCalledExternally)
    } else if c.status != ChallengeStatus::Executing {
        Some(Error::ChallengeIsNotExecuting { id: c.id, status: c.status })
    } else {
        None
    }
}

/// The challenge after an execution-end delivery: on success it completes;
/// on failure it is unchanged.
pub open spec fn execution_step(c: ChallengeView, sender: ActorId, program_id: ActorId) -> ChallengeView {
    if execution_error(c, sender, program_id) is None {
        ChallengeView { status: ChallengeStatus::Completed, ..c }
    } else {
        c
    }
}

/// The settlement transfers owed to the succeeding participants among the
/// first `i`, each weighted by its own payment over `total`, rounded down.
pub open spec fn payouts_prefix(c: ChallengeView, total: int, i: int) -> Seq<Payout>
    decreases i,
{
    if i <= 0 {
        Seq::empty()
    } else {
        let rest = payouts_prefix(c, total, i - 1);
        let p = c.participants[i - 1];
        if succeeded_in(c, p) {
            rest.push(Payout { account: p.id, prize: (c.prize_pool * p.payment / total) as u128 })
        } else {
            rest
        }
    }
}

/// The settlement transfers: each participant that completed every day
/// receives the prize pool weighted by its own payment over all succeeding
/// payments, rounded down. With no succeeding payment nothing is
/// distributed, which also guards the division.
pub open spec fn payouts_of(c: ChallengeView) -> Seq<Payout> {
    let total = participant_total(succeeded_participants(c));
    if total == 0 {
        Seq::empty()
    } else {
        payouts_prefix(c, total, c.participants.len() as int)
    }
}

/// The day index of `now` inside the execution window, counted from
/// `start_time` in whole days.
pub open spec fn day_index_of(c: ChallengeView, now: u64) -> int {
    (now - c.start_time) / 86400
}

/// The error a daily completion reports, if any, checked in order: status,
/// unknown participant.
pub open spec fn complete_daily_error(c: ChallengeView, caller: ActorId) -> Option<Error> {
    if c.status != ChallengeStatus::Executing {
        Some(Error::ChallengeIsNotExecuting { id: c.id, status: c.status })
    } else if first_participant_index(c.participants, caller) < 0 {
        Some(Error::ParticipantNotFound { id: c.id })
    } else {
        None
    }
}

/// The challenge after a daily completion: the caller's entry records the
/// current day unless it is already recorded; repeating a day is a no-op,
/// not an error.
pub open spec fn complete_daily_step(c: ChallengeView, caller: ActorId, now: u64) -> ChallengeView {
    if complete_daily_error(c, caller) is Some {
        c
    } else {
        let k = first_participant_index(c.participants, caller);
        let day = day_index_of(c, now) as u16;
        let p = c.participants[k];
        if p.completed_days.contains(day) {
            c
        } else {
            ChallengeView {
                participants: c.participants.update(
                    k,
                    ParticipantView { completed_days: p.completed_days.push(day), ..p },
                ),
                ..c
            }
        }
    }
}

/// The payment sum over the succeeding participants among the first `i`
/// never exceeds the payment sum over the first `i`.
pub proof fn lemma_succeeded_prefix_total_le(c: ChallengeView, i: int)
    requires
        0 <= i <= c.participants.len(),
    ensures
        participant_total(succeeded_prefix(c, i)) <= participant_total(c.participants.take(i)),
    decreases i,
{
    if i > 0 {
        lemma_succeeded_prefix_total_le(c, i - 1);
        assert(c.participants.take(i).drop_last() =~= c.participants.take(i - 1));
        assert(c.participants.take(i).last() == c.participants[i - 1]);
        if succeeded_in(c, c.participants[i - 1]) {
            assert(succeeded_prefix(c, i - 1).push(c.participants[i - 1]).drop_last()
                =~= succeeded_prefix(c, i - 1));
        }
    }
}

/// Participant payment sums are never negative.
pub proof fn lemma_participant_total_nonneg(participants: Seq<ParticipantView>)
    ensures
        participant_total(participants) >= 0,
    decreases participants.len(),
{
    if participants.len() > 0 {
        lemma_participant_total_nonneg(participants.drop_last());
    }
}

/// Sponsor payment sums are never negative.
pub proof fn lemma_sponsor_total_nonneg(sponsors: Seq<Sponsorship>)
    ensures
        sponsor_total(sponsors) >= 0,
    decreases sponsors.len(),
{
    if sponsors.len() > 0 {
        lemma_sponsor_total_nonneg(sponsors.drop_last());
    }
}

/// A payment sum over a prefix never exceeds the sum over the whole ledger.
pub proof fn lemma_participant_total_take_le(participants: Seq<ParticipantView>, i: int)
    requires
        0 <= i <= participants.len(),
    ensures
        participant_total(participants.take(i)) <= participant_total(participants),
    decreases participants.len() - i,
{
    if i == participants.len() {
        assert(participants.take(i) =~= participants);
    } else {
        assert(participants.take(i + 1).drop_last() =~= participants.take(i));
        assert(participants.take(i + 1).last() == participants[i]);
        lemma_participant_total_take_le(participants, i + 1);
    }
}

/// Updating an entry without changing its payment keeps the payment sum.
pub proof fn lemma_participant_total_update(
    participants: Seq<ParticipantView>,
    k: int,
    p: ParticipantView,
)
    requires
        0 <= k < participants.len(),
        p.payment == participants[k].payment,
    ensures
        participant_total(participants.update(k, p)) == participant_total(participants),
    decreases participants.len(),
{
    if k == participants.len() - 1 {
        assert(participants.update(k, p).drop_last() =~= participants.drop_last());
    } else {
        assert(participants.update(k, p).drop_last() =~= participants.drop_last().update(k, p));
        lemma_participant_total_update(participants.drop_last(), k, p);
    }
}

/// The first-participant search returns -1 or a valid position of an entry
/// belonging to the account.
pub proof fn lemma_first_index_spec(participants: Seq<ParticipantView>, account: ActorId)
    ensures
        -1 <= first_participant_index(participants, account) < participants.len(),
        first_participant_index(participants, account) >= 0 ==> participants[first_participant_index(
            participants,
            account,
        )].id == account,
    decreases participants.len(),
{
    if participants.len() > 0 && participants[0].id != account {
        lemma_first_index_spec(participants.drop_first(), account);
    }
}

/// A linear search that skipped the first `k` entries and stopped on a
/// match found the first matching entry.
pub proof fn lemma_first_index_found(
    participants: Seq<ParticipantView>,
    account: ActorId,
    k: int,
)
    requires
        0 <= k < participants.len(),
        participants[k].id == account,
        forall|j: int| 0 <= j < k ==> participants[j].id != account,
    ensures
        first_participant_index(participants, account) == k,
    decreases k,
{
    if k > 0 {
        assert(forall|j: int| 0 <= j < k - 1 ==> participants.drop_first()[j].id != account) by {
            assert(forall|j: int|
                0 <= j < k - 1 ==> participants.drop_first()[j] == participants[j + 1]);
        }
        lemma_first_index_found(participants.drop_first(), account, k - 1);
    }
}

/// A linear search that matched nothing proves the account is absent.
pub proof fn lemma_first_index_missing(participants: Seq<ParticipantView>, account: ActorId)
    requires
        forall|j: int| 0 <= j < participants.len() ==> participants[j].id != account,
    ensures
        first_participant_index(participants, account) == -1,
    decreases participants.len(),
{
    if participants.len() > 0 {
        assert(forall|j: int|
            0 <= j < participants.drop_first().len() ==> participants.drop_first()[j]
                == participants[j + 1]);
        lemma_first_index_missing(participants.drop_first(), account);
    }
}

impl Challenge {
    /// Checks a creation command. On success, returns the block delay after
    /// which the host must redeliver the recruitment-end command, namely at
    /// `start_time`.
    pub fn validate_creation(timezone: i8, start_time: u64, end_time: u64, now: u64) -> (outcome:
        Result<u64, Error>)
        requires
            start_time + 43200 <= i64::MAX,
            end_time + 43200 <= i64::MAX,
        ensures
            match outcome {
                Ok(delay) => creation_error(timezone, start_time, end_time, now) is None && delay
                    == blocks_of((start_time - now) as u64),
                Err(e) => creation_error(timezone, start_time, end_time, now) == Some(e),
            },
    {
        if timezone < -12 || timezone > 12 {
            return Err(Error::InvalidTimezone { timezone });
        }
        if !is_start_of_day(start_time, timezone) {
            return Err(Error::InvalidStartTime { time: start_time, timezone });
        }
        if !is_start_of_day(end_time, timezone) {
            return Err(Error::InvalidEndTime { time: end_time, timezone });
        }
        if start_time >= end_time {
            return Err(Error::InvalidTimeRange { start: start_time, end: end_time });
        }
        if now >= start_time {
            return Err(Error::StartTimeNotInFuture { creation: now, start: start_time });
        }
        Ok(seconds_to_blocks(start_time - now))
    }

    /// Builds a new challenge. `recruitment_scheduled` reports whether the
    /// host accepted the request to redeliver the recruitment-end command at
    /// `start_time` (the delay comes from [`Challenge::validate_creation`]);
    /// a refusal aborts creation.
    pub fn new(
        id: u64,
        name: String,
        entry_fee: u128,
        timezone: i8,
        start_time: u64,
        end_time: u64,
        creator: ActorId,
        now: u64,
        recruitment_scheduled: bool,
    ) -> (outcome: Result<Challenge, Error>)
        requires
            start_time + 43200 <= i64::MAX,
            end_time + 43200 <= i64::MAX,
        ensures
            outcome is Ok <==> (creation_error(timezone, start_time, end_time, now) is None
                && recruitment_scheduled),
            outcome matches Ok(c) ==> c@ == created_challenge(
                id,
                name@,
                entry_fee,
                timezone,
                start_time,
                end_time,
                creator,
                now,
            ) && c@.wf(),
            outcome matches Err(e) ==> match creation_error(timezone, start_time, end_time, now) {
                Some(err) => e == err,
                None => e == (Error::FailedToScheduleRecruitmentEnd { id }),
            },
    {
        match Self::validate_creation(timezone, start_time, end_time, now) {
            Ok(_) => (),
            Err(e) => {
                return Err(e);
            },
        }
        if !recruitment_scheduled {
            return Err(Error::FailedToScheduleRecruitmentEnd { id });
        }
        let challenge = Challenge {
            id,
            name,
            creator,
            entry_fee,
            timezone,
            creation_time: now,
            start_time,
            end_time,
            prize_pool: 0,
            status: ChallengeStatus::Recruiting,
            participants: Vec::new(),
            sponsors: Vec::new(),
        };
        proof {
            assert(challenge@ =~= created_challenge(
                id,
                name@,
                entry_fee,
                timezone,
                start_time,
                end_time,
                creator,
                now,
            ));
        }
        Ok(challenge)
    }

    /// Records `caller` as a participant paying `amount`. The host keeps the
    /// full attached amount, so the pool grows by `amount` even when it
    /// exceeds the entry fee.
    pub fn join(&mut self, caller: ActorId, amount: u128) -> (outcome: Result<(), Error>)
        requires
            join_error(old(self)@, caller, amount) is None ==> old(self).prize_pool + amount
                <= u128::MAX,
        ensures
            final(self)@ == join_step(old(self)@, caller, amount),
            outcome is Ok <==> join_error(old(self)@, caller, amount) is None,
            outcome matches Err(e) ==> Some(e) == join_error(old(self)@, caller, amount),
            old(self)@.wf() ==> final(self)@.wf(),
    {
        if self.status != ChallengeStatus::Recruiting {
            return Err(Error::ChallengeIsNotRecruiting { id: self.id, status: self.status });
        }
        if amount < self.entry_fee {
            return Err(Error::NotEnoughFunds { expected: self.entry_fee, actual: amount });
        }
        if contains_participant(&self.participants, caller) {
            return Err(Error::ParticipantAlreadyJoined { id: self.id });
        }
        let ghost pre = self@;
        self.participants.push(
            Participant { id: caller, payment: amount, completed_days: Vec::new() },
        );
        self.prize_pool = self.prize_pool + amount;
        proof {
            let entry = ParticipantView { id: caller, payment: amount, completed_days: Seq::empty() };
            assert(self@.participants =~= pre.participants.push(entry));
            assert(self@ =~= join_step(pre, caller, amount));
            assert(pre.participants.push(entry).drop_last() =~= pre.participants);
        }
        Ok(())
    }

    /// Records a sponsor payment by `caller` over `amount`; allowed while
    /// recruiting or executing, any number of times per account.
    pub fn sponsor(&mut self, caller: ActorId, amount: u128) -> (outcome: Result<(), Error>)
        requires
            sponsor_error(old(self)@, caller, amount) is None ==> old(self).prize_pool + amount
                <= u128::MAX,
        ensures
            final(self)@ == sponsor_step(old(self)@, caller, amount),
            outcome is Ok <==> sponsor_error(old(self)@, caller, amount) is None,
            outcome matches Err(e) ==> Some(e) == sponsor_error(old(self)@, caller, amount),
            old(self)@.wf() ==> final(self)@.wf(),
    {
        if self.status != ChallengeStatus::Recruiting && self.status != ChallengeStatus::Executing {
            return Err(
                Error::ChallengeIsNotRecruitingAndNotExecuting { id: self.id, status: self.status },
            );
        }
        if amount < self.entry_fee {
            return Err(Error::NotEnoughFunds { expected: self.entry_fee, actual: amount });
        }
        let ghost pre = self@;
        self.sponsors.push(Sponsorship { sponsor: caller, payment: amount });
        self.prize_pool = self.prize_pool + amount;
        proof {
            let entry = Sponsorship { sponsor: caller, payment: amount };
            assert(self@ =~= sponsor_step(pre, caller, amount));
            assert(pre.sponsors.push(entry).drop_last() =~= pre.sponsors);
        }
        Ok(())
    }

    /// Ends recruitment; only the program itself may deliver this command.
    /// `execution_scheduled` reports whether the host accepted the request to
    /// redeliver the execution-end command at `end_time` (the delay comes
    /// from [`Challenge::execution_delay`]); a refusal aborts the transition.
    pub fn recruitment_ended(
        &mut self,
        sender: ActorId,
        program_id: ActorId,
        execution_scheduled: bool,
    ) -> (outcome: Result<(), Error>)
        ensures
            final(self)@ == recruitment_step(old(self)@, sender, program_id, execution_scheduled),
            outcome is Ok <==> recruitment_error(old(self)@, sender, program_id, execution_scheduled)
                is None,
            outcome matches Err(e) ==> Some(e) == recruitment_error(
                old(self)@,
                sender,
                program_id,
                execution_scheduled,
            ),
            old(self)@.wf() ==> final(self)@.wf(),
    {
        if sender != program_id {
            return Err(Error::InternalMethodCalledExternally);
        }
        if self.status != ChallengeStatus::Recruiting {
            return Err(Error::ChallengeIsNotRecruiting { id: self.id, status: self.status });
        }
        if self.participants.len() == 0 {
            self.status = ChallengeStatus::RecruitFailed;
            return Err(Error::RecruitEndedWithNoParticipants { id: self.id });
        }
        if !execution_scheduled {
            return Err(Error::FailedToScheduleExecutionEnd { id: self.id });
        }
        self.status = ChallengeStatus::Executing;
        Ok(())
    }

    /// The block delay after which the host must redeliver the execution-end
    /// command, namely at `end_time`, measured from `start_time`.
    pub fn execution_delay(&self) -> (delay: u64)
        requires
            self.start_time <= self.end_time,
            self.end_time - self.start_time + 2 <= u64::MAX,
        ensures
            delay == blocks_of((self.end_time - self.start_time) as u64),
    {
        seconds_to_blocks(self.end_time - self.start_time)
    }

    /// Ends execution; only the program itself may deliver this command. The
    /// challenge completes and the returned payouts are the transfers the
    /// host must execute, one per participant that completed every day, in
    /// join order. The status advances before any transfer runs, so a failed
    /// transfer does not roll it back.
    pub fn execution_ended(&mut self, sender: ActorId, program_id: ActorId) -> (outcome: Result<
        Vec<Payout>,
        Error,
    >)
        requires
            execution_error(old(self)@, sender, program_id) is None ==> old(self).start_time <= old(
                self,
            ).end_time,
            execution_error(old(self)@, sender, program_id) is None ==> participant_total(
                old(self)@.participants,
            ) <= u128::MAX,
            execution_error(old(self)@, sender, program_id) is None ==> forall|i: int|
                0 <= i < old(self)@.participants.len() && succeeded_in(
                    old(self)@,
                    old(self)@.participants[i],
                ) ==> old(self).prize_pool * old(self)@.participants[i].payment <= u128::MAX,
        ensures
            final(self)@ == execution_step(old(self)@, sender, program_id),
            outcome is Ok <==> execution_error(old(self)@, sender, program_id) is None,
            outcome matches Err(e) ==> Some(e) == execution_error(old(self)@, sender, program_id),
            outcome matches Ok(payouts) ==> payouts@ == payouts_of(old(self)@),
            old(self)@.wf() ==> final(self)@.wf(),
    {
        if sender != program_id {
            return Err(Error::InternalMethodCalledExternally);
        }
        if self.status != ChallengeStatus::Executing {
            return Err(Error::ChallengeIsNotExecuting { id: self.id, status: self.status });
        }
        let ghost pre = self@;
        self.status = ChallengeStatus::Completed;
        let execution_days: u64 = (self.end_time - self.start_time) / 86400;

        let mut total: u128 = 0;
        let mut i: usize = 0;
        while i < self.participants.len()
            invariant
                self@ == (ChallengeView { status: ChallengeStatus::Completed, ..pre }),
                execution_days == pre.execution_days(),
                i <= pre.participants.len(),
                total == participant_total(succeeded_prefix(pre, i as int)),
                participant_total(pre.participants) <= u128::MAX,
            decreases pre.participants.len() - i,
        {
            proof {
                lemma_succeeded_prefix_total_le(pre, i + 1 as int);
                lemma_participant_total_take_le(pre.participants, i + 1 as int);
                if succeeded_in(pre, pre.participants[i as int]) {
                    assert(succeeded_prefix(pre, i as int).push(
                        pre.participants[i as int],
                    ).drop_last() =~= succeeded_prefix(pre, i as int));
                }
            }
            if self.participants[i].completed_days.len() as u64 == execution_days {
                total = total + self.participants[i].payment;
            }
            i = i + 1;
        }
        proof {
            assert(succeeded_prefix(pre, pre.participants.len() as int) == succeeded_participants(
                pre,
            ));
        }

        let mut payouts: Vec<Payout> = Vec::new();
        if total > 0 {
            let mut j: usize = 0;
            while j < self.participants.len()
                invariant
                    self@ == (ChallengeView { status: ChallengeStatus::Completed, ..pre }),
                    execution_days == pre.execution_days(),
                    j <= pre.participants.len(),
                    total == participant_total(succeeded_participants(pre)),
                    total > 0,
                    payouts@ == payouts_prefix(pre, total as int, j as int),
                    forall|k: int|
                        0 <= k < pre.participants.len() && succeeded_in(pre, pre.participants[k])
                            ==> pre.prize_pool * pre.participants[k].payment <= u128::MAX,
                decreases pre.participants.len() - j,
            {
                if self.participants[j].completed_days.len() as u64 == execution_days {
                    proof {
                        assert(succeeded_in(pre, pre.participants[j as int]));
                        assert(pre.prize_pool * pre.participants[j as int].payment <= u128::MAX);
                    }
                    let value: u128 = self.prize_pool * self.participants[j].payment / total;
                    payouts.push(Payout { account: self.participants[j].id, prize: value });
                    proof {
                        assert(payouts@ =~= payouts_prefix(pre, total as int, j + 1 as int));
                    }
                } else {
                    proof {
                        assert(payouts@ =~= payouts_prefix(pre, total as int, j + 1 as int));
                    }
                }
                j = j + 1;
            }
        }
        Ok(payouts)
    }

    /// Records the current day as completed for `caller`. The day index is
    /// computed from `now`; repeating a day already recorded is a no-op, not
    /// an error.
    pub fn complete_daily(&mut self, caller: ActorId, now: u64) -> (outcome: Result<(), Error>)
        requires
            old(self)@.status == ChallengeStatus::Executing ==> now >= old(self).start_time,
            old(self)@.status == ChallengeStatus::Executing ==> day_index_of(old(self)@, now)
                <= u16::MAX,
        ensures
            final(self)@ == complete_daily_step(old(self)@, caller, now),
            outcome is Ok <==> complete_daily_error(old(self)@, caller) is None,
            outcome matches Err(e) ==> Some(e) == complete_daily_error(old(self)@, caller),
            old(self)@.wf() ==> final(self)@.wf(),
    {
        if self.status != ChallengeStatus::Executing {
            return Err(Error::ChallengeIsNotExecuting { id: self.id, status: self.status });
        }
        let ghost pre = self@;
        let day: u16 = ((now - self.start_time) / 86400) as u16;

        let mut k: usize = 0;
        while k < self.participants.len()
            invariant
                self@ == pre,
                k <= pre.participants.len(),
                forall|j: int| 0 <= j < k ==> pre.participants[j].id != caller,
            ensures
                self@ == pre,
                k <= pre.participants.len(),
                forall|j: int| 0 <= j < k ==> pre.participants[j].id != caller,
                k < pre.participants.len() ==> pre.participants[k as int].id == caller,
            decreases pre.participants.len() - k,
        {
            if self.participants[k].id == caller {
                proof {
                    assert(pre.participants[k as int].id == caller);
                }
                break ;
            }
            k = k + 1;
        }
        if k == self.participants.len() {
            proof {
                lemma_first_index_missing(pre.participants, caller);
            }
            return Err(Error::ParticipantNotFound { id: self.id });
        }
        proof {
            assert(pre.participants[k as int].id == caller);
            lemma_first_index_found(pre.participants, caller, k as int);
        }
        if !days_contains(&self.participants[k].completed_days, day) {
            let participant = &mut self.participants[k];
            participant.completed_days.push(day);
            proof {
                let entry = ParticipantView {
                    completed_days: pre.participants[k as int].completed_days.push(day),
                    ..pre.participants[k as int]
                };
                assert(self@.participants =~= pre.participants.update(k as int, entry));
                assert(self@ =~= complete_daily_step(pre, caller, now));
                if pre.wf() {
                    lemma_participant_total_update(pre.participants, k as int, entry);
                    assert(self@.wf());
                }
            }
        }
        Ok(())
    }
}

/// Whether `day` is already recorded in `days`.
fn days_contains(days: &Vec<u16>, day: u16) -> (found: bool)
    ensures
        found == days@.contains(day),
{
    let mut i: usize = 0;
    while i < days.len()
        invariant
            i <= days@.len(),
            forall|j: int| 0 <= j < i ==> days@[j] != day,
        decreases days@.len() - i,
    {
        if days[i] == day {
            proof {
                assert(days@[i as int] == day);
            }
            return true;
        }
        i = i + 1;
    }
    false
}

/// Whether some ledger entry belongs to `account`.
fn contains_participant(participants: &Vec<Participant>, account: ActorId) -> (found: bool)
    ensures
        found == has_participant(participants@.map_values(|p: Participant| p@), account),
{
    let ghost view = participants@.map_values(|p: Participant| p@);
    let mut i: usize = 0;
    while i < participants.len()
        invariant
            i <= view.len(),
            view == participants@.map_values(|p: Participant| p@),
            forall|j: int| 0 <= j < i ==> view[j].id != account,
        decreases view.len() - i,
    {
        if participants[i].id == account {
            proof {
                assert(view[i as int].id == account);
            }
            return true;
        }
        i = i + 1;
    }
    false
}

} // verus!
