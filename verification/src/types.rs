//! Data model: challenges, their ledgers, and the command/event/query
//! vocabulary exchanged with the host.
//!
//! Each executable type has a mathematical view (`@`) over `Seq`, used by
//! every contract in the crate.

use vstd::prelude::*;

verus! {

/// Account identifier, as the host reports it for every inbound command.
pub type ActorId = u64;

/// Lifecycle state of a challenge. Transitions move only along
/// Recruiting -> {RecruitFailed | Executing} -> Completed.
#[derive(Clone, Copy, PartialEq, Eq, Structural, Debug)]
pub enum ChallengeStatus {
    Recruiting,
    RecruitFailed,
    Executing,
    Completed,
}

/// Ledger entry for an account that joined a challenge.
#[derive(Debug)]
pub struct Participant {
    /// The joining account.
    pub id: ActorId,
    /// The amount the account actually paid; at least the entry fee.
    pub payment: u128,
    /// Day indices this participant reported as completed, in report order,
    /// without duplicates.
    pub completed_days: Vec<u16>,
}

/// Mathematical view of a [`Participant`].
#[verifier::ext_equal]
pub struct ParticipantView {
    pub id: ActorId,
    pub payment: u128,
    pub completed_days: Seq<u16>,
}

impl View for Participant {
    type V = ParticipantView;

    open spec fn view(&self) -> ParticipantView {
        ParticipantView {
            id: self.id,
            payment: self.payment,
            completed_days: self.completed_days@,
        }
    }
}

impl Clone for Participant {
    fn clone(&self) -> (cloned: Self)
        ensures
            cloned@ == self@,
    {
        Participant {
            id: self.id,
            payment: self.payment,
            completed_days: clone_days(&self.completed_days),
        }
    }
}

/// Copies a participant's completed-day list element by element.
fn clone_days(days: &Vec<u16>) -> (cloned: Vec<u16>)
    ensures
        cloned@ == days@,
{
    let mut out: Vec<u16> = Vec::new();
    let mut i: usize = 0;
    while i < days.len()
        invariant
            i <= days@.len(),
            out@ == days@.subrange(0, i as int),
        decreases days@.len() - i,
    {
        out.push(days[i]);
        proof {
            assert(out@ =~= days@.subrange(0, i + 1 as int));
        }
        i = i + 1;
    }
    proof {
        assert(out@ =~= days@);
    }
    out
}

/// Ledger entry for a sponsor payment. One account may sponsor several
/// times, so entries are not unique by account.
#[derive(Clone, Copy, PartialEq, Eq, Structural, Debug)]
pub struct Sponsorship {
    /// The sponsoring account.
    pub sponsor: ActorId,
    /// The amount paid; at least the entry fee.
    pub payment: u128,
}

/// One recruitment-plus-execution cycle with an escrowed prize pool.
#[derive(Debug)]
pub struct Challenge {
    /// Dense identifier: the position of this challenge in the registry.
    pub id: u64,
    /// Informational label.
    pub name: String,
    /// Account that submitted the creation command.
    pub creator: ActorId,
    /// Amount required to join or sponsor.
    pub entry_fee: u128,
    /// Signed hour offset fixing the locale of day boundaries.
    pub timezone: i8,
    /// Time of creation, seconds since the epoch.
    pub creation_time: u64,
    /// Start of the execution window; end of recruitment.
    pub start_time: u64,
    /// End of the execution window.
    pub end_time: u64,
    /// Running sum of all participant and sponsor payments.
    pub prize_pool: u128,
    /// Lifecycle state.
    pub status: ChallengeStatus,
    /// Joined accounts in join order, unique by account.
    pub participants: Vec<Participant>,
    /// Sponsor payments in arrival order.
    pub sponsors: Vec<Sponsorship>,
}

/// Mathematical view of a [`Challenge`].
#[verifier::ext_equal]
pub struct ChallengeView {
    pub id: u64,
    pub name: Seq<char>,
    pub creator: ActorId,
    pub entry_fee: u128,
    pub timezone: i8,
    pub creation_time: u64,
    pub start_time: u64,
    pub end_time: u64,
    pub prize_pool: u128,
    pub status: ChallengeStatus,
    pub participants: Seq<ParticipantView>,
    pub sponsors: Seq<Sponsorship>,
}

impl View for Challenge {
    type V = ChallengeView;

    open spec fn view(&self) -> ChallengeView {
        ChallengeView {
            id: self.id,
            name: self.name@,
            creator: self.creator,
            entry_fee: self.entry_fee,
            timezone: self.timezone,
            creation_time: self.creation_time,
            start_time: self.start_time,
            end_time: self.end_time,
            prize_pool: self.prize_pool,
            status: self.status,
            participants: self.participants@.map_values(|p: Participant| p@),
            sponsors: self.sponsors@,
        }
    }
}

impl Clone for Challenge {
    fn clone(&self) -> (cloned: Self)
        ensures
            cloned@ == self@,
    {
        let c = Challenge {
            id: self.id,
            name: self.name.clone(),
            creator: self.creator,
            entry_fee: self.entry_fee,
            timezone: self.timezone,
            creation_time: self.creation_time,
            start_time: self.start_time,
            end_time: self.end_time,
            prize_pool: self.prize_pool,
            status: self.status,
            participants: clone_participants(&self.participants),
            sponsors: clone_sponsors(&self.sponsors),
        };
        proof {
            assert(c@ =~= self@);
        }
        c
    }
}

/// Copies a participant ledger element by element.
fn clone_participants(participants: &Vec<Participant>) -> (cloned: Vec<Participant>)
    ensures
        cloned@.map_values(|p: Participant| p@) == participants@.map_values(
            |p: Participant| p@,
        ),
{
    let mut out: Vec<Participant> = Vec::new();
    let mut i: usize = 0;
    while i < participants.len()
        invariant
            i <= participants@.len(),
            out@.len() == i,
            forall|j: int| 0 <= j < i ==> out@[j]@ == participants@[j]@,
        decreases participants@.len() - i,
    {
        out.push(participants[i].clone());
        i = i + 1;
    }
    proof {
        assert(out@.map_values(|p: Participant| p@) =~= participants@.map_values(
            |p: Participant| p@,
        ));
    }
    out
}

/// Copies a sponsorship ledger element by element.
fn clone_sponsors(sponsors: &Vec<Sponsorship>) -> (cloned: Vec<Sponsorship>)
    ensures
        cloned@ == sponsors@,
{
    let mut out: Vec<Sponsorship> = Vec::new();
    let mut i: usize = 0;
    while i < sponsors.len()
        invariant
            i <= sponsors@.len(),
            out@ == sponsors@.subrange(0, i as int),
        decreases sponsors@.len() - i,
    {
        out.push(Sponsorship { sponsor: sponsors[i].sponsor, payment: sponsors[i].payment });
        proof {
            assert(out@ =~= sponsors@.subrange(0, i + 1 as int));
        }
        i = i + 1;
    }
    proof {
        assert(out@ =~= sponsors@);
    }
    out
}

/// A value transfer owed to an account at settlement, together with the
/// prize amount announced in the matching event.
#[derive(Clone, Copy, PartialEq, Eq, Structural, Debug)]
pub struct Payout {
    /// The account to pay.
    pub account: ActorId,
    /// The amount to transfer.
    pub prize: u128,
}

/// Typed, non-fatal errors returned to the caller as part of the reply.
#[derive(Clone, Copy, PartialEq, Eq, Structural, Debug)]
pub enum Error {
    InvalidTimezone { timezone: i8 },
    InvalidStartTime { time: u64, timezone: i8 },
    InvalidEndTime { time: u64, timezone: i8 },
    InvalidTimeRange { start: u64, end: u64 },
    StartTimeNotInFuture { creation: u64, start: u64 },
    FailedToScheduleRecruitmentEnd { id: u64 },
    FailedToScheduleExecutionEnd { id: u64 },
    ChallengeIsNotRecruiting { id: u64, status: ChallengeStatus },
    ChallengeIsNotRecruitingAndNotExecuting { id: u64, status: ChallengeStatus },
    ChallengeIsNotExecuting { id: u64, status: ChallengeStatus },
    NotEnoughFunds { expected: u128, actual: u128 },
    ReplyError,
    SendError,
    RecruitEndedWithNoParticipants { id: u64 },
    InternalMethodCalledExternally,
    ParticipantNotFound { id: u64 },
    ParticipantAlreadyJoined { id: u64 },
}

/// Events announced on success.
#[derive(Clone, Copy, PartialEq, Eq, Structural, Debug)]
pub enum Event {
    ChallengeCreated { id: u64 },
    ChallengeJoined { id: u64 },
    ChallengeSponsored { id: u64 },
    ChallengeRecruitmentEnded { id: u64, status: ChallengeStatus },
    ChallengePrize { id: u64, account: ActorId, prize: u128 },
    ChallengeExecutionEnded { id: u64 },
    ChallengeDailyCompleted { id: u64 },
}

/// Inbound commands. The host supplies the caller account, the attached
/// value, and the current time alongside each command.
#[derive(Debug)]
pub enum Command {
    CreateChallenge { name: String, entry_fee: u128, timezone: i8, start_time: u64, end_time: u64 },
    JoinChallenge { id: u64 },
    SponsorChallenge { id: u64 },
    ChallengeRecruitmentEnded { id: u64 },
    ChallengeExecutionEnded { id: u64 },
    CompleteDaily { id: u64 },
}

/// Base selection of challenge ids for a query.
#[derive(Clone, Copy, PartialEq, Eq, Structural, Debug)]
pub enum ChallengeFilter {
    All,
    Created(ActorId),
    Joined(ActorId),
    Sponsored(ActorId),
}

/// Read-only queries over the registry.
#[derive(Clone, Copy, PartialEq, Eq, Structural, Debug)]
pub enum StateQuery {
    TotalChallengeCount,
    QueryChallenge {
        id: u64,
    },
    QueryChallenges {
        filter: ChallengeFilter,
        include_recruiting: bool,
        include_recruit_failed: bool,
        include_executing: bool,
        include_completed: bool,
        offset: u64,
        count: u64,
    },
}

/// Replies to read-only queries.
#[derive(Debug)]
pub enum StateReply {
    TotalChallengeCount { count: u64 },
    QueryChallenge { challenge: Challenge },
    QueryChallenges { challenges: Vec<Challenge> },
}

} // verus!
