use chrono_quest::types::Challenge;
use chrono_quest::registry::ChronoQuest;
use chrono_quest::types::ChallengeStatus;
use chrono_quest::types::Error;
use chrono_quest::types::Event;
use chrono_quest::types::StateReply;

const ALICE: u64 = 11;
const BOB: u64 = 22;
const CAROL: u64 = 33;
const PROGRAM: u64 = 7;

/// A challenge under timezone 0: midnights are multiples of 86400.
const DAY: u64 = 86400;

fn fetch(registry: &ChronoQuest, id: u64) -> chrono_quest::types::Challenge {
    match registry.query_challenge(id) {
        StateReply::QueryChallenge { challenge } => challenge,
        _ => panic!("Expected QueryChallenge variant"),
    }
}

fn one_day_challenge(registry: &mut ChronoQuest, entry_fee: u128) -> u64 {
    let count = match registry.total_challenge_count() {
        StateReply::TotalChallengeCount { count } => count,
        _ => panic!("Expected TotalChallengeCount variant"),
    };
    let outcome = registry.create_challenge(
        "daily".to_string(),
        entry_fee,
        0,
        DAY,
        2 * DAY,
        ALICE,
        1000,
        true,
    );
    match outcome {
        Ok(Event::ChallengeCreated { id }) => {
            assert_eq!(id, count);
            id
        },
        other => panic!("creation failed: {:?}", other),
    }
}

#[test]
fn creation_validates_in_order() {
    // timezone out of range
    let c = Challenge::new(0, "x".to_string(), 1, 13, DAY, 2 * DAY, ALICE, 0, true);
    assert!(matches!(c, Err(Error::InvalidTimezone { timezone: 13 })));
    // start not a local midnight
    let c = Challenge::new(0, "x".to_string(), 1, 0, DAY + 1, 2 * DAY, ALICE, 0, true);
    assert!(matches!(c, Err(Error::InvalidStartTime { time, timezone: 0 }) if time == DAY + 1));
    // end not a local midnight
    let c = Challenge::new(0, "x".to_string(), 1, 0, DAY, 2 * DAY + 3, ALICE, 0, true);
    assert!(matches!(c, Err(Error::InvalidEndTime { time, timezone: 0 }) if time == 2 * DAY + 3));
    // empty window
    let c = Challenge::new(0, "x".to_string(), 1, 0, DAY, DAY, ALICE, 0, true);
    assert!(matches!(c, Err(Error::InvalidTimeRange { start, end }) if start == DAY && end == DAY));
    // start not in the future
    let c = Challenge::new(0, "x".to_string(), 1, 0, DAY, 2 * DAY, ALICE, DAY, true);
    assert!(matches!(
        c,
        Err(Error::StartTimeNotInFuture { creation, start }) if creation == DAY && start == DAY
    ));
    // scheduling refused by the host
    let c = Challenge::new(4, "x".to_string(), 1, 0, DAY, 2 * DAY, ALICE, 0, false);
    assert!(matches!(c, Err(Error::FailedToScheduleRecruitmentEnd { id: 4 })));
    // everything in order
    let c = Challenge::new(0, "x".to_string(), 1, 0, DAY, 2 * DAY, ALICE, 0, true);
    let challenge = c.expect("valid parameters must be accepted");
    assert_eq!(challenge.status, ChallengeStatus::Recruiting);
    assert_eq!(challenge.prize_pool, 0);
    assert_eq!(challenge.creation_time, 0);
}

#[test]
fn failed_creation_appends_nothing() {
    let mut registry = ChronoQuest::new();
    let outcome = registry.create_challenge(
        "bad".to_string(),
        1,
        99,
        DAY,
        2 * DAY,
        ALICE,
        0,
        true,
    );
    assert!(matches!(outcome, Err(Error::InvalidTimezone { timezone: 99 })));
    assert!(matches!(
        registry.total_challenge_count(),
        StateReply::TotalChallengeCount { count: 0 }
    ));
}

#[test]
fn joining_twice_is_rejected_and_changes_nothing() {
    let mut registry = ChronoQuest::new();
    let id = one_day_challenge(&mut registry, 10);
    assert!(registry.join_challenge(id, BOB, 10).is_ok());
    let before = fetch(&registry, id);

    let second = registry.join_challenge(id, BOB, 25);
    assert!(matches!(second, Err(Error::ParticipantAlreadyJoined { id: 0 })));

    let after = fetch(&registry, id);
    assert_eq!(after.participants.len(), before.participants.len());
    assert_eq!(after.prize_pool, before.prize_pool);
}

#[test]
fn prize_pool_equals_sum_of_payments() {
    let mut registry = ChronoQuest::new();
    let id = one_day_challenge(&mut registry, 5);
    assert!(registry.join_challenge(id, BOB, 7).is_ok());
    assert!(registry.join_challenge(id, CAROL, 5).is_ok());
    assert!(registry.sponsor_challenge(id, ALICE, 9).is_ok());
    assert!(registry.sponsor_challenge(id, ALICE, 6).is_ok());

    let challenge = fetch(&registry, id);
    let participant_sum: u128 = challenge.participants.iter().map(|p| p.payment).sum();
    let sponsor_sum: u128 = challenge.sponsors.iter().map(|s| s.payment).sum();
    assert_eq!(participant_sum, 12);
    assert_eq!(sponsor_sum, 15);
    assert_eq!(challenge.prize_pool, participant_sum + sponsor_sum);
}

#[test]
fn internal_commands_reject_external_senders() {
    let mut registry = ChronoQuest::new();
    let id = one_day_challenge(&mut registry, 1);
    assert!(registry.join_challenge(id, BOB, 1).is_ok());

    let outcome = registry.recruitment_ended(id, BOB, PROGRAM, true);
    assert!(matches!(outcome, Err(Error::InternalMethodCalledExternally)));
    assert_eq!(fetch(&registry, id).status, ChallengeStatus::Recruiting);

    assert!(registry.recruitment_ended(id, PROGRAM, PROGRAM, true).is_ok());
    let outcome = registry.excution_ended(id, CAROL, PROGRAM);
    assert!(matches!(outcome, Err(Error::InternalMethodCalledExternally)));
    assert_eq!(fetch(&registry, id).status, ChallengeStatus::Executing);
}

#[test]
fn sole_successful_participant_takes_the_whole_pool() {
    let mut registry = ChronoQuest::new();
    let id = one_day_challenge(&mut registry, 1);
    assert!(registry.join_challenge(id, BOB, 1).is_ok());
    assert!(registry.sponsor_challenge(id, CAROL, 4).is_ok());
    assert!(registry.recruitment_ended(id, PROGRAM, PROGRAM, true).is_ok());
    assert!(registry.complete_daily(id, BOB, DAY + 30).is_ok());

    let pool = fetch(&registry, id).prize_pool;
    assert_eq!(pool, 5);
    let (_, payouts) = registry.excution_ended(id, PROGRAM, PROGRAM).unwrap();
    assert_eq!(payouts.len(), 1);
    assert_eq!(payouts[0].account, BOB);
    assert_eq!(payouts[0].prize, pool);
}

#[test]
fn settlement_splits_proportionally_and_keeps_the_remainder() {
    let mut registry = ChronoQuest::new();
    let id = one_day_challenge(&mut registry, 3);
    assert!(registry.join_challenge(id, BOB, 3).is_ok());
    assert!(registry.join_challenge(id, CAROL, 5).is_ok());
    assert!(registry.sponsor_challenge(id, ALICE, 3).is_ok());
    assert!(registry.recruitment_ended(id, PROGRAM, PROGRAM, true).is_ok());
    assert!(registry.complete_daily(id, BOB, DAY + 1).is_ok());
    assert!(registry.complete_daily(id, CAROL, DAY + 2).is_ok());

    // pool = 11, successful payments = 8: Bob gets 11*3/8 = 4, Carol 11*5/8 = 6
    let (_, payouts) = registry.excution_ended(id, PROGRAM, PROGRAM).unwrap();
    assert_eq!(payouts.len(), 2);
    assert_eq!((payouts[0].account, payouts[0].prize), (BOB, 4));
    assert_eq!((payouts[1].account, payouts[1].prize), (CAROL, 6));
    assert!(payouts[0].prize + payouts[1].prize <= 11);
}

#[test]
fn incomplete_participants_win_nothing() {
    let mut registry = ChronoQuest::new();
    let id = one_day_challenge(&mut registry, 2);
    assert!(registry.join_challenge(id, BOB, 2).is_ok());
    assert!(registry.join_challenge(id, CAROL, 2).is_ok());
    assert!(registry.recruitment_ended(id, PROGRAM, PROGRAM, true).is_ok());
    // only Carol reports the single execution day
    assert!(registry.complete_daily(id, CAROL, DAY + 5).is_ok());

    let (_, payouts) = registry.excution_ended(id, PROGRAM, PROGRAM).unwrap();
    assert_eq!(payouts.len(), 1);
    assert_eq!(payouts[0].account, CAROL);
    assert_eq!(payouts[0].prize, 4);
}

#[test]
fn no_successful_participant_distributes_nothing() {
    let mut registry = ChronoQuest::new();
    let id = one_day_challenge(&mut registry, 2);
    assert!(registry.join_challenge(id, BOB, 2).is_ok());
    assert!(registry.recruitment_ended(id, PROGRAM, PROGRAM, true).is_ok());

    let (_, payouts) = registry.excution_ended(id, PROGRAM, PROGRAM).unwrap();
    assert!(payouts.is_empty());
    assert_eq!(fetch(&registry, id).status, ChallengeStatus::Completed);
}

#[test]
fn failed_recruitment_blocks_execution_end() {
    let mut registry = ChronoQuest::new();
    let id = one_day_challenge(&mut registry, 1);

    let outcome = registry.recruitment_ended(id, PROGRAM, PROGRAM, true);
    assert!(matches!(outcome, Err(Error::RecruitEndedWithNoParticipants { id: 0 })));
    assert_eq!(fetch(&registry, id).status, ChallengeStatus::RecruitFailed);

    let outcome = registry.excution_ended(id, PROGRAM, PROGRAM);
    assert!(matches!(
        outcome,
        Err(Error::ChallengeIsNotExecuting { id: 0, status: ChallengeStatus::RecruitFailed })
    ));
}

#[test]
fn repeating_a_daily_completion_is_idempotent() {
    let mut registry = ChronoQuest::new();
    let id = one_day_challenge(&mut registry, 1);
    assert!(registry.join_challenge(id, BOB, 1).is_ok());
    assert!(registry.recruitment_ended(id, PROGRAM, PROGRAM, true).is_ok());

    assert!(registry.complete_daily(id, BOB, DAY + 100).is_ok());
    assert_eq!(fetch(&registry, id).participants[0].completed_days, vec![0]);

    // the same simulated day again: accepted, nothing recorded twice
    let again = registry.complete_daily(id, BOB, DAY + 86000);
    assert!(again.is_ok());
    assert_eq!(fetch(&registry, id).participants[0].completed_days, vec![0]);
}

#[test]
fn lifecycle_status_errors_are_reported() {
    let mut registry = ChronoQuest::new();
    let id = one_day_challenge(&mut registry, 2);

    // completing a day before execution starts
    let outcome = registry.complete_daily(id, BOB, DAY);
    assert!(matches!(
        outcome,
        Err(Error::ChallengeIsNotExecuting { id: 0, status: ChallengeStatus::Recruiting })
    ));

    assert!(registry.join_challenge(id, BOB, 2).is_ok());
    assert!(registry.recruitment_ended(id, PROGRAM, PROGRAM, true).is_ok());

    // joining after recruitment closed
    let outcome = registry.join_challenge(id, CAROL, 2);
    assert!(matches!(
        outcome,
        Err(Error::ChallengeIsNotRecruiting { id: 0, status: ChallengeStatus::Executing })
    ));

    // a stranger reporting a day
    let outcome = registry.complete_daily(id, CAROL, DAY + 1);
    assert!(matches!(outcome, Err(Error::ParticipantNotFound { id: 0 })));

    // sponsoring with too little
    let outcome = registry.sponsor_challenge(id, CAROL, 1);
    assert!(matches!(outcome, Err(Error::NotEnoughFunds { expected: 2, actual: 1 })));

    // a second recruitment end on a running challenge
    let outcome = registry.recruitment_ended(id, PROGRAM, PROGRAM, true);
    assert!(matches!(
        outcome,
        Err(Error::ChallengeIsNotRecruiting { id: 0, status: ChallengeStatus::Executing })
    ));

    let (_, _) = registry.excution_ended(id, PROGRAM, PROGRAM).unwrap();

    // sponsoring a completed challenge
    let outcome = registry.sponsor_challenge(id, CAROL, 5);
    assert!(matches!(
        outcome,
        Err(Error::ChallengeIsNotRecruitingAndNotExecuting {
            id: 0,
            status: ChallengeStatus::Completed
        })
    ));
}

#[test]
fn recruitment_end_scheduling_failure_aborts_the_transition() {
    let mut registry = ChronoQuest::new();
    let id = one_day_challenge(&mut registry, 1);
    assert!(registry.join_challenge(id, BOB, 1).is_ok());

    let outcome = registry.recruitment_ended(id, PROGRAM, PROGRAM, false);
    assert!(matches!(outcome, Err(Error::FailedToScheduleExecutionEnd { id: 0 })));
    assert_eq!(fetch(&registry, id).status, ChallengeStatus::Recruiting);

    // the host retries and accepts; the transition then goes through
    assert!(registry.recruitment_ended(id, PROGRAM, PROGRAM, true).is_ok());
    assert_eq!(fetch(&registry, id).status, ChallengeStatus::Executing);
}

#[test]
fn sponsoring_is_allowed_while_executing() {
    let mut registry = ChronoQuest::new();
    let id = one_day_challenge(&mut registry, 1);
    assert!(registry.join_challenge(id, BOB, 1).is_ok());
    assert!(registry.recruitment_ended(id, PROGRAM, PROGRAM, true).is_ok());

    let outcome = registry.sponsor_challenge(id, CAROL, 8);
    assert!(matches!(outcome, Ok(Event::ChallengeSponsored { id: 0 })));
    assert_eq!(fetch(&registry, id).prize_pool, 9);
}

#[test]
fn overpaying_participant_keeps_full_stake() {
    let mut registry = ChronoQuest::new();
    let id = one_day_challenge(&mut registry, 2);
    // the full attached amount is kept, not only the entry fee
    assert!(registry.join_challenge(id, BOB, 9).is_ok());
    let challenge = fetch(&registry, id);
    assert_eq!(challenge.participants[0].payment, 9);
    assert_eq!(challenge.prize_pool, 9);
}
