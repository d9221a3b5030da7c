use chrono_quest::registry::ChronoQuest;
use chrono_quest::time::calculate_future_day_start;
use chrono_quest::types::Command;
use chrono_quest::time::seconds_to_blocks;
use chrono_quest::types::ChallengeStatus;
use chrono_quest::types::Error;
use chrono_quest::types::Event;
use chrono_quest::types::StateReply;

const USER: u64 = 3;
const PROGRAM: u64 = 1000;

/// Mirrors the host: a fixed starting clock, in seconds.
const START_CLOCK: u64 = 1_000_000;

fn setup_challenge(registry: &mut ChronoQuest, recruit_days: u32, execute_days: u32) -> (u64, u64) {
    let start_time = calculate_future_day_start(START_CLOCK, 8, recruit_days);
    let end_time = calculate_future_day_start(START_CLOCK, 8, recruit_days + execute_days);
    let outcome = registry.create_challenge(
        "test".to_string(),
        1,
        8,
        start_time,
        end_time,
        USER,
        START_CLOCK,
        true,
    );
    assert!(matches!(outcome, Ok(Event::ChallengeCreated { id: 0 })));
    (start_time, end_time)
}

fn challenge_of(reply: StateReply) -> chrono_quest::types::Challenge {
    match reply {
        StateReply::QueryChallenge { challenge } => challenge,
        _ => panic!("Expected QueryChallenge variant"),
    }
}

#[test]
fn test_create_challenge() {
    let mut registry = ChronoQuest::new();
    setup_challenge(&mut registry, 1, 1);
}

#[test]
fn test_challenge_recruitment_ended_with_no_participants() {
    let mut registry = ChronoQuest::new();
    let (start_time, _) = setup_challenge(&mut registry, 1, 1);

    let challenge = challenge_of(registry.query_challenge(0));
    assert!(START_CLOCK < challenge.start_time && challenge.start_time == start_time);

    // The host delivers the self-scheduled recruitment end at start_time.
    let outcome = registry.recruitment_ended(0, PROGRAM, PROGRAM, true);
    assert!(matches!(outcome, Err(Error::RecruitEndedWithNoParticipants { id: 0 })));

    let challenge = challenge_of(registry.query_challenge(0));
    assert_eq!(challenge.status, ChallengeStatus::RecruitFailed);
}

#[test]
fn test_challenge() {
    let mut registry = ChronoQuest::new();
    let (start_time, end_time) = setup_challenge(&mut registry, 1, 1);

    // join challenge with an attached value of 1
    let outcome = registry.join_challenge(0, USER, 1);
    assert!(matches!(outcome, Ok(Event::ChallengeJoined { id: 0 })));

    let challenge = challenge_of(registry.query_challenge(0));
    assert_eq!(challenge.status, ChallengeStatus::Recruiting);
    assert!(challenge.participants.iter().any(|p| p.id == USER));

    // the host delivers the recruitment end at start_time
    let outcome = registry.recruitment_ended(0, PROGRAM, PROGRAM, true);
    assert!(matches!(
        outcome,
        Ok(Event::ChallengeRecruitmentEnded { id: 0, status: ChallengeStatus::Executing })
    ));
    let challenge = challenge_of(registry.query_challenge(0));
    assert_eq!(challenge.status, ChallengeStatus::Executing);

    // complete daily during the first execution day
    let outcome = registry.complete_daily(0, USER, start_time + 60);
    assert!(matches!(outcome, Ok(Event::ChallengeDailyCompleted { id: 0 })));
    let challenge = challenge_of(registry.query_challenge(0));
    assert!(challenge.participants[0].completed_days[0] == 0);

    // the host delivers the execution end at end_time
    let outcome = registry.excution_ended(0, PROGRAM, PROGRAM);
    let (event, payouts) = outcome.expect("execution end must succeed");
    assert!(matches!(event, Event::ChallengeExecutionEnded { id: 0 }));
    let challenge = challenge_of(registry.query_challenge(0));
    assert!(challenge.status == ChallengeStatus::Completed);
    assert!(end_time > start_time);

    // the sole successful participant is paid out
    assert_eq!(payouts.len(), 1);
    assert!(payouts[0].account == USER && payouts[0].prize > 0);
}

#[test]
fn test_join_challenge_fails_with_insufficient_fee() {
    let mut registry = ChronoQuest::new();
    setup_challenge(&mut registry, 1, 1);

    // join with no attached value
    let outcome = registry.join_challenge(0, USER, 0);
    assert!(matches!(outcome, Err(Error::NotEnoughFunds { expected: 1, actual: 0 })));

    let challenge = challenge_of(registry.query_challenge(0));
    assert!(!challenge.participants.iter().any(|p| p.id == USER));
    assert_eq!(challenge.status, ChallengeStatus::Recruiting);
}

#[test]
fn recruitment_delay_covers_the_window() {
    // one local day of recruitment is scheduled as ceil(86400 / 3) blocks
    assert_eq!(seconds_to_blocks(60 * 60 * 24), 28800);
    assert_eq!(seconds_to_blocks(0), 0);
    assert_eq!(seconds_to_blocks(1), 1);
    assert_eq!(seconds_to_blocks(3), 1);
    assert_eq!(seconds_to_blocks(4), 2);
}

#[test]
fn handle_routes_commands_and_returns_payouts() {
    let mut registry = ChronoQuest::new();
    let (start_time, end_time) = setup_challenge(&mut registry, 1, 1);

    let (reply, payouts) = registry.handle(
        Command::CreateChallenge {
            name: "second".to_string(),
            entry_fee: 2,
            timezone: 8,
            start_time,
            end_time,
        },
        USER,
        0,
        START_CLOCK,
        PROGRAM,
        true,
    );
    assert!(matches!(reply, Ok(Event::ChallengeCreated { id: 1 })));
    assert!(payouts.is_empty());

    let (reply, _) = registry.handle(
        Command::JoinChallenge { id: 1 },
        USER,
        2,
        START_CLOCK,
        PROGRAM,
        false,
    );
    assert!(matches!(reply, Ok(Event::ChallengeJoined { id: 1 })));

    // the execution-end delay the host must schedule covers one local day
    let challenge = challenge_of(registry.query_challenge(1));
    assert_eq!(challenge.execution_delay(), seconds_to_blocks(end_time - start_time));

    let (reply, _) = registry.handle(
        Command::ChallengeRecruitmentEnded { id: 1 },
        PROGRAM,
        0,
        start_time,
        PROGRAM,
        true,
    );
    assert!(matches!(
        reply,
        Ok(Event::ChallengeRecruitmentEnded { id: 1, status: ChallengeStatus::Executing })
    ));

    let (reply, _) = registry.handle(
        Command::CompleteDaily { id: 1 },
        USER,
        0,
        start_time + 10,
        PROGRAM,
        false,
    );
    assert!(matches!(reply, Ok(Event::ChallengeDailyCompleted { id: 1 })));

    let (reply, payouts) = registry.handle(
        Command::ChallengeExecutionEnded { id: 1 },
        PROGRAM,
        0,
        end_time,
        PROGRAM,
        false,
    );
    assert!(matches!(reply, Ok(Event::ChallengeExecutionEnded { id: 1 })));
    assert_eq!(payouts.len(), 1);
    assert!(payouts[0].account == USER && payouts[0].prize == 2);
}
