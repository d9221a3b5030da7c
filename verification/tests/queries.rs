use chrono_quest::registry::ChronoQuest;
use chrono_quest::time::calculate_future_day_start;
use chrono_quest::time::is_start_of_day;
use chrono_quest::time::timestamp_to_local_time;
use chrono_quest::types::Challenge;
use chrono_quest::types::ChallengeFilter;
use chrono_quest::types::ChallengeStatus;
use chrono_quest::types::StateQuery;
use chrono_quest::types::StateReply;

const JOINER: u64 = 5;
const OTHER: u64 = 6;
const CREATOR: u64 = 9;
const HOST: u64 = 77;

const DAY: u64 = 86400;

/// Builds a registry with six one-day challenges, ids 0 through 5, all
/// created by CREATOR; OTHER joins every challenge so recruitment can end.
fn populated_registry() -> ChronoQuest {
    let mut registry = ChronoQuest::new();
    let mut id: u64 = 0;
    while id < 6 {
        let outcome = registry.create_challenge(
            format!("challenge {}", id),
            1,
            0,
            DAY,
            2 * DAY,
            CREATOR,
            100,
            true,
        );
        assert!(outcome.is_ok());
        assert!(registry.join_challenge(id, OTHER, 1).is_ok());
        id += 1;
    }
    registry
}

fn listed(reply: StateReply) -> Vec<Challenge> {
    match reply {
        StateReply::QueryChallenges { challenges } => challenges,
        _ => panic!("Expected QueryChallenges variant"),
    }
}

fn ids_of(challenges: &[Challenge]) -> Vec<u64> {
    challenges.iter().map(|c| c.id).collect()
}

#[test]
fn joined_filter_returns_exactly_the_joined_challenges_in_join_order() {
    let mut registry = populated_registry();
    assert!(registry.join_challenge(2, JOINER, 1).is_ok());
    assert!(registry.join_challenge(5, JOINER, 1).is_ok());

    let reply = registry.query_challenges(
        ChallengeFilter::Joined(JOINER),
        true,
        true,
        true,
        true,
        0,
        100,
    );
    let challenges = listed(reply);
    assert_eq!(ids_of(&challenges), vec![2, 5]);
}

#[test]
fn all_filter_lists_every_challenge_in_id_order() {
    let registry = populated_registry();
    let challenges = listed(registry.query_challenges(
        ChallengeFilter::All,
        true,
        true,
        true,
        true,
        0,
        100,
    ));
    assert_eq!(ids_of(&challenges), vec![0, 1, 2, 3, 4, 5]);
}

#[test]
fn created_and_sponsored_filters_use_their_indexes() {
    let mut registry = populated_registry();
    assert!(registry.sponsor_challenge(3, JOINER, 2).is_ok());
    assert!(registry.sponsor_challenge(1, JOINER, 2).is_ok());
    assert!(registry.sponsor_challenge(3, JOINER, 2).is_ok());

    let created = listed(registry.query_challenges(
        ChallengeFilter::Created(CREATOR),
        true,
        true,
        true,
        true,
        0,
        100,
    ));
    assert_eq!(ids_of(&created), vec![0, 1, 2, 3, 4, 5]);

    // one entry per sponsorship, duplicates included, in sponsoring order
    let sponsored = listed(registry.query_challenges(
        ChallengeFilter::Sponsored(JOINER),
        true,
        true,
        true,
        true,
        0,
        100,
    ));
    assert_eq!(ids_of(&sponsored), vec![3, 1, 3]);

    // an account with no recorded entries yields the empty listing
    let none = listed(registry.query_challenges(
        ChallengeFilter::Created(JOINER),
        true,
        true,
        true,
        true,
        0,
        100,
    ));
    assert!(none.is_empty());
}

#[test]
fn status_flags_restrict_the_listing() {
    let mut registry = populated_registry();
    // finish recruitment on ids 0 and 1; complete id 1
    assert!(registry.recruitment_ended(0, HOST, HOST, true).is_ok());
    assert!(registry.recruitment_ended(1, HOST, HOST, true).is_ok());
    assert!(registry.excution_ended(1, HOST, HOST).is_ok());

    let executing = listed(registry.query_challenges(
        ChallengeFilter::All,
        false,
        false,
        true,
        false,
        0,
        100,
    ));
    assert_eq!(ids_of(&executing), vec![0]);

    let completed = listed(registry.query_challenges(
        ChallengeFilter::All,
        false,
        false,
        false,
        true,
        0,
        100,
    ));
    assert_eq!(ids_of(&completed), vec![1]);

    let recruiting = listed(registry.query_challenges(
        ChallengeFilter::All,
        true,
        false,
        false,
        false,
        0,
        100,
    ));
    assert_eq!(ids_of(&recruiting), vec![2, 3, 4, 5]);

    let nothing = listed(registry.query_challenges(
        ChallengeFilter::All,
        false,
        true,
        false,
        false,
        0,
        100,
    ));
    assert!(nothing.is_empty());
}

#[test]
fn pagination_skips_then_takes() {
    let registry = populated_registry();
    let page = listed(registry.query_challenges(ChallengeFilter::All, true, true, true, true, 2, 3));
    assert_eq!(ids_of(&page), vec![2, 3, 4]);

    let tail = listed(registry.query_challenges(ChallengeFilter::All, true, true, true, true, 4, 10));
    assert_eq!(ids_of(&tail), vec![4, 5]);

    // an out-of-range offset yields the empty listing, not an error
    let empty = listed(registry.query_challenges(ChallengeFilter::All, true, true, true, true, 9, 3));
    assert!(empty.is_empty());

    let none = listed(registry.query_challenges(ChallengeFilter::All, true, true, true, true, 0, 0));
    assert!(none.is_empty());
}

#[test]
fn state_routes_every_query() {
    let registry = populated_registry();
    assert!(matches!(
        registry.state(StateQuery::TotalChallengeCount),
        StateReply::TotalChallengeCount { count: 6 }
    ));
    let reply = registry.state(StateQuery::QueryChallenge { id: 4 });
    match reply {
        StateReply::QueryChallenge { challenge } => {
            assert_eq!(challenge.id, 4);
            assert_eq!(challenge.name, "challenge 4");
            assert_eq!(challenge.creator, CREATOR);
        },
        _ => panic!("Expected QueryChallenge variant"),
    }
    let reply = registry.state(StateQuery::QueryChallenges {
        filter: ChallengeFilter::All,
        include_recruiting: true,
        include_recruit_failed: false,
        include_executing: false,
        include_completed: false,
        offset: 1,
        count: 2,
    });
    assert_eq!(ids_of(&listed(reply)), vec![1, 2]);
}

#[test]
fn local_midnight_detection_follows_the_timezone() {
    // UTC midnight is a local midnight only where the offset keeps it on a
    // day boundary
    assert!(is_start_of_day(DAY, 0));
    assert!(!is_start_of_day(DAY + 1, 0));
    assert!(!is_start_of_day(DAY, 8));
    // 16:00 UTC is midnight at offset +8
    assert!(is_start_of_day(DAY - 8 * 3600, 8));
    // 03:00 UTC is midnight at offset -3
    assert!(is_start_of_day(DAY + 3 * 3600, -3));
    // before the epoch in local time, no midnight is reachable
    assert!(!is_start_of_day(100, -12));
}

#[test]
fn local_time_shifts_by_whole_hours() {
    assert_eq!(timestamp_to_local_time(1000, 0), 1000);
    assert_eq!(timestamp_to_local_time(1000, 2), 1000 + 7200);
    assert_eq!(timestamp_to_local_time(1000, -2), 1000 - 7200);
}

#[test]
fn future_day_start_lands_on_local_midnights() {
    // noon UTC on the second day, offset +8: that local day began at 16:00
    // UTC of the first day
    let noon: u64 = DAY + 12 * 3600;
    assert_eq!(calculate_future_day_start(noon, 8, 0), DAY - 8 * 3600);
    assert_eq!(calculate_future_day_start(noon, 8, 1), 2 * DAY - 8 * 3600);
    assert_eq!(calculate_future_day_start(noon, 0, 2), 3 * DAY);
    // every result is a local midnight
    assert!(is_start_of_day(calculate_future_day_start(noon, 8, 3), 8));
}
