//! A time-boxed, funds-escrowing group-challenge library.
//!
//! Participants pay an entry fee to join a challenge during a recruitment
//! window; if recruitment succeeds the challenge enters an execution window
//! during which participants self-report daily completions; at the end,
//! participants who completed every day split the accumulated prize pool
//! (entry fees plus sponsor contributions) proportionally to their stake.
//!
//! The library is the pure core: the challenge lifecycle state machine, the
//! registry that indexes challenges for querying, and the local-midnight time
//! arithmetic. The message-passing host that delivers commands, schedules
//! future self-deliveries and executes value transfers is a collaborator:
//! every operation takes the facts the host supplies (caller, attached value,
//! current time, whether a scheduling request was accepted) as plain
//! arguments and returns the effects to perform (events, payouts) as plain
//! data.

pub mod challenge;
pub mod laws;
pub mod registry;
pub mod time;
pub mod types;
