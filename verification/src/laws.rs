//! Laws relating the challenge operations, stated over the step functions
//! that the executable contracts pin down.

use vstd::prelude::*;

use crate::challenge::complete_daily_error;
use crate::challenge::complete_daily_step;
use crate::challenge::created_challenge;
use crate::challenge::creation_error;
use crate::challenge::day_index_of;
use crate::challenge::execution_error;
use crate::challenge::execution_step;
use crate::challenge::first_participant_index;
use crate::challenge::has_participant;
use crate::challenge::join_error;
use crate::challenge::join_step;
use crate::challenge::lemma_participant_total_nonneg;
use crate::challenge::participant_total;
use crate::challenge::payouts_of;
use crate::challenge::payouts_prefix;
use crate::challenge::succeeded_in;
use crate::challenge::succeeded_participants;
use crate::challenge::succeeded_prefix;
use crate::challenge::recruitment_error;
use crate::challenge::recruitment_step;
use crate::challenge::sponsor_error;
use crate::challenge::sponsor_step;
use crate::time::is_local_midnight;
use crate::types::ActorId;
use crate::types::ChallengeStatus;
use crate::types::ChallengeView;
use crate::types::Error;
use crate::types::ParticipantView;
use crate::types::Payout;

verus! {

/// A creation command is accepted exactly when the timezone is in range,
/// both times are local midnights under it, the window is ordered forward,
/// and the start lies strictly after the current time; otherwise the first
/// failing check, in that order, names the error.
pub proof fn lemma_creation_accepted_iff(timezone: i8, start_time: u64, end_time: u64, now: u64)
    ensures
        creation_error(timezone, start_time, end_time, now) is None <==> (-12 <= timezone <= 12
            && is_local_midnight(start_time, timezone) && is_local_midnight(end_time, timezone)
            && start_time < end_time && now < start_time),
        creation_error(timezone, start_time, end_time, now) is None ==> created_challenge(
            0,
            Seq::empty(),
            0,
            timezone,
            start_time,
            end_time,
            0,
            now,
        ).wf(),
{
}

/// Joining twice with the same account is rejected: once a join by `caller`
/// is recorded, any further join attempt by `caller` that attaches
/// sufficient funds fails as a duplicate, and the failed attempt changes
/// nothing.
pub proof fn lemma_rejoin_rejected(
    c: ChallengeView,
    caller: ActorId,
    first_amount: u128,
    second_amount: u128,
)
    requires
        join_error(c, caller, first_amount) is None,
        second_amount >= c.entry_fee,
    ensures
        join_error(join_step(c, caller, first_amount), caller, second_amount) == Some(
            Error::ParticipantAlreadyJoined { id: c.id },
        ),
        join_step(join_step(c, caller, first_amount), caller, second_amount) == join_step(
            c,
            caller,
            first_amount,
        ),
{
    let mid = join_step(c, caller, first_amount);
    assert(mid.participants[c.participants.len() as int].id == caller);
    assert(has_participant(mid.participants, caller));
}

/// Creation establishes the accounting equation: the prize pool of a fresh
/// challenge is zero, the sum of its (empty) ledgers.
pub proof fn lemma_created_accounting(
    id: u64,
    name: Seq<char>,
    entry_fee: u128,
    timezone: i8,
    start_time: u64,
    end_time: u64,
    creator: ActorId,
    now: u64,
)
    ensures
        created_challenge(
            id,
            name,
            entry_fee,
            timezone,
            start_time,
            end_time,
            creator,
            now,
        ).accounting_ok(),
{
}

/// A join attempt, successful or not, keeps the prize pool equal to the sum
/// of all recorded participant and sponsor payments.
pub proof fn lemma_join_preserves_accounting(c: ChallengeView, caller: ActorId, amount: u128)
    requires
        c.accounting_ok(),
        join_error(c, caller, amount) is None ==> c.prize_pool + amount <= u128::MAX,
    ensures
        join_step(c, caller, amount).accounting_ok(),
{
    if join_error(c, caller, amount) is None {
        let entry = ParticipantView { id: caller, payment: amount, completed_days: Seq::empty() };
        assert(c.participants.push(entry).drop_last() =~= c.participants);
    }
}

/// A sponsorship attempt, successful or not, keeps the prize pool equal to
/// the sum of all recorded participant and sponsor payments.
pub proof fn lemma_sponsor_preserves_accounting(c: ChallengeView, caller: ActorId, amount: u128)
    requires
        c.accounting_ok(),
        sponsor_error(c, caller, amount) is None ==> c.prize_pool + amount <= u128::MAX,
    ensures
        sponsor_step(c, caller, amount).accounting_ok(),
{
    if sponsor_error(c, caller, amount) is None {
        let entry = crate::types::Sponsorship { sponsor: caller, payment: amount };
        assert(c.sponsors.push(entry).drop_last() =~= c.sponsors);
    }
}

/// The two self-scheduled transition commands authenticate their sender:
/// from any account other than the program's own address they fail with the
/// authorization error and change nothing.
pub proof fn lemma_internal_commands_authenticated(
    c: ChallengeView,
    sender: ActorId,
    program_id: ActorId,
    execution_scheduled: bool,
)
    requires
        sender != program_id,
    ensures
        recruitment_error(c, sender, program_id, execution_scheduled) == Some(
            Error::InternalMethodCalledExternally,
        ),
        recruitment_step(c, sender, program_id, execution_scheduled) == c,
        execution_error(c, sender, program_id) == Some(Error::InternalMethodCalledExternally),
        execution_step(c, sender, program_id) == c,
{
}

/// Replacing a participant entry with one of the same account does not move
/// the first entry found for any account.
proof fn lemma_first_index_update_same_id(
    participants: Seq<ParticipantView>,
    k: int,
    p: ParticipantView,
    account: ActorId,
)
    requires
        0 <= k < participants.len(),
        p.id == participants[k].id,
    ensures
        first_participant_index(participants.update(k, p), account) == first_participant_index(
            participants,
            account,
        ),
    decreases participants.len(),
{
    let updated = participants.update(k, p);
    if k == 0 {
        assert(updated.drop_first() =~= participants.drop_first());
    } else {
        assert(updated.drop_first() =~= participants.drop_first().update(k - 1, p));
        lemma_first_index_update_same_id(participants.drop_first(), k - 1, p, account);
    }
}

/// Repeating a daily completion on the same simulated day is idempotent:
/// the second delivery is accepted, records nothing new, and leaves the
/// challenge exactly as the first left it.
pub proof fn lemma_complete_daily_idempotent(
    c: ChallengeView,
    caller: ActorId,
    now_first: u64,
    now_second: u64,
)
    requires
        complete_daily_error(c, caller) is None,
        day_index_of(c, now_first) == day_index_of(c, now_second),
    ensures
        complete_daily_error(complete_daily_step(c, caller, now_first), caller) is None,
        complete_daily_step(
            complete_daily_step(c, caller, now_first),
            caller,
            now_second,
        ) == complete_daily_step(c, caller, now_first),
{
    let mid = complete_daily_step(c, caller, now_first);
    let k = first_participant_index(c.participants, caller);
    crate::challenge::lemma_first_index_spec(c.participants, caller);
    let day = day_index_of(c, now_first) as u16;
    let p = c.participants[k];
    if p.completed_days.contains(day) {
    } else {
        let entry = ParticipantView { completed_days: p.completed_days.push(day), ..p };
        lemma_first_index_update_same_id(c.participants, k, entry, caller);
        assert(entry.completed_days[p.completed_days.len() as int] == day);
        assert(entry.completed_days.contains(day));
        assert(mid.participants[k] == entry);
    }
}


/// Sum of the prizes in a payout list.
pub open spec fn payout_total(payouts: Seq<Payout>) -> int
    decreases payouts.len(),
{
    if payouts.len() == 0 {
        0
    } else {
        payout_total(payouts.drop_last()) + payouts.last().prize
    }
}

/// Quotients of a shared positive divisor can be summed: rounding each part
/// down loses at least as much as rounding the sum down.
proof fn lemma_div_sum_le(a: int, b: int, d: int)
    requires
        0 <= a,
        0 <= b,
        0 < d,
    ensures
        a / d + b / d <= (a + b) / d,
{
    let qa = a / d;
    let qb = b / d;
    vstd::arithmetic::div_mod::lemma_fundamental_div_mod(a, d);
    vstd::arithmetic::div_mod::lemma_fundamental_div_mod(b, d);
    vstd::arithmetic::div_mod::lemma_mod_bound(a, d);
    vstd::arithmetic::div_mod::lemma_mod_bound(b, d);
    assert(d * qa <= a);
    assert(d * qb <= b);
    vstd::arithmetic::mul::lemma_mul_is_distributive_add(d, qa, qb);
    assert(d * (qa + qb) <= a + b);
    vstd::arithmetic::div_mod::lemma_div_is_ordered(d * (qa + qb), a + b, d);
    vstd::arithmetic::div_mod::lemma_div_multiples_vanish(qa + qb, d);
}

/// The payouts owed to the first `i` participants stay within the pool's
/// proportional share of the payments they account for.
proof fn lemma_settlement_prefix(c: ChallengeView, total: int, i: int)
    requires
        0 < total,
        0 <= i <= c.participants.len(),
        forall|k: int|
            0 <= k < c.participants.len() && succeeded_in(c, c.participants[k])
                ==> c.prize_pool * c.participants[k].payment <= u128::MAX,
    ensures
        0 <= participant_total(succeeded_prefix(c, i)),
        0 <= payout_total(payouts_prefix(c, total, i)) <= c.prize_pool * participant_total(
            succeeded_prefix(c, i),
        ) / total,
    decreases i,
{
    if i == 0 {
    } else {
        lemma_settlement_prefix(c, total, i - 1);
        let p = c.participants[i - 1];
        let share = participant_total(succeeded_prefix(c, i - 1));
        if succeeded_in(c, p) {
            let prize = c.prize_pool * p.payment / total;
            assert(succeeded_prefix(c, i - 1).push(p).drop_last() =~= succeeded_prefix(c, i - 1));
            assert(payouts_prefix(c, total, i - 1).push(
                Payout { account: p.id, prize: prize as u128 },
            ).drop_last() =~= payouts_prefix(c, total, i - 1));
            vstd::arithmetic::mul::lemma_mul_nonnegative(c.prize_pool as int, p.payment as int);
            vstd::arithmetic::div_mod::lemma_div_pos_is_pos(c.prize_pool * p.payment, total);
            vstd::arithmetic::div_mod::lemma_div_nonincreasing(c.prize_pool * p.payment, total);
            assert(prize as u128 == prize);
            vstd::arithmetic::mul::lemma_mul_nonnegative(c.prize_pool as int, share);
            lemma_div_sum_le(c.prize_pool * share, c.prize_pool * p.payment, total);
            vstd::arithmetic::mul::lemma_mul_is_distributive_add(
                c.prize_pool as int,
                share,
                p.payment as int,
            );
        }
    }
}

/// Settlement never pays out more than the pool holds: each prize is the
/// pool weighted by the winner's payment over all winning payments, rounded
/// down, so the rounding remainder stays with the program.
pub proof fn lemma_settlement_conserves_pool(c: ChallengeView)
    requires
        forall|k: int|
            0 <= k < c.participants.len() && succeeded_in(c, c.participants[k])
                ==> c.prize_pool * c.participants[k].payment <= u128::MAX,
    ensures
        0 <= payout_total(payouts_of(c)) <= c.prize_pool,
{
    let total = participant_total(succeeded_participants(c));
    lemma_participant_total_nonneg(succeeded_participants(c));
    if total > 0 {
        let len = c.participants.len() as int;
        lemma_settlement_prefix(c, total, len);
        vstd::arithmetic::div_mod::lemma_div_multiples_vanish(c.prize_pool as int, total);
        assert(total * c.prize_pool == c.prize_pool * total) by (nonlinear_arith);
    }
}


/// The lifecycle edges a single operation may take: stay put, leave
/// recruitment for failure or execution, or complete an execution.
pub open spec fn status_edge_ok(before: ChallengeStatus, after: ChallengeStatus) -> bool {
    ||| before == after
    ||| (before == ChallengeStatus::Recruiting && (after == ChallengeStatus::RecruitFailed
        || after == ChallengeStatus::Executing))
    ||| (before == ChallengeStatus::Executing && after == ChallengeStatus::Completed)
}

/// The status only ever moves along the lifecycle: no operation leaves a
/// terminal state or skips a phase, so no edge is reversible.
pub proof fn lemma_status_monotone(
    c: ChallengeView,
    account: ActorId,
    amount: u128,
    now: u64,
    program_id: ActorId,
    scheduled: bool,
)
    ensures
        status_edge_ok(c.status, join_step(c, account, amount).status),
        status_edge_ok(c.status, sponsor_step(c, account, amount).status),
        status_edge_ok(c.status, recruitment_step(c, account, program_id, scheduled).status),
        status_edge_ok(c.status, execution_step(c, account, program_id).status),
        status_edge_ok(c.status, complete_daily_step(c, account, now).status),
{
}

} // verus!
