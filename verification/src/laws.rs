//! What holds of every run of the monitor.
//!
//! A run is a state and the polls that follow it, each poll with the time
//! at which it was made. The polls are taken into account one after the
//! other, as the loop that owns the state does.

use vstd::prelude::*;
use crate::address::Address;
use crate::machine::{outcome_of, state_after, step_after, Outcome, Resolution};
use crate::state::{Config, MonitoringState};

verus! {

/// The state after all of `polls`.
pub open spec fn state_after_all(
    state: MonitoringState,
    config: Config,
    polls: Seq<(Resolution, u64)>,
) -> MonitoringState
    decreases polls.len(),
{
    if polls.len() == 0 {
        state
    } else {
        state_after_all(
            state_after(state, config, polls[0].0, polls[0].1),
            config,
            polls.drop_first(),
        )
    }
}

/// How many of `polls` announce a change of address.
pub open spec fn changes(
    state: MonitoringState,
    config: Config,
    polls: Seq<(Resolution, u64)>,
) -> nat
    decreases polls.len(),
{
    if polls.len() == 0 {
        0
    } else {
        let rest = changes(
            state_after(state, config, polls[0].0, polls[0].1),
            config,
            polls.drop_first(),
        );
        if outcome_of(state, polls[0].0, polls[0].1) is Changed {
            rest + 1
        } else {
            rest
        }
    }
}

/// How many of `polls` give rise to a reminder that nothing changed.
pub open spec fn reminders(
    state: MonitoringState,
    config: Config,
    polls: Seq<(Resolution, u64)>,
) -> nat
    decreases polls.len(),
{
    if polls.len() == 0 {
        0
    } else {
        let rest = reminders(
            state_after(state, config, polls[0].0, polls[0].1),
            config,
            polls.drop_first(),
        );
        if outcome_of(state, polls[0].0, polls[0].1) is Escalated {
            rest + 1
        } else {
            rest
        }
    }
}

/// How many of `polls` confirm the address without a reminder.
pub open spec fn quiet_polls(
    state: MonitoringState,
    config: Config,
    polls: Seq<(Resolution, u64)>,
) -> nat
    decreases polls.len(),
{
    if polls.len() == 0 {
        0
    } else {
        let rest = quiet_polls(
            state_after(state, config, polls[0].0, polls[0].1),
            config,
            polls.drop_first(),
        );
        if outcome_of(state, polls[0].0, polls[0].1) is Quiet {
            rest + 1
        } else {
            rest
        }
    }
}

/// What the poll at `index` leads to, after the polls before it.
pub open spec fn outcome_at(
    state: MonitoringState,
    config: Config,
    polls: Seq<(Resolution, u64)>,
    index: int,
) -> Outcome {
    outcome_of(
        state_after_all(state, config, polls.take(index)),
        polls[index].0,
        polls[index].1,
    )
}

/// Whether no poll finds an address other than `address`: each one fails
/// or finds `address`.
pub open spec fn confirming(polls: Seq<(Resolution, u64)>, address: Address) -> bool {
    forall|i: int|
        0 <= i < polls.len() ==> (#[trigger] polls[i]).0 is Failed || polls[i].0
            == Resolution::Resolved(address)
}

/// The sum of `count` steps in a row, the first of them `first`.
pub open spec fn steps_sum(first: nat, count: nat) -> nat
    decreases count,
{
    if count == 0 {
        0
    } else {
        first + steps_sum(first + 1, (count - 1) as nat)
    }
}

/// The sum of the numbers from one to `n`.
pub open spec fn triangle(n: nat) -> nat {
    n * (n + 1) / 2
}

/// The sum of steps in a row, in closed form.
pub proof fn lemma_steps_sum(first: nat, count: nat)
    ensures
        2 * steps_sum(first, count) == count * (2 * first + count - 1),
    decreases count,
{
    let f = first as int;
    let c = count as int;
    if count == 0 {
        assert(c * (2 * f + c - 1) == 0) by (nonlinear_arith)
            requires
                c == 0,
        ;
    } else {
        lemma_steps_sum(first + 1, (count - 1) as nat);
        let rest = steps_sum(first + 1, (count - 1) as nat) as int;
        assert(2 * (f + rest) == c * (2 * f + c - 1)) by (nonlinear_arith)
            requires
                2 * rest == (c - 1) * (2 * (f + 1) + (c - 1) - 1),
        ;
    }
}

/// The steps from one to `n` add up to the sum of the numbers from one to
/// `n`.
pub proof fn lemma_steps_sum_from_one(n: nat)
    ensures
        steps_sum(1, n) == triangle(n),
{
    lemma_steps_sum(1, n);
    assert(n * (2 * 1 + n - 1) == n * (n + 1)) by (nonlinear_arith);
}

/// While every poll fails or finds the address on record, no change is
/// announced, and the address and the time of its last change stay on
/// record as they are.
pub proof fn lemma_no_change_while_confirmed(
    state: MonitoringState,
    config: Config,
    polls: Seq<(Resolution, u64)>,
    address: Address,
)
    requires
        state.last_address == Some(address),
        confirming(polls, address),
    ensures
        changes(state, config, polls) == 0,
        state_after_all(state, config, polls).last_address == Some(address),
        state_after_all(state, config, polls).last_change_at == state.last_change_at,
    decreases polls.len(),
{
    if polls.len() > 0 {
        let next = state_after(state, config, polls[0].0, polls[0].1);
        let rest = polls.drop_first();
        assert(polls[0].0 is Failed || polls[0].0 == Resolution::Resolved(address));
        assert forall|i: int| 0 <= i < rest.len() implies (#[trigger] rest[i]).0 is Failed
            || rest[i].0 == Resolution::Resolved(address) by {
            assert(rest[i] == polls[i + 1]);
        }
        lemma_no_change_while_confirmed(next, config, rest, address);
    }
}

/// A poll that finds an address other than the one on record announces
/// that change and nothing else, puts the new address on record with the
/// time of the poll, and returns the step to one and the budget to the
/// base threshold, whatever the budget and the step were before.
pub proof fn lemma_change_resets(
    state: MonitoringState,
    config: Config,
    address: Address,
    now: u64,
)
    requires
        state.last_address != Some(address),
    ensures
        outcome_of(state, Resolution::Resolved(address), now) is Changed,
        outcome_of(state, Resolution::Resolved(address), now)->Changed_address == address,
        state_after(state, config, Resolution::Resolved(address), now) == (MonitoringState {
            last_address: Some(address),
            last_change_at: now,
            stagnation_budget: config.base_threshold,
            escalation_step: 1,
        }),
        changes(state, config, seq![(Resolution::Resolved(address), now)]) == 1,
        reminders(state, config, seq![(Resolution::Resolved(address), now)]) == 0,
{
    let polls = seq![(Resolution::Resolved(address), now)];
    assert(polls.drop_first() =~= Seq::<(Resolution, u64)>::empty());
    let next = state_after(state, config, polls[0].0, polls[0].1);
    assert(changes(next, config, polls.drop_first()) == 0);
    assert(reminders(next, config, polls.drop_first()) == 0);
}

/// Failed polls leave the state as it is, however many there are.
pub proof fn lemma_failures_change_nothing(
    state: MonitoringState,
    config: Config,
    polls: Seq<(Resolution, u64)>,
)
    requires
        forall|i: int| 0 <= i < polls.len() ==> (#[trigger] polls[i]).0 is Failed,
    ensures
        state_after_all(state, config, polls) == state,
        changes(state, config, polls) == 0,
        reminders(state, config, polls) == 0,
    decreases polls.len(),
{
    if polls.len() > 0 {
        let rest = polls.drop_first();
        assert(polls[0].0 is Failed);
        assert forall|i: int| 0 <= i < rest.len() implies (#[trigger] rest[i]).0 is Failed by {
            assert(rest[i] == polls[i + 1]);
        }
        lemma_failures_change_nothing(state, config, rest);
    }
}

/// Every poll is counted once at most: the quiet polls and the reminders of
/// a run together are no more than its polls. And the time that the quiet
/// polls account for covers the budget that was left at the start of the
/// run and every budget that a reminder but the last one set.
///
/// The second part is stated of runs in which no budget exceeds the
/// largest duration there is.
pub proof fn lemma_budgets_used_up(
    state: MonitoringState,
    config: Config,
    polls: Seq<(Resolution, u64)>,
    address: Address,
)
    requires
        state.last_address == Some(address),
        confirming(polls, address),
        reminders(state, config, polls) >= 1 ==> config.base_threshold * (state.escalation_step
            + reminders(state, config, polls) - 1) <= u64::MAX,
    ensures
        quiet_polls(state, config, polls) + reminders(state, config, polls) <= polls.len(),
        reminders(state, config, polls) >= 1 ==> quiet_polls(state, config, polls)
            * config.tick_interval >= state.stagnation_budget + config.base_threshold * steps_sum(
            state.escalation_step as nat + 1,
            (reminders(state, config, polls) - 1) as nat,
        ),
    decreases polls.len(),
{
    if polls.len() > 0 {
        let base = config.base_threshold as int;
        let tick = config.tick_interval as int;
        let step = state.escalation_step as int;
        let n = reminders(state, config, polls) as int;
        let next = state_after(state, config, polls[0].0, polls[0].1);
        let rest = polls.drop_first();
        let m = reminders(next, config, rest) as int;
        let quiet = quiet_polls(next, config, rest) as int;
        assert(polls[0].0 is Failed || polls[0].0 == Resolution::Resolved(address));
        assert forall|i: int| 0 <= i < rest.len() implies (#[trigger] rest[i]).0 is Failed
            || rest[i].0 == Resolution::Resolved(address) by {
            assert(rest[i] == polls[i + 1]);
        }
        match outcome_of(state, polls[0].0, polls[0].1) {
            Outcome::Escalated { .. } => {
                assert(n == m + 1);
                if m >= 1 {
                    assert(base * (step + 1) <= base * (step + m)) by (nonlinear_arith)
                        requires
                            base >= 0,
                            m >= 1,
                    ;
                    if base > 0 {
                        assert(step + m <= base * (step + m)) by (nonlinear_arith)
                            requires
                                base >= 1,
                                step + m >= 0,
                        ;
                        assert(step_after(state.escalation_step) == step + 1);
                        assert(next.stagnation_budget == base * (step + 1));
                        lemma_budgets_used_up(next, config, rest, address);
                        assert(base * steps_sum((step + 1) as nat, m as nat) == base * (step + 1)
                            + base * steps_sum((step + 2) as nat, (m - 1) as nat))
                            by (nonlinear_arith)
                            requires
                                steps_sum((step + 1) as nat, m as nat) == (step + 1) + steps_sum(
                                    (step + 2) as nat,
                                    (m - 1) as nat,
                                ),
                        ;
                    } else {
                        assert(base * (next.escalation_step + m - 1) == 0) by (nonlinear_arith)
                            requires
                                base == 0,
                        ;
                        lemma_budgets_used_up(next, config, rest, address);
                        assert(base * steps_sum((step + 1) as nat, m as nat) == 0)
                            by (nonlinear_arith)
                            requires
                                base == 0,
                        ;
                    }
                } else {
                    lemma_budgets_used_up(next, config, rest, address);
                    assert(base * steps_sum((step + 1) as nat, 0) == 0) by (nonlinear_arith)
                        requires
                            steps_sum((step + 1) as nat, 0) == 0,
                    ;
                    assert(quiet * tick >= 0) by (nonlinear_arith)
                        requires
                            quiet >= 0,
                            tick >= 0,
                    ;
                }
            },
            Outcome::Quiet => {
                assert(n == m);
                lemma_budgets_used_up(next, config, rest, address);
                assert((quiet + 1) * tick == quiet * tick + tick) by (nonlinear_arith);
            },
            _ => {
                lemma_budgets_used_up(next, config, rest, address);
            },
        }
    }
}

/// A poll that gives rise to a reminder is counted among the reminders of
/// the run up to it.
pub proof fn lemma_reminder_counted(
    state: MonitoringState,
    config: Config,
    polls: Seq<(Resolution, u64)>,
    index: int,
)
    requires
        0 <= index < polls.len(),
        outcome_at(state, config, polls, index) is Escalated,
    ensures
        reminders(state, config, polls.take(index + 1)) >= 1,
    decreases index,
{
    let upto = polls.take(index + 1);
    assert(upto[0] == polls[0]);
    if index == 0 {
        assert(polls.take(0) =~= Seq::<(Resolution, u64)>::empty());
    } else {
        let next = state_after(state, config, polls[0].0, polls[0].1);
        let rest = polls.drop_first();
        let before = polls.take(index);
        assert(before[0] == polls[0]);
        assert(before.drop_first() =~= rest.take(index - 1));
        assert(rest[index - 1] == polls[index]);
        lemma_reminder_counted(next, config, rest, index - 1);
        assert(upto.drop_first() =~= rest.take(index));
    }
}

/// No reminder comes before the budget is used up. Take a run in which
/// the address stays as it is. If the poll at `index` gives rise to a
/// reminder, the polls before it are enough to let the budget pass that
/// was left when the run started. Right after the `k`-th reminder that
/// budget is `k + 1` base thresholds, so the gaps between reminders grow
/// by one base threshold each time.
pub proof fn lemma_gap_before_reminder(
    state: MonitoringState,
    config: Config,
    polls: Seq<(Resolution, u64)>,
    address: Address,
    index: int,
)
    requires
        state.last_address == Some(address),
        confirming(polls, address),
        0 <= index < polls.len(),
        outcome_at(state, config, polls, index) is Escalated,
    ensures
        index * config.tick_interval >= state.stagnation_budget,
    decreases index,
{
    let tick = config.tick_interval as int;
    assert(polls[0].0 is Failed || polls[0].0 == Resolution::Resolved(address));
    if index == 0 {
        assert(polls.take(0) =~= Seq::<(Resolution, u64)>::empty());
    } else {
        let next = state_after(state, config, polls[0].0, polls[0].1);
        let rest = polls.drop_first();
        let before = polls.take(index);
        assert(before[0] == polls[0]);
        assert(before.drop_first() =~= rest.take(index - 1));
        assert(rest[index - 1] == polls[index]);
        assert forall|i: int| 0 <= i < rest.len() implies (#[trigger] rest[i]).0 is Failed
            || rest[i].0 == Resolution::Resolved(address) by {
            assert(rest[i] == polls[i + 1]);
        }
        lemma_gap_before_reminder(next, config, rest, address, index - 1);
        assert(index * tick == (index - 1) * tick + tick) by (nonlinear_arith);
        assert((index - 1) * tick >= 0) by (nonlinear_arith)
            requires
                index >= 1,
                tick >= 0,
        ;
    }
}

/// Reminders come at growing intervals: after a change, the first one is
/// due no sooner than one base threshold later, the second no sooner than
/// two more, and so on. So in a run that starts right after a change and
/// holds `n` reminders, the polls that are no reminders are enough to let
/// `base_threshold * (1 + 2 + ... + n)` seconds pass.
///
/// This is stated of runs in which no budget exceeds the largest duration
/// there is.
pub proof fn lemma_reminders_spaced(
    state: MonitoringState,
    config: Config,
    polls: Seq<(Resolution, u64)>,
    address: Address,
)
    requires
        state.last_address == Some(address),
        state.escalation_step == 1,
        state.stagnation_budget == config.base_threshold,
        confirming(polls, address),
        config.base_threshold * reminders(state, config, polls) <= u64::MAX,
    ensures
        reminders(state, config, polls) <= polls.len(),
        (polls.len() - reminders(state, config, polls)) * config.tick_interval
            >= config.base_threshold * triangle(reminders(state, config, polls)),
        polls.len() * config.tick_interval >= config.base_threshold * triangle(
            reminders(state, config, polls),
        ),
{
    let base = config.base_threshold as int;
    let tick = config.tick_interval as int;
    let n = reminders(state, config, polls);
    let quiet = quiet_polls(state, config, polls) as int;
    let len = polls.len() as int;
    lemma_budgets_used_up(state, config, polls, address);
    lemma_steps_sum_from_one(n);
    assert(quiet * tick <= (len - n) * tick && (len - n) * tick <= len * tick)
        by (nonlinear_arith)
        requires
            0 <= quiet <= len - n,
            0 <= n,
            tick >= 0,
    ;
    if n >= 1 {
        let tail = steps_sum(2, (n - 1) as nat);
        assert(steps_sum(1, n) == 1 + tail);
        assert(base * (1 + tail) == base + base * tail) by (nonlinear_arith);
    } else {
        assert(base * triangle(n) == 0) by (nonlinear_arith)
            requires
                triangle(n) == 0,
        ;
        assert((len - n) * tick >= 0) by (nonlinear_arith)
            requires
                len - n >= 0,
                tick >= 0,
        ;
    }
}

/// No reminder comes early. Take a run that starts right after a change, in
/// which the address stays as it is and the polls are an interval apart or
/// more, so that the poll at `index` is made no sooner than `index`
/// intervals after the change. If that poll gives rise to a reminder, the
/// `n`-th of the run, the time that the reminder reports since the change
/// is at least `base_threshold * (1 + 2 + ... + n)`.
///
/// This is stated of runs in which no budget exceeds the largest duration
/// there is.
pub proof fn lemma_reminder_not_early(
    state: MonitoringState,
    config: Config,
    polls: Seq<(Resolution, u64)>,
    address: Address,
    index: int,
)
    requires
        state.last_address == Some(address),
        state.escalation_step == 1,
        state.stagnation_budget == config.base_threshold,
        confirming(polls, address),
        0 <= index < polls.len(),
        polls[index].1 >= state.last_change_at + index * config.tick_interval,
        outcome_at(state, config, polls, index) is Escalated,
        config.base_threshold * reminders(state, config, polls.take(index + 1)) <= u64::MAX,
    ensures
        reminders(state, config, polls.take(index + 1)) >= 1,
        outcome_at(state, config, polls, index)->Escalated_elapsed >= config.base_threshold
            * triangle(reminders(state, config, polls.take(index + 1))),
{
    let before = polls.take(index);
    let upto = polls.take(index + 1);
    let tick = config.tick_interval as int;
    let n = reminders(state, config, upto) as int;
    assert forall|i: int| 0 <= i < before.len() implies (#[trigger] before[i]).0 is Failed
        || before[i].0 == Resolution::Resolved(address) by {
        assert(before[i] == polls[i]);
    }
    assert forall|i: int| 0 <= i < upto.len() implies (#[trigger] upto[i]).0 is Failed
        || upto[i].0 == Resolution::Resolved(address) by {
        assert(upto[i] == polls[i]);
    }
    lemma_no_change_while_confirmed(state, config, before, address);
    lemma_reminder_counted(state, config, polls, index);
    lemma_reminders_spaced(state, config, upto, address);
    assert((index + 1 - n) * tick <= index * tick) by (nonlinear_arith)
        requires
            n >= 1,
            tick >= 0,
    ;
}

} // verus!
