//! What a key going down or coming up sets off on the control under it: the
//! bindings that run at once, the hold bindings that start waiting, and
//! whether the waiting ones are called off.

use vstd::prelude::*;
use crate::panels::{ActionBinding, ActionTrigger, Control};

verus! {

/// The positions, in order, of the first `n` bindings that `trigger` runs.
pub open spec fn bound_to(bindings: Seq<ActionBinding>, trigger: ActionTrigger, n: int) -> Seq<usize>
    decreases n,
{
    if n <= 0 {
        Seq::empty()
    } else if bindings[n - 1].gesture == trigger {
        bound_to(bindings, trigger, n - 1).push((n - 1) as usize)
    } else {
        bound_to(bindings, trigger, n - 1)
    }
}

/// The positions and delays, in order, of the hold bindings among the first
/// `n` bindings.
pub open spec fn holds_in(bindings: Seq<ActionBinding>, n: int) -> Seq<(usize, u64)>
    decreases n,
{
    if n <= 0 {
        Seq::empty()
    } else {
        match bindings[n - 1].gesture {
            ActionTrigger::Hold { duration_ms } => holds_in(bindings, n - 1).push(((n - 1) as usize, duration_ms)),
            _ => holds_in(bindings, n - 1),
        }
    }
}

/// What a key event sets off on the control under the key.
#[derive(Debug)]
pub struct GesturePlan {
    /// The bindings to run now, by position.
    pub run_now: Vec<usize>,
    /// The hold bindings to run once their delay passes with the key still
    /// down, by position, with the delay in milliseconds.
    pub schedule_holds: Vec<(usize, u64)>,
    /// Whether the hold bindings still waiting are called off.
    pub cancel_holds: bool,
}

fn positions_bound_to(bindings: &Vec<ActionBinding>, trigger: ActionTrigger) -> (positions: Vec<usize>)
    ensures
        positions@ == bound_to(bindings@, trigger, bindings@.len() as int),
{
    let mut positions: Vec<usize> = Vec::new();
    let mut i: usize = 0;
    while i < bindings.len()
        invariant
            i <= bindings@.len(),
            positions@ == bound_to(bindings@, trigger, i as int),
        decreases bindings.len() - i,
    {
        if bindings[i].gesture == trigger {
            positions.push(i);
        }
        i += 1;
    }
    positions
}

fn hold_positions(bindings: &Vec<ActionBinding>) -> (holds: Vec<(usize, u64)>)
    ensures
        holds@ == holds_in(bindings@, bindings@.len() as int),
{
    let mut holds: Vec<(usize, u64)> = Vec::new();
    let mut i: usize = 0;
    while i < bindings.len()
        invariant
            i <= bindings@.len(),
            holds@ == holds_in(bindings@, i as int),
        decreases bindings.len() - i,
    {
        match bindings[i].gesture {
            ActionTrigger::Hold { duration_ms } => {
                holds.push((i, duration_ms));
            },
            _ => {},
        }
        i += 1;
    }
    holds
}

/// What a key going down (`is_pressed`) or coming up sets off on `control`:
/// a press runs the press bindings and starts the hold bindings waiting; a
/// release runs the release bindings and calls off the holds still waiting.
pub fn gesture_plan(control: &Control, is_pressed: bool) -> (plan: GesturePlan)
    ensures
        plan.run_now@ == bound_to(
            control.action_bindings@,
            if is_pressed {
                ActionTrigger::Press
            } else {
                ActionTrigger::Release
            },
            control.action_bindings@.len() as int,
        ),
        plan.schedule_holds@ == if is_pressed {
            holds_in(control.action_bindings@, control.action_bindings@.len() as int)
        } else {
            Seq::empty()
        },
        plan.cancel_holds == !is_pressed,
{
    if is_pressed {
        GesturePlan {
            run_now: positions_bound_to(&control.action_bindings, ActionTrigger::Press),
            schedule_holds: hold_positions(&control.action_bindings),
            cancel_holds: false,
        }
    } else {
        GesturePlan {
            run_now: positions_bound_to(&control.action_bindings, ActionTrigger::Release),
            schedule_holds: Vec::new(),
            cancel_holds: true,
        }
    }
}

/// Every binding a gesture runs is one bound to that gesture, and comes
/// after the ones before it.
pub proof fn lemma_bound_positions_match(bindings: Seq<ActionBinding>, trigger: ActionTrigger, n: int)
    requires
        0 <= n <= bindings.len(),
        bindings.len() <= usize::MAX,
    ensures
        forall|k: int|
            0 <= k < bound_to(bindings, trigger, n).len() ==> {
                let p = #[trigger] bound_to(bindings, trigger, n)[k];
                p < n && bindings[p as int].gesture == trigger
            },
        forall|k: int, l: int|
            0 <= k < l < bound_to(bindings, trigger, n).len() ==> #[trigger] bound_to(bindings, trigger, n)[k]
                < #[trigger] bound_to(bindings, trigger, n)[l],
        forall|p: int|
            0 <= p < n && bindings[p].gesture == trigger ==> #[trigger] bound_to(bindings, trigger, n).contains(
                p as usize,
            ),
    decreases n,
{
    if n > 0 {
        lemma_bound_positions_match(bindings, trigger, n - 1);
        let rest = bound_to(bindings, trigger, n - 1);
        let all = bound_to(bindings, trigger, n);
        if bindings[n - 1].gesture == trigger {
            assert(all == rest.push((n - 1) as usize));
            assert forall|k: int| 0 <= k < all.len() implies {
                let p = #[trigger] all[k];
                p < n && bindings[p as int].gesture == trigger
            } by {
                if k < rest.len() {
                    assert(all[k] == rest[k]);
                } else {
                    assert(all[k] == (n - 1) as usize);
                    assert(((n - 1) as usize) as int == n - 1);
                }
            }
            assert forall|k: int, l: int| 0 <= k < l < all.len() implies #[trigger] all[k] < #[trigger] all[l] by {
                assert(all[k] == rest[k]);
                if l < rest.len() {
                    assert(all[l] == rest[l]);
                } else {
                    assert(all[l] == (n - 1) as usize);
                    assert(((n - 1) as usize) as int == n - 1);
                    assert(rest[k] < n - 1);
                }
            }
            assert forall|p: int| 0 <= p < n && bindings[p].gesture == trigger implies #[trigger] all.contains(
                p as usize,
            ) by {
                if p == n - 1 {
                    assert(all[rest.len() as int] == (n - 1) as usize);
                } else {
                    assert(rest.contains(p as usize));
                    let k = choose|k: int| 0 <= k < rest.len() && rest[k] == p as usize;
                    assert(all[k] == p as usize);
                }
            }
        } else {
            assert(all == rest);
        }
    }
}

} // verus!
