//! The structural mutation API: inserting and removing steps, and adding
//! and removing dependency edges, keeping every edge consistent across
//! the index shifts that an insertion or removal causes.
//!
//! Every operation validates before mutating: a rejected call leaves the
//! event untouched.

use vstd::pervasive::VecAdditionalExecFns;
use vstd::prelude::*;

use crate::errors::MutationError;
use crate::model::{ActorV, Event, EventV, Step, StepRef, WaitFor};

verus! {

/// The edge's waiting endpoint is the coordinate (a, s).
pub open spec fn is_waiting_at(w: WaitFor, a: int, s: int) -> bool {
    w.waiting.actor_idx as int == a && w.waiting.step_idx as int == s
}

/// The edge's depended-upon endpoint is the coordinate (a, s).
pub open spec fn is_waiting_on(w: WaitFor, a: int, s: int) -> bool {
    w.waiting_on.actor_idx as int == a && w.waiting_on.step_idx as int == s
}

/// Either endpoint of the edge is the coordinate (a, s).
pub open spec fn touches(w: WaitFor, a: int, s: int) -> bool {
    is_waiting_at(w, a, s) || is_waiting_on(w, a, s)
}

/// The edge list with every edge waiting at (a, s) dropped; the order of
/// the remaining edges is kept.
pub open spec fn edges_without_waiting(ws: Seq<WaitFor>, a: int, s: int) -> Seq<WaitFor>
    decreases ws.len(),
{
    if ws.len() == 0 {
        Seq::empty()
    } else {
        let rest = edges_without_waiting(ws.drop_last(), a, s);
        if is_waiting_at(ws.last(), a, s) {
            rest
        } else {
            rest.push(ws.last())
        }
    }
}

/// An endpoint after the step (a, s) was removed: later steps of the same
/// actor slide down by one.
pub open spec fn shift_ref_down(r: StepRef, a: int, s: int) -> StepRef {
    if r.actor_idx as int == a && r.step_idx as int > s {
        StepRef { actor_idx: r.actor_idx, step_idx: (r.step_idx - 1) as u16 }
    } else {
        r
    }
}

/// An endpoint after a step was inserted at (a, s): steps at or after the
/// insertion point slide up by one.
pub open spec fn shift_ref_up(r: StepRef, a: int, s: int) -> StepRef {
    if r.actor_idx as int == a && r.step_idx as int >= s {
        StepRef { actor_idx: r.actor_idx, step_idx: (r.step_idx + 1) as u16 }
    } else {
        r
    }
}

/// Both endpoints of an edge after the step (a, s) was removed.
pub open spec fn shift_edge_down(w: WaitFor, a: int, s: int) -> WaitFor {
    WaitFor { waiting: shift_ref_down(w.waiting, a, s), waiting_on: shift_ref_down(w.waiting_on, a, s) }
}

/// Both endpoints of an edge after a step was inserted at (a, s).
pub open spec fn shift_edge_up(w: WaitFor, a: int, s: int) -> WaitFor {
    WaitFor { waiting: shift_ref_up(w.waiting, a, s), waiting_on: shift_ref_up(w.waiting_on, a, s) }
}

/// The edge list after the step (a, s) was removed: every edge touching
/// the removed coordinate is deleted, and the endpoints of the surviving
/// edges slide down past it.
pub open spec fn edges_after_remove_step(ws: Seq<WaitFor>, a: int, s: int) -> Seq<WaitFor>
    decreases ws.len(),
{
    if ws.len() == 0 {
        Seq::empty()
    } else {
        let rest = edges_after_remove_step(ws.drop_last(), a, s);
        if touches(ws.last(), a, s) {
            rest
        } else {
            rest.push(shift_edge_down(ws.last(), a, s))
        }
    }
}

/// Removing a step never leaves a dangling edge: every surviving edge is
/// the shifted image of an edge that did not touch the removed
/// coordinate.  In particular an edge whose depended-upon endpoint was
/// removed is deleted, never kept pointing nowhere.
pub proof fn lemma_cascading_deletion(ws: Seq<WaitFor>, a: int, s: int)
    ensures
        forall|i: int|
            0 <= i < edges_after_remove_step(ws, a, s).len() ==> exists|j: int|
                0 <= j < ws.len() && !touches(ws[j], a, s) && #[trigger] edges_after_remove_step(
                    ws,
                    a,
                    s,
                )[i] == shift_edge_down(ws[j], a, s),
    decreases ws.len(),
{
    if ws.len() > 0 {
        lemma_cascading_deletion(ws.drop_last(), a, s);
        let rest = edges_after_remove_step(ws.drop_last(), a, s);
        let out = edges_after_remove_step(ws, a, s);
        assert forall|i: int| 0 <= i < out.len() implies exists|j: int|
            0 <= j < ws.len() && !touches(ws[j], a, s) && #[trigger] out[i] == shift_edge_down(
                ws[j],
                a,
                s,
            ) by {
            if i < rest.len() {
                let j = choose|j: int|
                    0 <= j < ws.drop_last().len() && !touches(ws.drop_last()[j], a, s)
                        && rest[i] == shift_edge_down(ws.drop_last()[j], a, s);
                assert(ws[j] == ws.drop_last()[j]);
                assert(out[i] == shift_edge_down(ws[j], a, s));
            } else {
                assert(out[i] == shift_edge_down(ws[ws.len() - 1], a, s));
            }
        }
    }
}

impl Event {
    /// Deletes every dependency edge of the event.
    pub fn remove_all_waits(&mut self)
        ensures
            final(self).deep_view() == (EventV {
                wait_fors: Seq::empty(),
                ..old(self).deep_view()
            }),
    {
        self.wait_fors.clear();
    }

    /// Deletes any edge whose waiting endpoint is (actoridx, stepidx);
    /// doing nothing when none exists is not an error.
    pub fn remove_waiting(&mut self, actoridx: usize, stepidx: usize)
        ensures
            final(self).deep_view() == (EventV {
                wait_fors: edges_without_waiting(
                    old(self).deep_view().wait_fors,
                    actoridx as int,
                    stepidx as int,
                ),
                ..old(self).deep_view()
            }),
    {
        let ghost ws = self.wait_fors@;
        let ghost a = actoridx as int;
        let ghost s = stepidx as int;
        let n = self.wait_fors.len();
        let mut kept: Vec<WaitFor> = Vec::new();
        let mut i: usize = 0;
        while i < n
            invariant
                n == ws.len(),
                i <= n,
                self.wait_fors@ == ws,
                a == actoridx as int,
                s == stepidx as int,
                kept@ == edges_without_waiting(ws.take(i as int), a, s),
            decreases n - i,
        {
            let w = self.wait_fors[i];
            proof {
                assert(ws.take(i + 1).drop_last() =~= ws.take(i as int));
                assert(ws.take(i + 1).last() == ws[i as int]);
            }
            if !(w.waiting.actor_idx as usize == actoridx && w.waiting.step_idx as usize
                == stepidx) {
                kept.push(w);
                proof {
                    assert(!is_waiting_at(ws[i as int], a, s));
                }
            } else {
                proof {
                    assert(is_waiting_at(ws[i as int], a, s));
                }
            }
            i += 1;
        }
        proof {
            assert(ws.take(n as int) =~= ws);
        }
        self.wait_fors = kept;
    }

    /// The target of the single outgoing edge of (actoridx, stepidx), if
    /// any.
    pub fn get_waited_on(&self, actoridx: u16, stepidx: u16) -> (r: Option<(u16, u16)>)
        ensures
            r == spec_waited_on(self.wait_fors@, actoridx, stepidx, 0),
    {
        let ghost ws = self.wait_fors@;
        let n = self.wait_fors.len();
        let mut i: usize = 0;
        while i < n
            invariant
                n == ws.len(),
                i <= n,
                self.wait_fors@ == ws,
                spec_waited_on(ws, actoridx, stepidx, 0) == spec_waited_on(
                    ws,
                    actoridx,
                    stepidx,
                    i as int,
                ),
            decreases n - i,
        {
            let w = self.wait_fors[i];
            if w.waiting.actor_idx == actoridx && w.waiting.step_idx == stepidx {
                return Some((w.waiting_on.actor_idx, w.waiting_on.step_idx));
            }
            i += 1;
        }
        None
    }

    /// All waiting coordinates whose edge targets (actoridx, stepidx), in
    /// edge-list order.
    pub fn get_waiting(&self, actoridx: usize, stepidx: usize) -> (r: Vec<(usize, usize)>)
        ensures
            r@ == spec_waiting_pairs(self.wait_fors@, actoridx as int, stepidx as int),
    {
        let ghost ws = self.wait_fors@;
        let ghost a = actoridx as int;
        let ghost s = stepidx as int;
        let n = self.wait_fors.len();
        let mut out: Vec<(usize, usize)> = Vec::new();
        let mut i: usize = 0;
        while i < n
            invariant
                n == ws.len(),
                i <= n,
                self.wait_fors@ == ws,
                a == actoridx as int,
                s == stepidx as int,
                out@ == spec_waiting_pairs(ws.take(i as int), a, s),
            decreases n - i,
        {
            let w = self.wait_fors[i];
            proof {
                assert(ws.take(i + 1).drop_last() =~= ws.take(i as int));
                assert(ws.take(i + 1).last() == ws[i as int]);
            }
            if w.waiting_on.actor_idx as usize == actoridx && w.waiting_on.step_idx as usize
                == stepidx {
                out.push((w.waiting.actor_idx as usize, w.waiting.step_idx as usize));
            }
            i += 1;
        }
        proof {
            assert(ws.take(n as int) =~= ws);
        }
        out
    }

    /// Adds the edge (waiting_actoridx, waiting_stepidx) waits on
    /// (waited_on_actoridx, waited_on_stepidx).  Any previous edge with
    /// the same waiting endpoint is replaced, keeping at most one
    /// outgoing dependency per step.  Fails with `OutOfRange`, changing
    /// nothing, when either endpoint does not exist.
    pub fn add_wait(
        &mut self,
        waiting_actoridx: usize,
        waiting_stepidx: usize,
        waited_on_actoridx: usize,
        waited_on_stepidx: usize,
    ) -> (r: Result<(), MutationError>)
        requires
            old(self).deep_view().coords_bounded(),
        ensures
            ({
                let dv = old(self).deep_view();
                let valid = dv.has_coord(waiting_actoridx as int, waiting_stepidx as int)
                    && dv.has_coord(waited_on_actoridx as int, waited_on_stepidx as int);
                &&& valid ==> r is Ok && final(self).deep_view() == (EventV {
                    wait_fors: edges_without_waiting(
                        dv.wait_fors,
                        waiting_actoridx as int,
                        waiting_stepidx as int,
                    ).push(
                        WaitFor {
                            waiting: StepRef {
                                actor_idx: waiting_actoridx as u16,
                                step_idx: waiting_stepidx as u16,
                            },
                            waiting_on: StepRef {
                                actor_idx: waited_on_actoridx as u16,
                                step_idx: waited_on_stepidx as u16,
                            },
                        },
                    ),
                    ..dv
                })
                &&& !valid ==> r == Err::<(), MutationError>(MutationError::OutOfRange) && final(self).deep_view() == dv
            }),
    {
        if waiting_actoridx >= self.actors.len() {
            return Err(MutationError::OutOfRange);
        }
        if waiting_stepidx >= self.actors[waiting_actoridx].steps.len() {
            return Err(MutationError::OutOfRange);
        }
        if waited_on_actoridx >= self.actors.len() {
            return Err(MutationError::OutOfRange);
        }
        if waited_on_stepidx >= self.actors[waited_on_actoridx].steps.len() {
            return Err(MutationError::OutOfRange);
        }
        self.remove_waiting(waiting_actoridx, waiting_stepidx);
        self.wait_fors.push(
            WaitFor {
                waiting: StepRef {
                    actor_idx: waiting_actoridx as u16,
                    step_idx: waiting_stepidx as u16,
                },
                waiting_on: StepRef {
                    actor_idx: waited_on_actoridx as u16,
                    step_idx: waited_on_stepidx as u16,
                },
            },
        );
        Ok(())
    }

    /// Inserts `step` at position `stepidx` of actor `actoridx`,
    /// preserving order; every edge endpoint of that actor at or after
    /// the insertion point slides up by one.  Fails with `OutOfRange`,
    /// changing nothing, when the actor does not exist or the position
    /// exceeds its step count.
    pub fn add_step(&mut self, actoridx: usize, stepidx: usize, step: Step) -> (r: Result<
        (),
        MutationError,
    >)
        requires
            old(self).deep_view().coords_bounded(),
            old(self).deep_view().edges_in_range(),
        ensures
            ({
                let dv = old(self).deep_view();
                let valid = 0 <= actoridx < dv.actors.len() && stepidx
                    <= dv.actors[actoridx as int].steps.len();
                &&& valid ==> r is Ok && final(self).deep_view() == (EventV {
                    actors: dv.actors.update(
                        actoridx as int,
                        ActorV {
                            steps: dv.actors[actoridx as int].steps.insert(
                                stepidx as int,
                                step.deep_view(),
                            ),
                            ..dv.actors[actoridx as int]
                        },
                    ),
                    wait_fors: dv.wait_fors.map_values(
                        |w: WaitFor| shift_edge_up(w, actoridx as int, stepidx as int),
                    ),
                    ..dv
                })
                &&& !valid ==> r == Err::<(), MutationError>(MutationError::OutOfRange) && final(self).deep_view() == dv
            }),
    {
        let ghost dv = self.deep_view();
        let ghost a = actoridx as int;
        let ghost s = stepidx as int;
        if actoridx >= self.actors.len() {
            return Err(MutationError::OutOfRange);
        }
        if stepidx > self.actors[actoridx].steps.len() {
            return Err(MutationError::OutOfRange);
        }
        let ghost ws = self.wait_fors@;
        let n = self.wait_fors.len();
        let mut i: usize = 0;
        while i < n
            invariant
                n == self.wait_fors@.len() == ws.len(),
                i <= n,
                self.actors@ == old(self).actors@,
                self.name@ == old(self).name@,
                self.unk1 == old(self).unk1,
                ws == old(self).wait_fors@,
                dv == old(self).deep_view(),
                dv.coords_bounded(),
                dv.edges_in_range(),
                a == actoridx as int,
                s == stepidx as int,
                actoridx < dv.actors.len(),
                forall|k: int| 0 <= k < i ==> self.wait_fors@[k] == shift_edge_up(ws[k], a, s),
                forall|k: int| i <= k < n ==> self.wait_fors@[k] == ws[k],
            decreases n - i,
        {
            let mut w = self.wait_fors[i];
            proof {
                assert(w == ws[i as int]);
                assert(dv.wait_fors == ws);
                assert(dv.has_coord(w.waiting.actor_idx as int, w.waiting.step_idx as int));
                assert(dv.has_coord(w.waiting_on.actor_idx as int, w.waiting_on.step_idx as int));
            }
            if w.waiting.actor_idx as usize == actoridx && w.waiting.step_idx as usize >= stepidx {
                w.waiting.step_idx = w.waiting.step_idx + 1;
            }
            if w.waiting_on.actor_idx as usize == actoridx && w.waiting_on.step_idx as usize
                >= stepidx {
                w.waiting_on.step_idx = w.waiting_on.step_idx + 1;
            }
            self.wait_fors.set(i, w);
            i += 1;
        }
        proof {
            assert(self.wait_fors@ =~= ws.map_values(|w: WaitFor| shift_edge_up(w, a, s)));
        }
        let actor = &mut self.actors[actoridx];
        actor.steps.insert(stepidx, step);
        proof {
            let na = ActorV { steps: dv.actors[a].steps.insert(s, step.deep_view()), ..dv.actors[a] };
            assert(self.actors@[a].deep_view().steps =~= na.steps);
            assert(self.actors@[a].deep_view() == na);
            assert(self.deep_view().actors =~= dv.actors.update(a, na));
        }
        Ok(())
    }

    /// Removes and returns the step at (actoridx, stepidx); every edge
    /// touching that coordinate is deleted and later endpoints of the
    /// same actor slide down by one.  Fails with `OutOfRange`, changing
    /// nothing, when the coordinate does not exist.
    pub fn remove_step(&mut self, actoridx: usize, stepidx: usize) -> (r: Result<
        Step,
        MutationError,
    >)
        ensures
            ({
                let dv = old(self).deep_view();
                let valid = dv.has_coord(actoridx as int, stepidx as int);
                &&& valid ==> r is Ok && r->Ok_0.deep_view() == dv.actors[actoridx as int].steps[stepidx as int]
                    && final(self).deep_view() == (EventV {
                    actors: dv.actors.update(
                        actoridx as int,
                        ActorV {
                            steps: dv.actors[actoridx as int].steps.remove(stepidx as int),
                            ..dv.actors[actoridx as int]
                        },
                    ),
                    wait_fors: edges_after_remove_step(
                        dv.wait_fors,
                        actoridx as int,
                        stepidx as int,
                    ),
                    ..dv
                })
                &&& !valid ==> r == Err::<Step, MutationError>(MutationError::OutOfRange) && final(self).deep_view() == dv
            }),
    {
        let ghost dv = self.deep_view();
        let ghost a = actoridx as int;
        let ghost s = stepidx as int;
        if actoridx >= self.actors.len() {
            return Err(MutationError::OutOfRange);
        }
        if stepidx >= self.actors[actoridx].steps.len() {
            return Err(MutationError::OutOfRange);
        }
        let ghost ws = self.wait_fors@;
        let n = self.wait_fors.len();
        let mut kept: Vec<WaitFor> = Vec::new();
        let mut i: usize = 0;
        while i < n
            invariant
                n == ws.len(),
                i <= n,
                self.wait_fors@ == ws,
                self.actors@ == old(self).actors@,
                a == actoridx as int,
                s == stepidx as int,
                kept@ == edges_after_remove_step(ws.take(i as int), a, s),
            decreases n - i,
        {
            let mut w = self.wait_fors[i];
            proof {
                assert(ws.take(i + 1).drop_last() =~= ws.take(i as int));
                assert(ws.take(i + 1).last() == ws[i as int]);
            }
            let touches_removed = (w.waiting.actor_idx as usize == actoridx
                && w.waiting.step_idx as usize == stepidx) || (w.waiting_on.actor_idx as usize
                == actoridx && w.waiting_on.step_idx as usize == stepidx);
            if !touches_removed {
                proof {
                    assert(!touches(ws[i as int], a, s));
                }
                if w.waiting.actor_idx as usize == actoridx && w.waiting.step_idx as usize
                    > stepidx {
                    w.waiting.step_idx = w.waiting.step_idx - 1;
                }
                if w.waiting_on.actor_idx as usize == actoridx && w.waiting_on.step_idx as usize
                    > stepidx {
                    w.waiting_on.step_idx = w.waiting_on.step_idx - 1;
                }
                proof {
                    assert(w == shift_edge_down(ws[i as int], a, s));
                }
                kept.push(w);
            } else {
                proof {
                    assert(touches(ws[i as int], a, s));
                }
            }
            i += 1;
        }
        proof {
            assert(ws.take(n as int) =~= ws);
        }
        self.wait_fors = kept;
        let actor = &mut self.actors[actoridx];
        let removed = actor.steps.remove(stepidx);
        proof {
            let na = ActorV { steps: dv.actors[a].steps.remove(s), ..dv.actors[a] };
            assert(self.actors@[a].deep_view().steps =~= na.steps);
            assert(self.actors@[a].deep_view() == na);
            assert(self.deep_view().actors =~= dv.actors.update(a, na));
        }
        Ok(removed)
    }
}

/// The target of the first edge at or after `i` whose waiting endpoint
/// is (a, s).
pub open spec fn spec_waited_on(ws: Seq<WaitFor>, a: u16, s: u16, i: int) -> Option<(u16, u16)>
    decreases ws.len() - i when 0 <= i <= ws.len()
{
    if i >= ws.len() {
        None
    } else if ws[i].waiting.actor_idx == a && ws[i].waiting.step_idx == s {
        Some((ws[i].waiting_on.actor_idx, ws[i].waiting_on.step_idx))
    } else {
        spec_waited_on(ws, a, s, i + 1)
    }
}

/// The waiting coordinates of all edges that target (a, s), in order.
pub open spec fn spec_waiting_pairs(ws: Seq<WaitFor>, a: int, s: int) -> Seq<(usize, usize)>
    decreases ws.len(),
{
    if ws.len() == 0 {
        Seq::empty()
    } else {
        let rest = spec_waiting_pairs(ws.drop_last(), a, s);
        if is_waiting_on(ws.last(), a, s) {
            rest.push((ws.last().waiting.actor_idx as usize, ws.last().waiting.step_idx as usize))
        } else {
            rest
        }
    }
}

} // verus!
