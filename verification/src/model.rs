//! The logical graph: events own actors, actors own ordered steps, steps
//! carry typed parameter data, and an event keeps its dependency edges in
//! event-local coordinates.

use vstd::prelude::*;

use crate::errors::MutationError;

verus! {

/// An event-local coordinate: an actor's position within its event and a
/// step's position within that actor.
#[derive(Debug, Clone, Copy, PartialEq, Eq, Structural)]
pub struct StepRef {
    pub actor_idx: u16,
    pub step_idx: u16,
}

/// A directed dependency edge between two steps of one event: `waiting`
/// may only run once `waiting_on` has completed.
#[derive(Debug, Clone, Copy, PartialEq, Eq, Structural)]
pub struct WaitFor {
    pub waiting: StepRef,
    pub waiting_on: StepRef,
}

/// The value carried by one parameter of a step.  Only one variant is
/// ever active for a given parameter.
///
/// `Floats` holds the raw 32-bit IEEE-754 images exactly as they stand on
/// disk; the codec never interprets them as numbers, so the round trip is
/// exact.
#[derive(Debug, Clone, PartialEq, Eq)]
pub enum StepDataValues {
    Ints(Vec<u32>),
    Floats(Vec<u32>),
    String(Vec<u8>),
}

/// Mathematical image of a parameter value.
pub ghost enum StepDataValuesV {
    Ints(Seq<u32>),
    Floats(Seq<u32>),
    String(Seq<u8>),
}

impl DeepView for StepDataValues {
    type V = StepDataValuesV;

    open spec fn deep_view(&self) -> StepDataValuesV {
        match self {
            StepDataValues::Ints(v) => StepDataValuesV::Ints(v@),
            StepDataValues::Floats(v) => StepDataValuesV::Floats(v@),
            StepDataValues::String(v) => StepDataValuesV::String(v@),
        }
    }
}

/// One typed parameter of a step: a four-byte name, an opaque flag, and a
/// value.
#[derive(Debug, Clone, PartialEq, Eq)]
pub struct StepData {
    pub name: Vec<u8>,
    pub unk1: u16,
    pub values: StepDataValues,
}

/// Mathematical image of a parameter.
pub ghost struct StepDataV {
    pub name: Seq<u8>,
    pub unk1: u16,
    pub values: StepDataValuesV,
}

impl DeepView for StepData {
    type V = StepDataV;

    open spec fn deep_view(&self) -> StepDataV {
        StepDataV { name: self.name@, unk1: self.unk1, values: self.values.deep_view() }
    }
}

/// One step of an actor: a long name of at most sixteen bytes, a
/// four-byte short name, two opaque flags, and its parameters.
#[derive(Debug, Clone, PartialEq, Eq)]
pub struct Step {
    pub long_name: Vec<u8>,
    pub unk1: u16,
    pub name: Vec<u8>,
    pub unk2: u16,
    pub data: Vec<StepData>,
}

/// Mathematical image of a step.
pub ghost struct StepV {
    pub long_name: Seq<u8>,
    pub unk1: u16,
    pub name: Seq<u8>,
    pub unk2: u16,
    pub data: Seq<StepDataV>,
}

impl DeepView for Step {
    type V = StepV;

    open spec fn deep_view(&self) -> StepV {
        StepV {
            long_name: self.long_name@,
            unk1: self.unk1,
            name: self.name@,
            unk2: self.unk2,
            data: self.data.deep_view(),
        }
    }
}

/// One actor of an event: a name of at most thirty-two bytes, two opaque
/// flags, and its ordered steps.
#[derive(Debug, Clone, PartialEq, Eq)]
pub struct Actor {
    pub name: Vec<u8>,
    pub unk1: u16,
    pub unk2: u16,
    pub steps: Vec<Step>,
}

/// Mathematical image of an actor.
pub ghost struct ActorV {
    pub name: Seq<u8>,
    pub unk1: u16,
    pub unk2: u16,
    pub steps: Seq<StepV>,
}

impl DeepView for Actor {
    type V = ActorV;

    open spec fn deep_view(&self) -> ActorV {
        ActorV {
            name: self.name@,
            unk1: self.unk1,
            unk2: self.unk2,
            steps: self.steps.deep_view(),
        }
    }
}

/// One event: a name of at most thirty-two bytes, a byte flag, its
/// ordered actors, and its dependency edges.
#[derive(Debug, Clone, PartialEq, Eq)]
pub struct Event {
    pub name: Vec<u8>,
    pub unk1: u8,
    pub actors: Vec<Actor>,
    pub wait_fors: Vec<WaitFor>,
}

/// Mathematical image of an event.
pub ghost struct EventV {
    pub name: Seq<u8>,
    pub unk1: u8,
    pub actors: Seq<ActorV>,
    pub wait_fors: Seq<WaitFor>,
}

impl DeepView for Event {
    type V = EventV;

    open spec fn deep_view(&self) -> EventV {
        EventV {
            name: self.name@,
            unk1: self.unk1,
            actors: self.actors.deep_view(),
            wait_fors: self.wait_fors@,
        }
    }
}

impl EventV {
    /// The coordinate (a, s) names an existing step of this event.
    pub open spec fn has_coord(self, a: int, s: int) -> bool {
        0 <= a < self.actors.len() && 0 <= s < self.actors[a].steps.len()
    }

    /// Both endpoints of every edge name existing steps.
    pub open spec fn edges_in_range(self) -> bool {
        forall|i: int|
            0 <= i < self.wait_fors.len() ==> {
                let w = #[trigger] self.wait_fors[i];
                &&& self.has_coord(w.waiting.actor_idx as int, w.waiting.step_idx as int)
                &&& self.has_coord(w.waiting_on.actor_idx as int, w.waiting_on.step_idx as int)
            }
    }

    /// Every position of the event fits the 16-bit coordinate space of
    /// the on-disk format.
    pub open spec fn coords_bounded(self) -> bool {
        &&& self.actors.len() <= 0xFFFF
        &&& forall|i: int|
            0 <= i < self.actors.len() ==> (#[trigger] self.actors[i]).steps.len() <= 0xFFFF
    }
}

/// Validates a name against a field byte budget: every byte must be
/// ASCII and the name must fit the field.
pub fn check_name_length(name: &Vec<u8>, max: usize) -> (r: Result<(), MutationError>)
    ensures
        r == spec_check_name_length(name@, max as int),
{
    let mut i: usize = 0;
    while i < name.len()
        invariant
            i <= name@.len(),
            forall|j: int| 0 <= j < i ==> #[trigger] name@[j] < 128,
        decreases name@.len() - i,
    {
        if name[i] >= 128 {
            return Err(MutationError::StringNotAscii);
        }
        i += 1;
    }
    if name.len() > max {
        return Err(MutationError::StringTooLong);
    }
    Ok(())
}

/// What `check_name_length` decides: non-ASCII is reported first, then an
/// over-long name, otherwise the name is accepted.
pub open spec fn spec_check_name_length(name: Seq<u8>, max: int) -> Result<(), MutationError> {
    if !crate::bytes::is_ascii(name) {
        Err(MutationError::StringNotAscii)
    } else if name.len() > max {
        Err(MutationError::StringTooLong)
    } else {
        Ok(())
    }
}

/// Validates a name that must fill its field exactly: every byte ASCII
/// and exactly `exact` bytes long.
pub fn check_name_exact(name: &Vec<u8>, exact: usize) -> (r: Result<(), MutationError>)
    ensures
        r == spec_check_name_exact(name@, exact as int),
{
    let mut i: usize = 0;
    while i < name.len()
        invariant
            i <= name@.len(),
            forall|j: int| 0 <= j < i ==> #[trigger] name@[j] < 128,
        decreases name@.len() - i,
    {
        if name[i] >= 128 {
            return Err(MutationError::StringNotAscii);
        }
        i += 1;
    }
    if name.len() != exact {
        return Err(MutationError::StringSizeWrong);
    }
    Ok(())
}

/// What `check_name_exact` decides.
pub open spec fn spec_check_name_exact(name: Seq<u8>, exact: int) -> Result<(), MutationError> {
    if !crate::bytes::is_ascii(name) {
        Err(MutationError::StringNotAscii)
    } else if name.len() != exact {
        Err(MutationError::StringSizeWrong)
    } else {
        Ok(())
    }
}

impl Event {
    pub fn get_name(&self) -> (r: &Vec<u8>)
        ensures
            r@ == self.name@,
    {
        &self.name
    }

    /// Renames the event; the name must be ASCII and at most thirty-two
    /// bytes.
    pub fn set_name(&mut self, name: Vec<u8>) -> (r: Result<(), MutationError>)
        ensures
            spec_check_name_length(name@, 32) is Ok ==> r is Ok && final(self).deep_view() == (
            EventV { name: name@, ..old(self).deep_view() }),
            spec_check_name_length(name@, 32) is Err ==> r == Err::<(), MutationError>(
                spec_check_name_length(name@, 32)->Err_0,
            ) && final(self).deep_view() == old(self).deep_view(),
    {
        match check_name_length(&name, 32) {
            Ok(_) => {
                self.name = name;
                Ok(())
            },
            Err(e) => Err(e),
        }
    }

    pub fn get_unk1(&self) -> (r: u8)
        ensures
            r == self.unk1,
    {
        self.unk1
    }

    pub fn set_unk1(&mut self, unk1: u8)
        ensures
            final(self).deep_view() == (EventV { unk1, ..old(self).deep_view() }),
    {
        self.unk1 = unk1;
    }

    pub fn get_actors(&self) -> (r: &Vec<Actor>)
        ensures
            r.deep_view() == self.deep_view().actors,
    {
        &self.actors
    }

    pub fn get_waits(&self) -> (r: &Vec<WaitFor>)
        ensures
            r@ == self.deep_view().wait_fors,
    {
        &self.wait_fors
    }

    /// Position of the first actor with the given name, if any.
    pub fn get_actoridx_for_name(&self, name: &[u8]) -> (r: Option<usize>)
        ensures
            r == spec_actoridx_for_name(self.deep_view().actors, name@, 0),
    {
        let ghost actors = self.deep_view().actors;
        let n = self.actors.len();
        let mut i: usize = 0;
        while i < n
            invariant
                n == self.actors@.len(),
                i <= n,
                actors == self.deep_view().actors,
                spec_actoridx_for_name(actors, name@, 0) == spec_actoridx_for_name(
                    actors,
                    name@,
                    i as int,
                ),
            decreases n - i,
        {
            if bytes_eq(self.actors[i].name.as_slice(), name) {
                return Some(i);
            }
            i += 1;
        }
        None
    }
}

/// Position of the first actor at or after `i` whose name is `name`.
pub open spec fn spec_actoridx_for_name(actors: Seq<ActorV>, name: Seq<u8>, i: int) -> Option<
    usize,
>
    decreases actors.len() - i when 0 <= i <= actors.len()
{
    if i >= actors.len() {
        None
    } else if actors[i].name == name {
        Some(i as usize)
    } else {
        spec_actoridx_for_name(actors, name, i + 1)
    }
}

/// Byte-for-byte equality of two byte slices.
pub fn bytes_eq(a: &[u8], b: &[u8]) -> (r: bool)
    ensures
        r <==> a@ == b@,
{
    if a.len() != b.len() {
        proof {
            assert(a@.len() != b@.len());
        }
        return false;
    }
    let n = a.len();
    let mut i: usize = 0;
    while i < n
        invariant
            n == a@.len() == b@.len(),
            i <= n,
            forall|j: int| 0 <= j < i ==> a@[j] == b@[j],
        decreases n - i,
    {
        if a[i] != b[i] {
            return false;
        }
        i += 1;
    }
    proof {
        assert(a@ =~= b@);
    }
    true
}

impl Actor {
    pub fn get_name(&self) -> (r: &Vec<u8>)
        ensures
            r@ == self.name@,
    {
        &self.name
    }

    /// Renames the actor; the name must be ASCII and at most thirty-two
    /// bytes.
    pub fn set_name(&mut self, name: Vec<u8>) -> (r: Result<(), MutationError>)
        ensures
            spec_check_name_length(name@, 32) is Ok ==> r is Ok && final(self).deep_view() == (
            ActorV { name: name@, ..old(self).deep_view() }),
            spec_check_name_length(name@, 32) is Err ==> r == Err::<(), MutationError>(
                spec_check_name_length(name@, 32)->Err_0,
            ) && final(self).deep_view() == old(self).deep_view(),
    {
        match check_name_length(&name, 32) {
            Ok(_) => {
                self.name = name;
                Ok(())
            },
            Err(e) => Err(e),
        }
    }

    pub fn get_unk1(&self) -> (r: u16)
        ensures
            r == self.unk1,
    {
        self.unk1
    }

    pub fn set_unk1(&mut self, unk1: u16)
        ensures
            final(self).deep_view() == (ActorV { unk1, ..old(self).deep_view() }),
    {
        self.unk1 = unk1;
    }

    pub fn get_unk2(&self) -> (r: u16)
        ensures
            r == self.unk2,
    {
        self.unk2
    }

    pub fn set_unk2(&mut self, unk2: u16)
        ensures
            final(self).deep_view() == (ActorV { unk2, ..old(self).deep_view() }),
    {
        self.unk2 = unk2;
    }

    pub fn get_steps(&self) -> (r: &Vec<Step>)
        ensures
            r.deep_view() == self.deep_view().steps,
    {
        &self.steps
    }
}

impl Step {
    pub fn get_longname(&self) -> (r: &Vec<u8>)
        ensures
            r@ == self.long_name@,
    {
        &self.long_name
    }

    /// Renames the step's long name; it must be ASCII and at most sixteen
    /// bytes.
    pub fn set_longname(&mut self, name: Vec<u8>) -> (r: Result<(), MutationError>)
        ensures
            spec_check_name_length(name@, 16) is Ok ==> r is Ok && final(self).deep_view() == (
            StepV { long_name: name@, ..old(self).deep_view() }),
            spec_check_name_length(name@, 16) is Err ==> r == Err::<(), MutationError>(
                spec_check_name_length(name@, 16)->Err_0,
            ) && final(self).deep_view() == old(self).deep_view(),
    {
        match check_name_length(&name, 16) {
            Ok(_) => {
                self.long_name = name;
                Ok(())
            },
            Err(e) => Err(e),
        }
    }

    pub fn get_name(&self) -> (r: &Vec<u8>)
        ensures
            r@ == self.name@,
    {
        &self.name
    }

    /// Renames the step's short name; it must be ASCII and exactly four
    /// bytes.
    pub fn set_name(&mut self, name: Vec<u8>) -> (r: Result<(), MutationError>)
        ensures
            spec_check_name_exact(name@, 4) is Ok ==> r is Ok && final(self).deep_view() == (StepV {
                name: name@,
                ..old(self).deep_view()
            }),
            spec_check_name_exact(name@, 4) is Err ==> r == Err::<(), MutationError>(
                spec_check_name_exact(name@, 4)->Err_0,
            ) && final(self).deep_view() == old(self).deep_view(),
    {
        match check_name_exact(&name, 4) {
            Ok(_) => {
                self.name = name;
                Ok(())
            },
            Err(e) => Err(e),
        }
    }
}

impl StepData {
    pub fn get_name(&self) -> (r: &Vec<u8>)
        ensures
            r@ == self.name@,
    {
        &self.name
    }

    /// Renames the parameter; the name must be ASCII and exactly four
    /// bytes.
    pub fn set_name(&mut self, name: Vec<u8>) -> (r: Result<(), MutationError>)
        ensures
            spec_check_name_exact(name@, 4) is Ok ==> r is Ok && final(self).deep_view() == (
            StepDataV { name: name@, ..old(self).deep_view() }),
            spec_check_name_exact(name@, 4) is Err ==> r == Err::<(), MutationError>(
                spec_check_name_exact(name@, 4)->Err_0,
            ) && final(self).deep_view() == old(self).deep_view(),
    {
        match check_name_exact(&name, 4) {
            Ok(_) => {
                self.name = name;
                Ok(())
            },
            Err(e) => Err(e),
        }
    }
}

} // verus!
