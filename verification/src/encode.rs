//! The encoder: flattens the logical graph back into the flat tables,
//! with freshly computed counts and offsets.
//!
//! Two orderings are kept apart deliberately: every table and blob
//! follows the construction order of the event list, which fixes the
//! global indices that dependency pointers use, while the on-disk event
//! table alone is written sorted by a byte comparator over names.  Step
//! records are first written with a "no dependency" sentinel; once an
//! event's layout is known, its edges are patched into the already
//! written step table.

use vstd::pervasive::VecAdditionalExecFns;
use vstd::prelude::*;

use crate::bytes::{splice, u16_bytes, u32_bytes, zpad};
use crate::errors::ZevWriteError;
use crate::layout::{expected_len, EV, MAGIC};
use crate::model::{Actor, ActorV, Event, EventV, Step, StepData, StepDataV, StepDataValues,
    StepDataValuesV, StepRef, StepV, WaitFor};
use crate::raw::{
    raw_actor_bytes, raw_datadef_bytes, raw_event_bytes, raw_header_bytes, raw_step1_bytes,
    raw_step2_bytes, RawActor, RawActorV, RawDataDef, RawDataDefV, RawEvent, RawEventV, RawHeader,
    RawStep1, RawStep1V, RawStep2, RawStep2V,
};

verus! {

/// Element counts accumulated over a part of the graph: one per flat
/// table, plus the three value blobs (`strbytes` counts string bytes,
/// terminators included).
pub ghost struct Tally {
    pub actors: int,
    pub steps: int,
    pub datadefs: int,
    pub ints: int,
    pub floats: int,
    pub strbytes: int,
}

pub open spec fn tally_zero() -> Tally {
    Tally { actors: 0, steps: 0, datadefs: 0, ints: 0, floats: 0, strbytes: 0 }
}

pub open spec fn tally_add(a: Tally, b: Tally) -> Tally {
    Tally {
        actors: a.actors + b.actors,
        steps: a.steps + b.steps,
        datadefs: a.datadefs + b.datadefs,
        ints: a.ints + b.ints,
        floats: a.floats + b.floats,
        strbytes: a.strbytes + b.strbytes,
    }
}

/// Componentwise comparison of two tallies.
pub open spec fn tally_le(a: Tally, b: Tally) -> bool {
    &&& a.actors <= b.actors
    &&& a.steps <= b.steps
    &&& a.datadefs <= b.datadefs
    &&& a.ints <= b.ints
    &&& a.floats <= b.floats
    &&& a.strbytes <= b.strbytes
}

/// What one parameter contributes: one data definition and its values.
pub open spec fn tally_data(d: StepDataV) -> Tally {
    match d.values {
        StepDataValuesV::Ints(v) => Tally { datadefs: 1, ints: v.len() as int, ..tally_zero() },
        StepDataValuesV::Floats(v) => Tally {
            datadefs: 1,
            floats: v.len() as int,
            ..tally_zero()
        },
        StepDataValuesV::String(s) => Tally {
            datadefs: 1,
            strbytes: s.len() as int + 1,
            ..tally_zero()
        },
    }
}

pub open spec fn tally_datas(ds: Seq<StepDataV>) -> Tally
    decreases ds.len(),
{
    if ds.len() == 0 {
        tally_zero()
    } else {
        tally_add(tally_datas(ds.drop_last()), tally_data(ds.last()))
    }
}

/// What one step contributes: one step record pair and its parameters.
pub open spec fn tally_step(s: StepV) -> Tally {
    tally_add(Tally { steps: 1, ..tally_zero() }, tally_datas(s.data))
}

pub open spec fn tally_steps(ss: Seq<StepV>) -> Tally
    decreases ss.len(),
{
    if ss.len() == 0 {
        tally_zero()
    } else {
        tally_add(tally_steps(ss.drop_last()), tally_step(ss.last()))
    }
}

/// What one actor contributes: one actor record and its steps.
pub open spec fn tally_actor(a: ActorV) -> Tally {
    tally_add(Tally { actors: 1, ..tally_zero() }, tally_steps(a.steps))
}

pub open spec fn tally_actors(acts: Seq<ActorV>) -> Tally
    decreases acts.len(),
{
    if acts.len() == 0 {
        tally_zero()
    } else {
        tally_add(tally_actors(acts.drop_last()), tally_actor(acts.last()))
    }
}

/// What one event contributes.
pub open spec fn tally_event(e: EventV) -> Tally {
    tally_actors(e.actors)
}

pub open spec fn tally_events(evs: Seq<EventV>) -> Tally
    decreases evs.len(),
{
    if evs.len() == 0 {
        tally_zero()
    } else {
        tally_add(tally_events(evs.drop_last()), tally_event(evs.last()))
    }
}

pub proof fn lemma_tally_datas_nonneg(ds: Seq<StepDataV>)
    ensures
        tally_le(tally_zero(), tally_datas(ds)),
    decreases ds.len(),
{
    if ds.len() > 0 {
        lemma_tally_datas_nonneg(ds.drop_last());
    }
}

pub proof fn lemma_tally_steps_nonneg(ss: Seq<StepV>)
    ensures
        tally_le(tally_zero(), tally_steps(ss)),
    decreases ss.len(),
{
    if ss.len() > 0 {
        lemma_tally_steps_nonneg(ss.drop_last());
        lemma_tally_datas_nonneg(ss.last().data);
    }
}

pub proof fn lemma_tally_actors_nonneg(acts: Seq<ActorV>)
    ensures
        tally_le(tally_zero(), tally_actors(acts)),
    decreases acts.len(),
{
    if acts.len() > 0 {
        lemma_tally_actors_nonneg(acts.drop_last());
        lemma_tally_steps_nonneg(acts.last().steps);
    }
}

pub proof fn lemma_tally_events_nonneg(evs: Seq<EventV>)
    ensures
        tally_le(tally_zero(), tally_events(evs)),
    decreases evs.len(),
{
    if evs.len() > 0 {
        lemma_tally_events_nonneg(evs.drop_last());
        lemma_tally_actors_nonneg(evs.last().actors);
    }
}

/// A prefix never counts more than the whole.
pub proof fn lemma_tally_datas_prefix(ds: Seq<StepDataV>, i: int)
    requires
        0 <= i <= ds.len(),
    ensures
        tally_le(tally_datas(ds.take(i)), tally_datas(ds)),
    decreases ds.len(),
{
    if i == ds.len() {
        assert(ds.take(i) =~= ds);
    } else {
        assert(ds.drop_last().take(i) =~= ds.take(i));
        lemma_tally_datas_prefix(ds.drop_last(), i);
        lemma_tally_datas_nonneg(ds);
    }
}

pub proof fn lemma_tally_steps_prefix(ss: Seq<StepV>, i: int)
    requires
        0 <= i <= ss.len(),
    ensures
        tally_le(tally_steps(ss.take(i)), tally_steps(ss)),
    decreases ss.len(),
{
    if i == ss.len() {
        assert(ss.take(i) =~= ss);
    } else {
        assert(ss.drop_last().take(i) =~= ss.take(i));
        lemma_tally_steps_prefix(ss.drop_last(), i);
        lemma_tally_steps_nonneg(ss);
        lemma_tally_datas_nonneg(ss.last().data);
    }
}

pub proof fn lemma_tally_actors_prefix(acts: Seq<ActorV>, i: int)
    requires
        0 <= i <= acts.len(),
    ensures
        tally_le(tally_actors(acts.take(i)), tally_actors(acts)),
    decreases acts.len(),
{
    if i == acts.len() {
        assert(acts.take(i) =~= acts);
    } else {
        assert(acts.drop_last().take(i) =~= acts.take(i));
        lemma_tally_actors_prefix(acts.drop_last(), i);
        lemma_tally_steps_nonneg(acts.last().steps);
    }
}

pub proof fn lemma_tally_events_prefix(evs: Seq<EventV>, i: int)
    requires
        0 <= i <= evs.len(),
    ensures
        tally_le(tally_events(evs.take(i)), tally_events(evs)),
    decreases evs.len(),
{
    if i == evs.len() {
        assert(evs.take(i) =~= evs);
    } else {
        assert(evs.drop_last().take(i) =~= evs.take(i));
        lemma_tally_events_prefix(evs.drop_last(), i);
        lemma_tally_actors_nonneg(evs.last().actors);
    }
}

/// The tally of a prefix one longer: one more item.
pub proof fn lemma_tally_datas_snoc(ds: Seq<StepDataV>, i: int)
    requires
        0 <= i < ds.len(),
    ensures
        tally_datas(ds.take(i + 1)) == tally_add(tally_datas(ds.take(i)), tally_data(ds[i])),
{
    assert(ds.take(i + 1).drop_last() =~= ds.take(i));
    assert(ds.take(i + 1).last() == ds[i]);
}

pub proof fn lemma_tally_steps_snoc(ss: Seq<StepV>, i: int)
    requires
        0 <= i < ss.len(),
    ensures
        tally_steps(ss.take(i + 1)) == tally_add(tally_steps(ss.take(i)), tally_step(ss[i])),
{
    assert(ss.take(i + 1).drop_last() =~= ss.take(i));
    assert(ss.take(i + 1).last() == ss[i]);
}

pub proof fn lemma_tally_actors_snoc(acts: Seq<ActorV>, i: int)
    requires
        0 <= i < acts.len(),
    ensures
        tally_actors(acts.take(i + 1)) == tally_add(
            tally_actors(acts.take(i)),
            tally_actor(acts[i]),
        ),
{
    assert(acts.take(i + 1).drop_last() =~= acts.take(i));
    assert(acts.take(i + 1).last() == acts[i]);
}

pub proof fn lemma_tally_events_snoc(evs: Seq<EventV>, i: int)
    requires
        0 <= i < evs.len(),
    ensures
        tally_events(evs.take(i + 1)) == tally_add(
            tally_events(evs.take(i)),
            tally_event(evs[i]),
        ),
{
    assert(evs.take(i + 1).drop_last() =~= evs.take(i));
    assert(evs.take(i + 1).last() == evs[i]);
}

/// An item never counts more than its whole list.
pub proof fn lemma_tally_datas_item(ds: Seq<StepDataV>, i: int)
    requires
        0 <= i < ds.len(),
    ensures
        tally_le(tally_data(ds[i]), tally_datas(ds)),
{
    lemma_tally_datas_snoc(ds, i);
    lemma_tally_datas_prefix(ds, i + 1);
    lemma_tally_datas_nonneg(ds.take(i));
}

pub proof fn lemma_tally_steps_item(ss: Seq<StepV>, i: int)
    requires
        0 <= i < ss.len(),
    ensures
        tally_le(tally_step(ss[i]), tally_steps(ss)),
{
    lemma_tally_steps_snoc(ss, i);
    lemma_tally_steps_prefix(ss, i + 1);
    lemma_tally_steps_nonneg(ss.take(i));
}

pub proof fn lemma_tally_actors_item(acts: Seq<ActorV>, i: int)
    requires
        0 <= i < acts.len(),
    ensures
        tally_le(tally_actor(acts[i]), tally_actors(acts)),
{
    lemma_tally_actors_snoc(acts, i);
    lemma_tally_actors_prefix(acts, i + 1);
    lemma_tally_actors_nonneg(acts.take(i));
}

pub proof fn lemma_tally_events_item(evs: Seq<EventV>, i: int)
    requires
        0 <= i < evs.len(),
    ensures
        tally_le(tally_event(evs[i]), tally_events(evs)),
{
    lemma_tally_events_snoc(evs, i);
    lemma_tally_events_prefix(evs, i + 1);
    lemma_tally_events_nonneg(evs.take(i));
}

/// Every name of a parameter fits its field.
pub open spec fn data_encodable(d: StepDataV) -> bool {
    d.name.len() <= 4
}

/// Every name of a step fits its field.
pub open spec fn step_encodable(s: StepV) -> bool {
    &&& s.long_name.len() <= 16
    &&& s.name.len() <= 4
    &&& forall|m: int| 0 <= m < s.data.len() ==> data_encodable(#[trigger] s.data[m])
}

/// Every name of an actor and of its steps fits its field.
pub open spec fn actor_encodable(a: ActorV) -> bool {
    &&& a.name.len() <= 32
    &&& forall|k: int| 0 <= k < a.steps.len() ==> step_encodable(#[trigger] a.steps[k])
}

/// Every name of the event fits its field and every edge endpoint names
/// an existing step.
pub open spec fn event_encodable(e: EventV) -> bool {
    &&& e.name.len() <= 32
    &&& forall|j: int| 0 <= j < e.actors.len() ==> actor_encodable(#[trigger] e.actors[j])
    &&& e.edges_in_range()
}

/// What the encoder requires of a graph: every count fits the 16-bit
/// header fields, every name fits its fixed-width field, and every edge
/// endpoint exists.
pub open spec fn graph_encodable(evs: Seq<EventV>) -> bool {
    &&& evs.len() <= 0xFFFF
    &&& tally_events(evs).actors <= 0xFFFF
    &&& tally_events(evs).steps <= 0xFFFF
    &&& tally_events(evs).datadefs <= 0xFFFF
    &&& tally_events(evs).ints <= 0xFFFF
    &&& tally_events(evs).floats <= 0xFFFF
    &&& tally_events(evs).strbytes <= 0xFFFF
    &&& forall|i: int| 0 <= i < evs.len() ==> event_encodable(#[trigger] evs[i])
}

/// The header an encode of this graph carries.
pub open spec fn header_of(evs: Seq<EventV>) -> RawHeader {
    let t = tally_events(evs);
    RawHeader {
        magic: MAGIC,
        evntcount: evs.len() as u16,
        actorcount: t.actors as u16,
        stepscount: t.steps as u16,
        steps2count: t.steps as u16,
        datacount: t.datadefs as u16,
        alwaysev: EV,
        intcount: t.ints as u16,
        floatcount: t.floats as u16,
        stringcount: t.strbytes as u16,
    }
}

/// The byte comparator of the on-disk event table: names compare byte by
/// byte as if zero-terminated, so a name that is a strict prefix of
/// another sorts first.  The result is negative, zero or positive.
pub open spec fn nin_cmp_from(s1: Seq<u8>, s2: Seq<u8>, i: int) -> int
    decreases (if s1.len() <= s2.len() {
        s1.len() as int
    } else {
        s2.len() as int
    }) + 1 - i when 0 <= i
{
    let m = if s1.len() <= s2.len() {
        s1.len() as int
    } else {
        s2.len() as int
    };
    if i > m {
        0
    } else {
        let c1: u8 = if i < s1.len() {
            s1[i]
        } else {
            0
        };
        let c2: u8 = if i < s2.len() {
            s2[i]
        } else {
            0
        };
        if c1 < c2 {
            -1
        } else if c1 > c2 {
            1
        } else {
            nin_cmp_from(s1, s2, i + 1)
        }
    }
}

/// The whole-name comparison.
pub open spec fn nin_cmp(s1: Seq<u8>, s2: Seq<u8>) -> int {
    nin_cmp_from(s1, s2, 0)
}

/// Compares two names byte by byte, each treated as implicitly
/// zero-terminated: a name that is a strict prefix of another sorts
/// first.
pub fn nin_sort(s1: &[u8], s2: &[u8]) -> (r: core::cmp::Ordering)
    ensures
        r == core::cmp::Ordering::Less <==> nin_cmp(s1@, s2@) == -1,
        r == core::cmp::Ordering::Equal <==> nin_cmp(s1@, s2@) == 0,
        r == core::cmp::Ordering::Greater <==> nin_cmp(s1@, s2@) == 1,
{
    let m = if s1.len() <= s2.len() {
        s1.len()
    } else {
        s2.len()
    };
    let mut i: usize = 0;
    while i <= m
        invariant
            m == (if s1@.len() <= s2@.len() {
                s1@.len() as int
            } else {
                s2@.len() as int
            }),
            i <= m + 1,
            nin_cmp(s1@, s2@) == nin_cmp_from(s1@, s2@, i as int),
        decreases m + 1 - i,
    {
        let c1: u8 = if i < s1.len() {
            s1[i]
        } else {
            0
        };
        let c2: u8 = if i < s2.len() {
            s2[i]
        } else {
            0
        };
        proof {
            reveal_with_fuel(nin_cmp_from, 2);
        }
        if c1 < c2 {
            proof {
                assert(nin_cmp_from(s1@, s2@, i as int) == -1);
            }
            return core::cmp::Ordering::Less;
        }
        if c1 > c2 {
            proof {
                assert(nin_cmp_from(s1@, s2@, i as int) == 1);
            }
            return core::cmp::Ordering::Greater;
        }
        if i == m {
            proof {
                assert(nin_cmp_from(s1@, s2@, i + 1) == 0);
            }
            return core::cmp::Ordering::Equal;
        }
        i += 1;
    }
    core::cmp::Ordering::Equal
}

/// The raw record of one event whose actor range starts at `abase`, in
/// construction order.  The two reserved bytes are written as zero.
pub open spec fn raw_event_of(e: EventV, abase: int) -> RawEventV {
    RawEventV {
        name: e.name,
        dummy1: 0,
        unk1: e.unk1,
        dummy2: 0,
        actorindex: abase as u16,
        actorcount: e.actors.len() as u16,
    }
}

/// The raw event records of the first `n` events, in construction
/// order, each carrying its actor-range start.
pub open spec fn raw_events_of(evs: Seq<EventV>, n: int) -> Seq<RawEventV>
    decreases n,
{
    if n <= 0 {
        Seq::empty()
    } else {
        raw_events_of(evs, n - 1).push(
            raw_event_of(evs[n - 1], tally_events(evs.take(n - 1)).actors),
        )
    }
}

/// Stable insertion of an event record into a list sorted by the name
/// comparator.
pub open spec fn insert_by_name(sorted: Seq<RawEventV>, e: RawEventV) -> Seq<RawEventV>
    decreases sorted.len(),
{
    if sorted.len() == 0 {
        seq![e]
    } else if nin_cmp(sorted.last().name, e.name) <= 0 {
        sorted.push(e)
    } else {
        insert_by_name(sorted.drop_last(), e).push(sorted.last())
    }
}

/// The raw event records sorted by name: the order of the on-disk event
/// table alone.
pub open spec fn sort_events_by_name(s: Seq<RawEventV>) -> Seq<RawEventV>
    decreases s.len(),
{
    if s.len() == 0 {
        Seq::empty()
    } else {
        insert_by_name(sort_events_by_name(s.drop_last()), s.last())
    }
}

/// Where the scan from the end stops is where the stable insertion puts
/// the new record.
pub proof fn lemma_insert_by_name_split(s: Seq<RawEventV>, e: RawEventV, k: int)
    requires
        0 <= k <= s.len(),
        forall|j: int| k <= j < s.len() ==> nin_cmp((#[trigger] s[j]).name, e.name) > 0,
        k > 0 ==> nin_cmp(s[k - 1].name, e.name) <= 0,
    ensures
        insert_by_name(s, e) == s.take(k).add(seq![e]).add(s.skip(k)),
    decreases s.len(),
{
    if s.len() == 0 {
        assert(insert_by_name(s, e) =~= s.take(k).add(seq![e]).add(s.skip(k)));
    } else if k == s.len() {
        assert(s.push(e) =~= s.take(k).add(seq![e]).add(s.skip(k)));
    } else {
        assert(nin_cmp(s.last().name, e.name) > 0);
        lemma_insert_by_name_split(s.drop_last(), e, k);
        assert(s.drop_last().take(k) =~= s.take(k));
        assert(insert_by_name(s.drop_last(), e).push(s.last()) =~= s.take(k).add(seq![e]).add(
            s.skip(k),
        ));
    }
}

/// Every record of the list has a name that fits its field.
pub open spec fn raw_event_names_fit(rs: Seq<RawEventV>) -> bool {
    forall|i: int| 0 <= i < rs.len() ==> (#[trigger] rs[i]).name.len() <= 32
}

pub proof fn lemma_insert_by_name_fit(s: Seq<RawEventV>, e: RawEventV)
    requires
        raw_event_names_fit(s),
        e.name.len() <= 32,
    ensures
        raw_event_names_fit(insert_by_name(s, e)),
    decreases s.len(),
{
    if s.len() > 0 && !(nin_cmp(s.last().name, e.name) <= 0) {
        assert(raw_event_names_fit(s.drop_last()));
        lemma_insert_by_name_fit(s.drop_last(), e);
    }
}

pub proof fn lemma_sort_by_name_fit(s: Seq<RawEventV>)
    requires
        raw_event_names_fit(s),
    ensures
        raw_event_names_fit(sort_events_by_name(s)),
    decreases s.len(),
{
    if s.len() > 0 {
        assert(raw_event_names_fit(s.drop_last()));
        lemma_sort_by_name_fit(s.drop_last());
        lemma_insert_by_name_fit(sort_events_by_name(s.drop_last()), s.last());
    }
}

pub proof fn lemma_sort_by_name_len(s: Seq<RawEventV>)
    ensures
        sort_events_by_name(s).len() == s.len(),
    decreases s.len(),
{
    if s.len() > 0 {
        lemma_sort_by_name_len(s.drop_last());
        lemma_insert_by_name_len(sort_events_by_name(s.drop_last()), s.last());
    }
}

pub proof fn lemma_insert_by_name_len(s: Seq<RawEventV>, e: RawEventV)
    ensures
        insert_by_name(s, e).len() == s.len() + 1,
    decreases s.len(),
{
    if s.len() > 0 && !(nin_cmp(s.last().name, e.name) <= 0) {
        lemma_insert_by_name_len(s.drop_last(), e);
    }
}

pub proof fn lemma_raw_events_of_fit(evs: Seq<EventV>, n: int)
    requires
        0 <= n <= evs.len(),
        forall|i: int| 0 <= i < evs.len() ==> event_encodable(#[trigger] evs[i]),
    ensures
        raw_event_names_fit(raw_events_of(evs, n)),
    decreases n,
{
    if n > 0 {
        lemma_raw_events_of_fit(evs, n - 1);
        assert(event_encodable(evs[n - 1]));
    }
}

/// The serialized rows of the first `n` records of a raw event list.
pub open spec fn raw_event_rows(rs: Seq<RawEventV>, n: int) -> Seq<u8>
    decreases n,
{
    if n <= 0 {
        Seq::empty()
    } else {
        raw_event_rows(rs, n - 1).add(raw_event_bytes(rs[n - 1]))
    }
}

/// The on-disk event table: the construction-order records, re-sorted by
/// name and serialized.
pub open spec fn event_table_bytes(evs: Seq<EventV>) -> Seq<u8> {
    let sorted = sort_events_by_name(raw_events_of(evs, evs.len() as int));
    raw_event_rows(sorted, sorted.len() as int)
}

/// The raw record of one actor whose step range starts at `sbase`.
pub open spec fn raw_actor_of(a: ActorV, sbase: int) -> RawActorV {
    RawActorV {
        name: a.name,
        unk1: a.unk1,
        unk2: a.unk2,
        stepindex: sbase as u16,
        stepcount: a.steps.len() as u16,
    }
}

/// The actor-table rows of the first `n` actors of one event, whose step
/// ranges start at `sbase`.
pub open spec fn actor_rows(acts: Seq<ActorV>, sbase: int, n: int) -> Seq<u8>
    decreases n,
{
    if n <= 0 {
        Seq::empty()
    } else {
        actor_rows(acts, sbase, n - 1).add(
            raw_actor_bytes(
                raw_actor_of(acts[n - 1], sbase + tally_actors(acts.take(n - 1)).steps),
            ),
        )
    }
}

/// The whole actor table over the first `n` events.
pub open spec fn actor_table(evs: Seq<EventV>, n: int) -> Seq<u8>
    decreases n,
{
    if n <= 0 {
        Seq::empty()
    } else {
        actor_table(evs, n - 1).add(
            actor_rows(
                evs[n - 1].actors,
                tally_events(evs.take(n - 1)).steps,
                evs[n - 1].actors.len() as int,
            ),
        )
    }
}

/// The step-part-one record of one step: global actor index `ga`, global
/// step index `gs`, and the "no dependency" sentinel that patching later
/// replaces where an edge exists.
pub open spec fn raw_step1_of(s: StepV, ga: int, gs: int) -> RawStep1V {
    RawStep1V {
        name: s.long_name,
        waitfor: 0xFFFF,
        actorindex: ga as u16,
        unk3: s.unk1,
        dummy0: 0,
        thisindex: gs as u16,
        dummy1: 1,
    }
}

pub open spec fn step1_rows_steps(ss: Seq<StepV>, ga: int, sbase: int, n: int) -> Seq<u8>
    decreases n,
{
    if n <= 0 {
        Seq::empty()
    } else {
        step1_rows_steps(ss, ga, sbase, n - 1).add(
            raw_step1_bytes(raw_step1_of(ss[n - 1], ga, sbase + (n - 1))),
        )
    }
}

pub open spec fn step1_rows_actors(acts: Seq<ActorV>, abase: int, sbase: int, n: int) -> Seq<u8>
    decreases n,
{
    if n <= 0 {
        Seq::empty()
    } else {
        step1_rows_actors(acts, abase, sbase, n - 1).add(
            step1_rows_steps(
                acts[n - 1].steps,
                abase + (n - 1),
                sbase + tally_actors(acts.take(n - 1)).steps,
                acts[n - 1].steps.len() as int,
            ),
        )
    }
}

/// The whole step-part-one table over the first `n` events, with every
/// wait pointer still the sentinel.
pub open spec fn step1_table(evs: Seq<EventV>, n: int) -> Seq<u8>
    decreases n,
{
    if n <= 0 {
        Seq::empty()
    } else {
        step1_table(evs, n - 1).add(
            step1_rows_actors(
                evs[n - 1].actors,
                tally_events(evs.take(n - 1)).actors,
                tally_events(evs.take(n - 1)).steps,
                evs[n - 1].actors.len() as int,
            ),
        )
    }
}

/// The step-part-two record of one step: global step index `gs` and its
/// data-definition range starting at `dbase`.
pub open spec fn raw_step2_of(s: StepV, gs: int, dbase: int) -> RawStep2V {
    RawStep2V {
        name: s.name,
        unk1: s.unk2,
        thisindex: gs as u16,
        datadefindex: dbase as u16,
        datadefcount: s.data.len() as u16,
    }
}

pub open spec fn step2_rows_steps(ss: Seq<StepV>, sbase: int, dbase: int, n: int) -> Seq<u8>
    decreases n,
{
    if n <= 0 {
        Seq::empty()
    } else {
        step2_rows_steps(ss, sbase, dbase, n - 1).add(
            raw_step2_bytes(
                raw_step2_of(
                    ss[n - 1],
                    sbase + (n - 1),
                    dbase + tally_steps(ss.take(n - 1)).datadefs,
                ),
            ),
        )
    }
}

pub open spec fn step2_rows_actors(acts: Seq<ActorV>, sbase: int, dbase: int, n: int) -> Seq<u8>
    decreases n,
{
    if n <= 0 {
        Seq::empty()
    } else {
        step2_rows_actors(acts, sbase, dbase, n - 1).add(
            step2_rows_steps(
                acts[n - 1].steps,
                sbase + tally_actors(acts.take(n - 1)).steps,
                dbase + tally_actors(acts.take(n - 1)).datadefs,
                acts[n - 1].steps.len() as int,
            ),
        )
    }
}

/// The whole step-part-two table over the first `n` events.
pub open spec fn step2_table(evs: Seq<EventV>, n: int) -> Seq<u8>
    decreases n,
{
    if n <= 0 {
        Seq::empty()
    } else {
        step2_table(evs, n - 1).add(
            step2_rows_actors(
                evs[n - 1].actors,
                tally_events(evs.take(n - 1)).steps,
                tally_events(evs.take(n - 1)).datadefs,
                evs[n - 1].actors.len() as int,
            ),
        )
    }
}

/// The data-definition record of one parameter, pointing into the blob
/// its type tag selects.
pub open spec fn raw_datadef_of(d: StepDataV, ibase: int, fbase: int, tbase: int) -> RawDataDefV {
    match d.values {
        StepDataValuesV::Ints(v) => RawDataDefV {
            name: d.name,
            unk1: d.unk1,
            datatype: 0,
            dataindex: ibase as u16,
            datalen: v.len() as u16,
        },
        StepDataValuesV::Floats(v) => RawDataDefV {
            name: d.name,
            unk1: d.unk1,
            datatype: 1,
            dataindex: fbase as u16,
            datalen: v.len() as u16,
        },
        StepDataValuesV::String(t) => RawDataDefV {
            name: d.name,
            unk1: d.unk1,
            datatype: 2,
            dataindex: tbase as u16,
            datalen: (t.len() + 1) as u16,
        },
    }
}

pub open spec fn datadef_rows_datas(
    ds: Seq<StepDataV>,
    ibase: int,
    fbase: int,
    tbase: int,
    n: int,
) -> Seq<u8>
    decreases n,
{
    if n <= 0 {
        Seq::empty()
    } else {
        let t = tally_datas(ds.take(n - 1));
        datadef_rows_datas(ds, ibase, fbase, tbase, n - 1).add(
            raw_datadef_bytes(
                raw_datadef_of(ds[n - 1], ibase + t.ints, fbase + t.floats, tbase + t.strbytes),
            ),
        )
    }
}

pub open spec fn datadef_rows_steps(
    ss: Seq<StepV>,
    ibase: int,
    fbase: int,
    tbase: int,
    n: int,
) -> Seq<u8>
    decreases n,
{
    if n <= 0 {
        Seq::empty()
    } else {
        let t = tally_steps(ss.take(n - 1));
        datadef_rows_steps(ss, ibase, fbase, tbase, n - 1).add(
            datadef_rows_datas(
                ss[n - 1].data,
                ibase + t.ints,
                fbase + t.floats,
                tbase + t.strbytes,
                ss[n - 1].data.len() as int,
            ),
        )
    }
}

pub open spec fn datadef_rows_actors(
    acts: Seq<ActorV>,
    ibase: int,
    fbase: int,
    tbase: int,
    n: int,
) -> Seq<u8>
    decreases n,
{
    if n <= 0 {
        Seq::empty()
    } else {
        let t = tally_actors(acts.take(n - 1));
        datadef_rows_actors(acts, ibase, fbase, tbase, n - 1).add(
            datadef_rows_steps(
                acts[n - 1].steps,
                ibase + t.ints,
                fbase + t.floats,
                tbase + t.strbytes,
                acts[n - 1].steps.len() as int,
            ),
        )
    }
}

/// The whole data-definition table over the first `n` events.
pub open spec fn datadef_table(evs: Seq<EventV>, n: int) -> Seq<u8>
    decreases n,
{
    if n <= 0 {
        Seq::empty()
    } else {
        let t = tally_events(evs.take(n - 1));
        datadef_table(evs, n - 1).add(
            datadef_rows_actors(
                evs[n - 1].actors,
                t.ints,
                t.floats,
                t.strbytes,
                evs[n - 1].actors.len() as int,
            ),
        )
    }
}

/// The big-endian bytes of the first `n` values of a 32-bit list.
pub open spec fn u32s_bytes(v: Seq<u32>, n: int) -> Seq<u8>
    decreases n,
{
    if n <= 0 {
        Seq::empty()
    } else {
        u32s_bytes(v, n - 1).add(u32_bytes(v[n - 1]))
    }
}

pub open spec fn int_blob_datas(ds: Seq<StepDataV>, n: int) -> Seq<u8>
    decreases n,
{
    if n <= 0 {
        Seq::empty()
    } else {
        int_blob_datas(ds, n - 1).add(
            match ds[n - 1].values {
                StepDataValuesV::Ints(v) => u32s_bytes(v, v.len() as int),
                _ => Seq::empty(),
            },
        )
    }
}

pub open spec fn int_blob_steps(ss: Seq<StepV>, n: int) -> Seq<u8>
    decreases n,
{
    if n <= 0 {
        Seq::empty()
    } else {
        int_blob_steps(ss, n - 1).add(
            int_blob_datas(ss[n - 1].data, ss[n - 1].data.len() as int),
        )
    }
}

pub open spec fn int_blob_actors(acts: Seq<ActorV>, n: int) -> Seq<u8>
    decreases n,
{
    if n <= 0 {
        Seq::empty()
    } else {
        int_blob_actors(acts, n - 1).add(
            int_blob_steps(acts[n - 1].steps, acts[n - 1].steps.len() as int),
        )
    }
}

/// The integer blob over the first `n` events.
pub open spec fn int_blob(evs: Seq<EventV>, n: int) -> Seq<u8>
    decreases n,
{
    if n <= 0 {
        Seq::empty()
    } else {
        int_blob(evs, n - 1).add(
            int_blob_actors(evs[n - 1].actors, evs[n - 1].actors.len() as int),
        )
    }
}

pub open spec fn float_blob_datas(ds: Seq<StepDataV>, n: int) -> Seq<u8>
    decreases n,
{
    if n <= 0 {
        Seq::empty()
    } else {
        float_blob_datas(ds, n - 1).add(
            match ds[n - 1].values {
                StepDataValuesV::Floats(v) => u32s_bytes(v, v.len() as int),
                _ => Seq::empty(),
            },
        )
    }
}

pub open spec fn float_blob_steps(ss: Seq<StepV>, n: int) -> Seq<u8>
    decreases n,
{
    if n <= 0 {
        Seq::empty()
    } else {
        float_blob_steps(ss, n - 1).add(
            float_blob_datas(ss[n - 1].data, ss[n - 1].data.len() as int),
        )
    }
}

pub open spec fn float_blob_actors(acts: Seq<ActorV>, n: int) -> Seq<u8>
    decreases n,
{
    if n <= 0 {
        Seq::empty()
    } else {
        float_blob_actors(acts, n - 1).add(
            float_blob_steps(acts[n - 1].steps, acts[n - 1].steps.len() as int),
        )
    }
}

/// The float blob over the first `n` events: raw 32-bit images, written
/// back exactly as they were constructed.
pub open spec fn float_blob(evs: Seq<EventV>, n: int) -> Seq<u8>
    decreases n,
{
    if n <= 0 {
        Seq::empty()
    } else {
        float_blob(evs, n - 1).add(
            float_blob_actors(evs[n - 1].actors, evs[n - 1].actors.len() as int),
        )
    }
}

/// One string value in the blob: its bytes and the zero terminator.
pub open spec fn str_bytes(s: Seq<u8>) -> Seq<u8> {
    s.add(seq![0u8])
}

pub open spec fn string_blob_datas(ds: Seq<StepDataV>, n: int) -> Seq<u8>
    decreases n,
{
    if n <= 0 {
        Seq::empty()
    } else {
        string_blob_datas(ds, n - 1).add(
            match ds[n - 1].values {
                StepDataValuesV::String(t) => str_bytes(t),
                _ => Seq::empty(),
            },
        )
    }
}

pub open spec fn string_blob_steps(ss: Seq<StepV>, n: int) -> Seq<u8>
    decreases n,
{
    if n <= 0 {
        Seq::empty()
    } else {
        string_blob_steps(ss, n - 1).add(
            string_blob_datas(ss[n - 1].data, ss[n - 1].data.len() as int),
        )
    }
}

pub open spec fn string_blob_actors(acts: Seq<ActorV>, n: int) -> Seq<u8>
    decreases n,
{
    if n <= 0 {
        Seq::empty()
    } else {
        string_blob_actors(acts, n - 1).add(
            string_blob_steps(acts[n - 1].steps, acts[n - 1].steps.len() as int),
        )
    }
}

/// The string blob over the first `n` events: zero-terminated strings
/// back to back.
pub open spec fn string_blob(evs: Seq<EventV>, n: int) -> Seq<u8>
    decreases n,
{
    if n <= 0 {
        Seq::empty()
    } else {
        string_blob(evs, n - 1).add(
            string_blob_actors(evs[n - 1].actors, evs[n - 1].actors.len() as int),
        )
    }
}

/// The global step index of an event-local coordinate, given the event's
/// step-range start.
pub open spec fn gs_of_ref(acts: Seq<ActorV>, sbase: int, r: StepRef) -> int {
    sbase + tally_actors(acts.take(r.actor_idx as int)).steps + r.step_idx
}

/// The step table after the first `n` edges of one event are patched in:
/// each edge overwrites the wait-pointer field of its waiting step's
/// record with the global index of the depended-upon step.
pub open spec fn apply_event_patches(tbl: Seq<u8>, e: EventV, sbase: int, n: int) -> Seq<u8>
    decreases n,
{
    if n <= 0 {
        tbl
    } else {
        let t = apply_event_patches(tbl, e, sbase, n - 1);
        let w = e.wait_fors[n - 1];
        splice(
            t,
            gs_of_ref(e.actors, sbase, w.waiting) * (RawStep1::SIZE as int) + 16,
            u16_bytes(gs_of_ref(e.actors, sbase, w.waiting_on) as u16),
        )
    }
}

/// The step table after the edges of the first `n` events are patched
/// in.
pub open spec fn apply_patches(tbl: Seq<u8>, evs: Seq<EventV>, n: int) -> Seq<u8>
    decreases n,
{
    if n <= 0 {
        tbl
    } else {
        apply_event_patches(
            apply_patches(tbl, evs, n - 1),
            evs[n - 1],
            tally_events(evs.take(n - 1)).steps,
            evs[n - 1].wait_fors.len() as int,
        )
    }
}

/// The finished step-part-one section: the sentinel table with every
/// event's edges patched in.
pub open spec fn step1_section(evs: Seq<EventV>) -> Seq<u8> {
    apply_patches(step1_table(evs, evs.len() as int), evs, evs.len() as int)
}

/// The whole encoded file: header, the name-sorted event table, then
/// every table and blob in construction order.
pub open spec fn spec_write_bytes(evs: Seq<EventV>) -> Seq<u8> {
    raw_header_bytes(header_of(evs)).add(event_table_bytes(evs)).add(
        actor_table(evs, evs.len() as int),
    ).add(step1_section(evs)).add(step2_table(evs, evs.len() as int)).add(
        datadef_table(evs, evs.len() as int),
    ).add(int_blob(evs, evs.len() as int)).add(float_blob(evs, evs.len() as int)).add(
        string_blob(evs, evs.len() as int),
    )
}

/// Length of the sentinel step table rows of one actor.
pub proof fn lemma_step1_rows_steps_len(ss: Seq<StepV>, ga: int, sbase: int, n: int)
    requires
        0 <= n <= ss.len(),
        forall|k: int| 0 <= k < ss.len() ==> step_encodable(#[trigger] ss[k]),
    ensures
        step1_rows_steps(ss, ga, sbase, n).len() == (RawStep1::SIZE as int) * n,
    decreases n,
{
    if n > 0 {
        lemma_step1_rows_steps_len(ss, ga, sbase, n - 1);
        assert(step_encodable(ss[n - 1]));
        assert(raw_step1_bytes(raw_step1_of(ss[n - 1], ga, sbase + (n - 1))).len() == 28);
    }
}

/// Length of the sentinel step table rows of one event.
pub proof fn lemma_step1_rows_actors_len(acts: Seq<ActorV>, abase: int, sbase: int, n: int)
    requires
        0 <= n <= acts.len(),
        forall|j: int| 0 <= j < acts.len() ==> actor_encodable(#[trigger] acts[j]),
    ensures
        step1_rows_actors(acts, abase, sbase, n).len() == (RawStep1::SIZE as int) * tally_actors(
            acts.take(n),
        ).steps,
    decreases n,
{
    if n == 0 {
        assert(acts.take(0) =~= Seq::<ActorV>::empty());
    } else {
        lemma_step1_rows_actors_len(acts, abase, sbase, n - 1);
        assert(actor_encodable(acts[n - 1]));
        lemma_step1_rows_steps_len(
            acts[n - 1].steps,
            abase + (n - 1),
            sbase + tally_actors(acts.take(n - 1)).steps,
            acts[n - 1].steps.len() as int,
        );
        lemma_tally_actors_snoc(acts, n - 1);
        lemma_tally_steps_count(acts[n - 1].steps);
    }
}

/// Length of the whole sentinel step table.
pub proof fn lemma_step1_table_len(evs: Seq<EventV>, n: int)
    requires
        0 <= n <= evs.len(),
        forall|i: int| 0 <= i < evs.len() ==> event_encodable(#[trigger] evs[i]),
    ensures
        step1_table(evs, n).len() == (RawStep1::SIZE as int) * tally_events(evs.take(n)).steps,
    decreases n,
{
    if n == 0 {
        assert(evs.take(0) =~= Seq::<EventV>::empty());
    } else {
        lemma_step1_table_len(evs, n - 1);
        assert(event_encodable(evs[n - 1]));
        lemma_step1_rows_actors_len(
            evs[n - 1].actors,
            tally_events(evs.take(n - 1)).actors,
            tally_events(evs.take(n - 1)).steps,
            evs[n - 1].actors.len() as int,
        );
        assert(evs[n - 1].actors.take(evs[n - 1].actors.len() as int) =~= evs[n - 1].actors);
        lemma_tally_events_snoc(evs, n - 1);
    }
}

/// A tally counts one actor per actor record; parameters contribute no
/// actor and no step.
pub proof fn lemma_tally_actors_count(acts: Seq<ActorV>)
    ensures
        tally_actors(acts).actors == acts.len(),
    decreases acts.len(),
{
    if acts.len() > 0 {
        lemma_tally_actors_count(acts.drop_last());
        lemma_tally_steps_count(acts.last().steps);
    }
}

/// A tally counts one step per step record, and steps contribute no
/// actor.
pub proof fn lemma_tally_steps_count(ss: Seq<StepV>)
    ensures
        tally_steps(ss).steps == ss.len(),
        tally_steps(ss).actors == 0,
    decreases ss.len(),
{
    if ss.len() > 0 {
        lemma_tally_steps_count(ss.drop_last());
        lemma_tally_datas_count(ss.last().data);
    }
}

/// A tally counts one data definition per parameter, and parameters
/// contribute no actor and no step.
pub proof fn lemma_tally_datas_count(ds: Seq<StepDataV>)
    ensures
        tally_datas(ds).datadefs == ds.len(),
        tally_datas(ds).actors == 0,
        tally_datas(ds).steps == 0,
    decreases ds.len(),
{
    if ds.len() > 0 {
        lemma_tally_datas_count(ds.drop_last());
    }
}

/// Appends one serialized event record.
fn append_raw_event(out: &mut Vec<u8>, e: &RawEvent)
    requires
        e.name@.len() <= 32,
    ensures
        final(out)@ == old(out)@.add(raw_event_bytes(e.deep_view())),
{
    let mut tmp = crate::bytes::zero_vec(RawEvent::SIZE);
    e.write(&mut tmp, 0);
    proof {
        assert(tmp@ =~= raw_event_bytes(e.deep_view()));
    }
    out.append(&mut tmp);
}

/// Appends one serialized actor record.
fn append_raw_actor(out: &mut Vec<u8>, a: &RawActor)
    requires
        a.name@.len() <= 32,
    ensures
        final(out)@ == old(out)@.add(raw_actor_bytes(a.deep_view())),
{
    let mut tmp = crate::bytes::zero_vec(RawActor::SIZE);
    a.write(&mut tmp, 0);
    proof {
        assert(tmp@ =~= raw_actor_bytes(a.deep_view()));
    }
    out.append(&mut tmp);
}

/// Appends one serialized step-part-one record.
fn append_raw_step1(out: &mut Vec<u8>, r: &RawStep1)
    requires
        r.name@.len() <= 16,
    ensures
        final(out)@ == old(out)@.add(raw_step1_bytes(r.deep_view())),
{
    let mut tmp = crate::bytes::zero_vec(RawStep1::SIZE);
    r.write(&mut tmp, 0);
    proof {
        assert(tmp@ =~= raw_step1_bytes(r.deep_view()));
    }
    out.append(&mut tmp);
}

/// Appends one serialized step-part-two record.
fn append_raw_step2(out: &mut Vec<u8>, r: &RawStep2)
    requires
        r.name@.len() <= 4,
    ensures
        final(out)@ == old(out)@.add(raw_step2_bytes(r.deep_view())),
{
    let mut tmp = crate::bytes::zero_vec(RawStep2::SIZE);
    r.write(&mut tmp, 0);
    proof {
        assert(tmp@ =~= raw_step2_bytes(r.deep_view()));
    }
    out.append(&mut tmp);
}

/// Appends one serialized data-definition record.
fn append_raw_datadef(out: &mut Vec<u8>, r: &RawDataDef)
    requires
        r.name@.len() <= 4,
    ensures
        final(out)@ == old(out)@.add(raw_datadef_bytes(r.deep_view())),
{
    let mut tmp = crate::bytes::zero_vec(RawDataDef::SIZE);
    r.write(&mut tmp, 0);
    proof {
        assert(tmp@ =~= raw_datadef_bytes(r.deep_view()));
    }
    out.append(&mut tmp);
}

/// Appends the big-endian bytes of every value of a 32-bit list.
fn append_u32_values(out: &mut Vec<u8>, v: &Vec<u32>)
    ensures
        final(out)@ == old(out)@.add(u32s_bytes(v@, v@.len() as int)),
{
    let n = v.len();
    let mut w: usize = 0;
    proof {
        assert(out@ =~= out@.add(u32s_bytes(v@, 0)));
    }
    while w < n
        invariant
            n == v@.len(),
            w <= n,
            out@ == old(out)@.add(u32s_bytes(v@, w as int)),
        decreases n - w,
    {
        let ghost pre = out@;
        let x = v[w];
        out.push((x / 0x1000000) as u8);
        out.push(((x / 0x10000) % 256) as u8);
        out.push(((x / 256) % 256) as u8);
        out.push((x % 256) as u8);
        proof {
            assert(out@ =~= pre.add(u32_bytes(x)));
            assert(out@ =~= old(out)@.add(u32s_bytes(v@, w + 1)));
        }
        w += 1;
    }
}

/// Appends one string value: its bytes and the zero terminator.
fn append_str_value(out: &mut Vec<u8>, s: &Vec<u8>)
    ensures
        final(out)@ == old(out)@.add(str_bytes(s@)),
{
    let n = s.len();
    let mut w: usize = 0;
    while w < n
        invariant
            n == s@.len(),
            w <= n,
            out@ == old(out)@.add(s@.take(w as int)),
        decreases n - w,
    {
        let ghost pre = out@;
        out.push(s[w]);
        proof {
            assert(out@ =~= old(out)@.add(s@.take(w + 1)));
        }
        w += 1;
    }
    out.push(0);
    proof {
        assert(s@.take(n as int) =~= s@);
        assert(out@ =~= old(out)@.add(str_bytes(s@)));
    }
}

/// Emits the data definitions and blob values of one step, advancing
/// the global data-definition and blob cursors.
#[verifier::rlimit(60)]
#[verifier::spinoff_prover]
fn emit_datas(
    ds: &Vec<StepData>,
    ddb: &mut Vec<u8>,
    ib: &mut Vec<u8>,
    fb: &mut Vec<u8>,
    sb: &mut Vec<u8>,
    cd: &mut usize,
    ci: &mut usize,
    cf: &mut usize,
    ct: &mut usize,
)
    requires
        forall|m: int| 0 <= m < ds.deep_view().len() ==> data_encodable(#[trigger] ds.deep_view()[m]),
        *old(cd) + tally_datas(ds.deep_view()).datadefs <= 0xFFFF,
        *old(ci) + tally_datas(ds.deep_view()).ints <= 0xFFFF,
        *old(cf) + tally_datas(ds.deep_view()).floats <= 0xFFFF,
        *old(ct) + tally_datas(ds.deep_view()).strbytes <= 0xFFFF,
    ensures
        ({
            let dv = ds.deep_view();
            let n = dv.len() as int;
            &&& final(ddb)@ == old(ddb)@.add(
                datadef_rows_datas(dv, *old(ci) as int, *old(cf) as int, *old(ct) as int, n),
            )
            &&& final(ib)@ == old(ib)@.add(int_blob_datas(dv, n))
            &&& final(fb)@ == old(fb)@.add(float_blob_datas(dv, n))
            &&& final(sb)@ == old(sb)@.add(string_blob_datas(dv, n))
            &&& *final(cd) == *old(cd) + tally_datas(dv).datadefs
            &&& *final(ci) == *old(ci) + tally_datas(dv).ints
            &&& *final(cf) == *old(cf) + tally_datas(dv).floats
            &&& *final(ct) == *old(ct) + tally_datas(dv).strbytes
        }),
{
    let ghost dv = ds.deep_view();
    let n = ds.len();
    let mut m: usize = 0;
    proof {
        assert(dv.take(0) =~= Seq::<StepDataV>::empty());
    }
    while m < n
        invariant
            n == dv.len(),
            m <= n,
            dv == ds.deep_view(),
            *cd == *old(cd) + tally_datas(dv.take(m as int)).datadefs,
            *ci == *old(ci) + tally_datas(dv.take(m as int)).ints,
            *cf == *old(cf) + tally_datas(dv.take(m as int)).floats,
            *ct == *old(ct) + tally_datas(dv.take(m as int)).strbytes,
            ddb@ == old(ddb)@.add(
                datadef_rows_datas(
                    dv,
                    *old(ci) as int,
                    *old(cf) as int,
                    *old(ct) as int,
                    m as int,
                ),
            ),
            ib@ == old(ib)@.add(int_blob_datas(dv, m as int)),
            fb@ == old(fb)@.add(float_blob_datas(dv, m as int)),
            sb@ == old(sb)@.add(string_blob_datas(dv, m as int)),
        decreases n - m,
    {
        proof {
            lemma_tally_datas_snoc(dv, m as int);
            lemma_tally_datas_prefix(dv, m + 1);
            lemma_tally_datas_nonneg(dv.take(m as int));
            assert(data_encodable(dv[m as int]));
        }
        let ghost ddb_pre = ddb@;
        let ghost ib_pre = ib@;
        let ghost fb_pre = fb@;
        let ghost sb_pre = sb@;
        let d = &ds[m];
        proof {
            assert(d.deep_view() == dv[m as int]);
        }
        match &d.values {
            StepDataValues::Ints(v) => {
                append_u32_values(ib, v);
                let rec = RawDataDef {
                    name: crate::bytes::clone_bytes(&d.name),
                    unk1: d.unk1,
                    datatype: 0,
                    dataindex: *ci as u16,
                    datalen: v.len() as u16,
                };
                append_raw_datadef(ddb, &rec);
                proof {
                    assert(rec.deep_view() == raw_datadef_of(
                        dv[m as int],
                        *ci as int,
                        *cf as int,
                        *ct as int,
                    ));
                }
                *ci = *ci + v.len();
            },
            StepDataValues::Floats(v) => {
                append_u32_values(fb, v);
                let rec = RawDataDef {
                    name: crate::bytes::clone_bytes(&d.name),
                    unk1: d.unk1,
                    datatype: 1,
                    dataindex: *cf as u16,
                    datalen: v.len() as u16,
                };
                append_raw_datadef(ddb, &rec);
                proof {
                    assert(rec.deep_view() == raw_datadef_of(
                        dv[m as int],
                        *ci as int,
                        *cf as int,
                        *ct as int,
                    ));
                }
                *cf = *cf + v.len();
            },
            StepDataValues::String(t) => {
                append_str_value(sb, t);
                let rec = RawDataDef {
                    name: crate::bytes::clone_bytes(&d.name),
                    unk1: d.unk1,
                    datatype: 2,
                    dataindex: *ct as u16,
                    datalen: (t.len() + 1) as u16,
                };
                append_raw_datadef(ddb, &rec);
                proof {
                    assert(rec.deep_view() == raw_datadef_of(
                        dv[m as int],
                        *ci as int,
                        *cf as int,
                        *ct as int,
                    ));
                }
                *ct = *ct + (t.len() + 1);
            },
        }
        *cd = *cd + 1;
        proof {
            assert(ddb@ =~= old(ddb)@.add(
                datadef_rows_datas(
                    dv,
                    *old(ci) as int,
                    *old(cf) as int,
                    *old(ct) as int,
                    m + 1,
                ),
            ));
            assert(ib@ =~= old(ib)@.add(int_blob_datas(dv, m + 1)));
            assert(fb@ =~= old(fb)@.add(float_blob_datas(dv, m + 1)));
            assert(sb@ =~= old(sb)@.add(string_blob_datas(dv, m + 1)));
        }
        m += 1;
    }
    proof {
        assert(dv.take(n as int) =~= dv);
    }
}

/// Emits the paired step records, data definitions and blob values of
/// one actor's steps, advancing the global step cursor and the data
/// cursors.  `ga` is the actor's global index.
#[verifier::rlimit(60)]
#[verifier::spinoff_prover]
fn emit_steps(
    ss: &Vec<Step>,
    ga: usize,
    s1b: &mut Vec<u8>,
    s2b: &mut Vec<u8>,
    ddb: &mut Vec<u8>,
    ib: &mut Vec<u8>,
    fb: &mut Vec<u8>,
    sb: &mut Vec<u8>,
    cs: &mut usize,
    cd: &mut usize,
    ci: &mut usize,
    cf: &mut usize,
    ct: &mut usize,
)
    requires
        forall|k: int| 0 <= k < ss.deep_view().len() ==> step_encodable(#[trigger] ss.deep_view()[k]),
        ga <= 0xFFFF,
        *old(cs) + tally_steps(ss.deep_view()).steps <= 0xFFFF,
        *old(cd) + tally_steps(ss.deep_view()).datadefs <= 0xFFFF,
        *old(ci) + tally_steps(ss.deep_view()).ints <= 0xFFFF,
        *old(cf) + tally_steps(ss.deep_view()).floats <= 0xFFFF,
        *old(ct) + tally_steps(ss.deep_view()).strbytes <= 0xFFFF,
    ensures
        ({
            let dv = ss.deep_view();
            let n = dv.len() as int;
            &&& final(s1b)@ == old(s1b)@.add(
                step1_rows_steps(dv, ga as int, *old(cs) as int, n),
            )
            &&& final(s2b)@ == old(s2b)@.add(
                step2_rows_steps(dv, *old(cs) as int, *old(cd) as int, n),
            )
            &&& final(ddb)@ == old(ddb)@.add(
                datadef_rows_steps(dv, *old(ci) as int, *old(cf) as int, *old(ct) as int, n),
            )
            &&& final(ib)@ == old(ib)@.add(int_blob_steps(dv, n))
            &&& final(fb)@ == old(fb)@.add(float_blob_steps(dv, n))
            &&& final(sb)@ == old(sb)@.add(string_blob_steps(dv, n))
            &&& *final(cs) == *old(cs) + tally_steps(dv).steps
            &&& *final(cd) == *old(cd) + tally_steps(dv).datadefs
            &&& *final(ci) == *old(ci) + tally_steps(dv).ints
            &&& *final(cf) == *old(cf) + tally_steps(dv).floats
            &&& *final(ct) == *old(ct) + tally_steps(dv).strbytes
        }),
{
    let ghost dv = ss.deep_view();
    let n = ss.len();
    let mut k: usize = 0;
    proof {
        assert(dv.take(0) =~= Seq::<StepV>::empty());
        lemma_tally_steps_count(dv);
    }
    while k < n
        invariant
            n == dv.len(),
            k <= n,
            dv == ss.deep_view(),
            ga <= 0xFFFF,
            *cs == *old(cs) + tally_steps(dv.take(k as int)).steps,
            *cd == *old(cd) + tally_steps(dv.take(k as int)).datadefs,
            *ci == *old(ci) + tally_steps(dv.take(k as int)).ints,
            *cf == *old(cf) + tally_steps(dv.take(k as int)).floats,
            *ct == *old(ct) + tally_steps(dv.take(k as int)).strbytes,
            s1b@ == old(s1b)@.add(step1_rows_steps(dv, ga as int, *old(cs) as int, k as int)),
            s2b@ == old(s2b)@.add(
                step2_rows_steps(dv, *old(cs) as int, *old(cd) as int, k as int),
            ),
            ddb@ == old(ddb)@.add(
                datadef_rows_steps(dv, *old(ci) as int, *old(cf) as int, *old(ct) as int, k as int),
            ),
            ib@ == old(ib)@.add(int_blob_steps(dv, k as int)),
            fb@ == old(fb)@.add(float_blob_steps(dv, k as int)),
            sb@ == old(sb)@.add(string_blob_steps(dv, k as int)),
        decreases n - k,
    {
        proof {
            lemma_tally_steps_snoc(dv, k as int);
            lemma_tally_steps_prefix(dv, k + 1);
            lemma_tally_steps_nonneg(dv.take(k as int));
            lemma_tally_steps_count(dv.take(k as int));
            lemma_tally_datas_nonneg(dv[k as int].data);
            assert(step_encodable(dv[k as int]));
            lemma_tally_datas_count(dv[k as int].data);
        }
        let ghost s1_pre = s1b@;
        let ghost s2_pre = s2b@;
        let ghost dd_pre = ddb@;
        let st = &ss[k];
        proof {
            assert(st.deep_view() == dv[k as int]);
        }
        let rec1 = RawStep1 {
            name: crate::bytes::clone_bytes(&st.long_name),
            waitfor: 0xFFFF,
            actorindex: ga as u16,
            unk3: st.unk1,
            dummy0: 0,
            thisindex: *cs as u16,
            dummy1: 1,
        };
        append_raw_step1(s1b, &rec1);
        proof {
            assert(rec1.deep_view() == raw_step1_of(dv[k as int], ga as int, *cs as int));
        }
        let rec2 = RawStep2 {
            name: crate::bytes::clone_bytes(&st.name),
            unk1: st.unk2,
            thisindex: *cs as u16,
            datadefindex: *cd as u16,
            datadefcount: st.data.len() as u16,
        };
        append_raw_step2(s2b, &rec2);
        proof {
            assert(rec2.deep_view() == raw_step2_of(dv[k as int], *cs as int, *cd as int));
        }
        *cs = *cs + 1;
        emit_datas(&st.data, ddb, ib, fb, sb, cd, ci, cf, ct);
        proof {
            assert(s1b@ =~= old(s1b)@.add(
                step1_rows_steps(dv, ga as int, *old(cs) as int, k + 1),
            ));
            assert(s2b@ =~= old(s2b)@.add(
                step2_rows_steps(dv, *old(cs) as int, *old(cd) as int, k + 1),
            ));
            assert(ddb@ =~= old(ddb)@.add(
                datadef_rows_steps(dv, *old(ci) as int, *old(cf) as int, *old(ct) as int, k + 1),
            ));
            assert(ib@ =~= old(ib)@.add(int_blob_steps(dv, k + 1)));
            assert(fb@ =~= old(fb)@.add(float_blob_steps(dv, k + 1)));
            assert(sb@ =~= old(sb)@.add(string_blob_steps(dv, k + 1)));
        }
        k += 1;
    }
    proof {
        assert(dv.take(n as int) =~= dv);
    }
}

/// Emits the actor records and everything their steps own for one
/// event, advancing every global cursor.  `ca` is the global actor
/// cursor, which doubles as each step record's owning-actor index.
#[verifier::rlimit(60)]
#[verifier::spinoff_prover]
fn emit_actors(
    acts: &Vec<Actor>,
    atab: &mut Vec<u8>,
    s1b: &mut Vec<u8>,
    s2b: &mut Vec<u8>,
    ddb: &mut Vec<u8>,
    ib: &mut Vec<u8>,
    fb: &mut Vec<u8>,
    sb: &mut Vec<u8>,
    ca: &mut usize,
    cs: &mut usize,
    cd: &mut usize,
    ci: &mut usize,
    cf: &mut usize,
    ct: &mut usize,
)
    requires
        forall|j: int|
            0 <= j < acts.deep_view().len() ==> actor_encodable(#[trigger] acts.deep_view()[j]),
        *old(ca) + tally_actors(acts.deep_view()).actors <= 0xFFFF,
        *old(cs) + tally_actors(acts.deep_view()).steps <= 0xFFFF,
        *old(cd) + tally_actors(acts.deep_view()).datadefs <= 0xFFFF,
        *old(ci) + tally_actors(acts.deep_view()).ints <= 0xFFFF,
        *old(cf) + tally_actors(acts.deep_view()).floats <= 0xFFFF,
        *old(ct) + tally_actors(acts.deep_view()).strbytes <= 0xFFFF,
    ensures
        ({
            let dv = acts.deep_view();
            let n = dv.len() as int;
            &&& final(atab)@ == old(atab)@.add(actor_rows(dv, *old(cs) as int, n))
            &&& final(s1b)@ == old(s1b)@.add(
                step1_rows_actors(dv, *old(ca) as int, *old(cs) as int, n),
            )
            &&& final(s2b)@ == old(s2b)@.add(
                step2_rows_actors(dv, *old(cs) as int, *old(cd) as int, n),
            )
            &&& final(ddb)@ == old(ddb)@.add(
                datadef_rows_actors(dv, *old(ci) as int, *old(cf) as int, *old(ct) as int, n),
            )
            &&& final(ib)@ == old(ib)@.add(int_blob_actors(dv, n))
            &&& final(fb)@ == old(fb)@.add(float_blob_actors(dv, n))
            &&& final(sb)@ == old(sb)@.add(string_blob_actors(dv, n))
            &&& *final(ca) == *old(ca) + tally_actors(dv).actors
            &&& *final(cs) == *old(cs) + tally_actors(dv).steps
            &&& *final(cd) == *old(cd) + tally_actors(dv).datadefs
            &&& *final(ci) == *old(ci) + tally_actors(dv).ints
            &&& *final(cf) == *old(cf) + tally_actors(dv).floats
            &&& *final(ct) == *old(ct) + tally_actors(dv).strbytes
        }),
{
    let ghost dv = acts.deep_view();
    let n = acts.len();
    let mut j: usize = 0;
    proof {
        assert(dv.take(0) =~= Seq::<ActorV>::empty());
        lemma_tally_actors_count(dv);
    }
    while j < n
        invariant
            n == dv.len(),
            j <= n,
            dv == acts.deep_view(),
            *ca == *old(ca) + tally_actors(dv.take(j as int)).actors,
            *cs == *old(cs) + tally_actors(dv.take(j as int)).steps,
            *cd == *old(cd) + tally_actors(dv.take(j as int)).datadefs,
            *ci == *old(ci) + tally_actors(dv.take(j as int)).ints,
            *cf == *old(cf) + tally_actors(dv.take(j as int)).floats,
            *ct == *old(ct) + tally_actors(dv.take(j as int)).strbytes,
            atab@ == old(atab)@.add(actor_rows(dv, *old(cs) as int, j as int)),
            s1b@ == old(s1b)@.add(
                step1_rows_actors(dv, *old(ca) as int, *old(cs) as int, j as int),
            ),
            s2b@ == old(s2b)@.add(
                step2_rows_actors(dv, *old(cs) as int, *old(cd) as int, j as int),
            ),
            ddb@ == old(ddb)@.add(
                datadef_rows_actors(
                    dv,
                    *old(ci) as int,
                    *old(cf) as int,
                    *old(ct) as int,
                    j as int,
                ),
            ),
            ib@ == old(ib)@.add(int_blob_actors(dv, j as int)),
            fb@ == old(fb)@.add(float_blob_actors(dv, j as int)),
            sb@ == old(sb)@.add(string_blob_actors(dv, j as int)),
        decreases n - j,
    {
        proof {
            lemma_tally_actors_snoc(dv, j as int);
            lemma_tally_actors_prefix(dv, j + 1);
            lemma_tally_actors_nonneg(dv.take(j as int));
            lemma_tally_actors_count(dv.take(j as int));
            lemma_tally_steps_nonneg(dv[j as int].steps);
            lemma_tally_steps_count(dv[j as int].steps);
            assert(actor_encodable(dv[j as int]));
        }
        let ghost atab_pre = atab@;
        let a = &acts[j];
        proof {
            assert(a.deep_view() == dv[j as int]);
        }
        let rec = RawActor {
            name: crate::bytes::clone_bytes(&a.name),
            unk1: a.unk1,
            unk2: a.unk2,
            stepindex: *cs as u16,
            stepcount: a.steps.len() as u16,
        };
        append_raw_actor(atab, &rec);
        proof {
            assert(rec.deep_view() == raw_actor_of(dv[j as int], *cs as int));
        }
        let ga = *ca;
        emit_steps(&a.steps, ga, s1b, s2b, ddb, ib, fb, sb, cs, cd, ci, cf, ct);
        *ca = *ca + 1;
        proof {
            assert(atab@ =~= old(atab)@.add(actor_rows(dv, *old(cs) as int, j + 1)));
            assert(s1b@ =~= old(s1b)@.add(
                step1_rows_actors(dv, *old(ca) as int, *old(cs) as int, j + 1),
            ));
            assert(s2b@ =~= old(s2b)@.add(
                step2_rows_actors(dv, *old(cs) as int, *old(cd) as int, j + 1),
            ));
            assert(ddb@ =~= old(ddb)@.add(
                datadef_rows_actors(
                    dv,
                    *old(ci) as int,
                    *old(cf) as int,
                    *old(ct) as int,
                    j + 1,
                ),
            ));
            assert(ib@ =~= old(ib)@.add(int_blob_actors(dv, j + 1)));
            assert(fb@ =~= old(fb)@.add(float_blob_actors(dv, j + 1)));
            assert(sb@ =~= old(sb)@.add(string_blob_actors(dv, j + 1)));
        }
        j += 1;
    }
    proof {
        assert(dv.take(n as int) =~= dv);
    }
}

/// The comparator only ever yields one of three values.
pub proof fn lemma_nin_cmp_range(s1: Seq<u8>, s2: Seq<u8>, i: int)
    requires
        0 <= i,
    ensures
        -1 <= nin_cmp_from(s1, s2, i) <= 1,
    decreases (if s1.len() <= s2.len() {
        s1.len() as int
    } else {
        s2.len() as int
    }) + 1 - i,
{
    let m = if s1.len() <= s2.len() {
        s1.len() as int
    } else {
        s2.len() as int
    };
    if i <= m {
        lemma_nin_cmp_range(s1, s2, i + 1);
    }
}

/// Sorts the raw event records by the name comparator, keeping
/// construction order among equal names.
fn sort_raw_events_by_name(v: Vec<RawEvent>) -> (r: Vec<RawEvent>)
    ensures
        r.deep_view() == sort_events_by_name(v.deep_view()),
{
    let ghost dv0 = v.deep_view();
    let mut rest = v;
    let mut out: Vec<RawEvent> = Vec::new();
    let n = rest.len();
    proof {
        assert(rest.deep_view() =~= dv0.skip(0));
        assert(out.deep_view() =~= Seq::<RawEventV>::empty());
        assert(dv0.take(0) =~= Seq::<RawEventV>::empty());
    }
    let mut i: usize = 0;
    while i < n
        invariant
            n == dv0.len(),
            i <= n,
            rest.deep_view() == dv0.skip(i as int),
            out.deep_view() == sort_events_by_name(dv0.take(i as int)),
        decreases n - i,
    {
        let ghost out_pre = out.deep_view();
        let ghost rest_pre = rest@;
        let ghost rest_pre_dv = rest.deep_view();
        let e = rest.remove(0);
        proof {
            assert(forall|t: int| 0 <= t < rest@.len() ==> rest@[t] == rest_pre[t + 1]);
            assert forall|t: int| 0 <= t < rest.deep_view().len() implies rest.deep_view()[t]
                == dv0.skip(i + 1)[t] by {
                assert(rest.deep_view()[t] == rest@[t].deep_view());
                assert(rest_pre_dv[t + 1] == rest_pre[t + 1].deep_view());
            }
            assert(rest.deep_view() =~= dv0.skip(i + 1));
            assert(e.deep_view() == rest_pre_dv[0]);
            assert(e.deep_view() == dv0[i as int]);
        }
        let mut k = out.len();
        while k > 0
            invariant
                k <= out.len(),
                out.deep_view() == out_pre,
                forall|j: int|
                    k <= j < out_pre.len() ==> nin_cmp(
                        (#[trigger] out_pre[j]).name,
                        e.deep_view().name,
                    ) > 0,
            decreases k,
        {
            proof {
                assert(out_pre[k - 1] == out@[k - 1].deep_view());
                lemma_nin_cmp_range(out_pre[k - 1].name, e.deep_view().name, 0);
            }
            match nin_sort(out[k - 1].name.as_slice(), e.name.as_slice()) {
                core::cmp::Ordering::Greater => {
                    k -= 1;
                },
                _ => {
                    break ;
                },
            }
        }
        proof {
            if k > 0 {
                assert(out_pre[k - 1] == out@[k - 1].deep_view());
                lemma_nin_cmp_range(out_pre[k - 1].name, e.deep_view().name, 0);
            }
            lemma_insert_by_name_split(out_pre, e.deep_view(), k as int);
        }
        out.insert(k, e);
        proof {
            assert(out.deep_view() =~= out_pre.take(k as int).add(seq![e.deep_view()]).add(
                out_pre.skip(k as int),
            ));
            assert(dv0.take(i + 1).drop_last() =~= dv0.take(i as int));
            assert(dv0.take(i + 1).last() == dv0[i as int]);
        }
        i += 1;
    }
    proof {
        assert(dv0.take(n as int) =~= dv0);
    }
    out
}

/// Serializes the name-sorted event records into the on-disk event
/// table.
fn build_event_table(sorted: &Vec<RawEvent>) -> (r: Vec<u8>)
    requires
        raw_event_names_fit(sorted.deep_view()),
    ensures
        r@ == raw_event_rows(sorted.deep_view(), sorted.deep_view().len() as int),
{
    let ghost dv = sorted.deep_view();
    let n = sorted.len();
    let mut out: Vec<u8> = Vec::new();
    proof {
        assert(out@ =~= raw_event_rows(dv, 0));
    }
    let mut i: usize = 0;
    while i < n
        invariant
            n == dv.len(),
            i <= n,
            dv == sorted.deep_view(),
            raw_event_names_fit(dv),
            out@ == raw_event_rows(dv, i as int),
        decreases n - i,
    {
        let ghost pre = out@;
        proof {
            assert(sorted@[i as int].deep_view() == dv[i as int]);
            assert(dv[i as int].name.len() <= 32);
        }
        append_raw_event(&mut out, &sorted[i]);
        proof {
            assert(out@ =~= pre.add(raw_event_bytes(dv[i as int])));
        }
        i += 1;
    }
    out
}

/// Patches one event's dependency edges into the sentinel step table.
/// `sbase` is the event's step-range start; the table is section-local,
/// so a record's field sits at its global step index times the record
/// size.
#[verifier::rlimit(60)]
#[verifier::spinoff_prover]
fn patch_event_edges(s1b: &mut Vec<u8>, ev: &Event, sbase: usize, total_steps: usize)
    requires
        event_encodable(ev.deep_view()),
        ev.deep_view().coords_bounded(),
        sbase + tally_actors(ev.deep_view().actors).steps <= total_steps,
        total_steps <= 0xFFFF,
        old(s1b)@.len() == (RawStep1::SIZE as int) * total_steps,
    ensures
        final(s1b)@ == apply_event_patches(
            old(s1b)@,
            ev.deep_view(),
            sbase as int,
            ev.deep_view().wait_fors.len() as int,
        ),
        final(s1b)@.len() == old(s1b)@.len(),
{
    let ghost edv = ev.deep_view();
    let ghost acts = edv.actors;
    let n_actors = ev.actors.len();
    let mut offs: Vec<usize> = Vec::new();
    let mut cur: usize = sbase;
    proof {
        assert(acts.take(0) =~= Seq::<ActorV>::empty());
        lemma_tally_actors_nonneg(acts);
    }
    let mut j: usize = 0;
    while j < n_actors
        invariant
            n_actors == acts.len(),
            j <= n_actors,
            acts == ev.deep_view().actors,
            offs@.len() == j,
            forall|t: int|
                0 <= t < j ==> #[trigger] offs@[t] == sbase + tally_actors(acts.take(t)).steps,
            cur == sbase + tally_actors(acts.take(j as int)).steps,
            sbase + tally_actors(acts).steps <= total_steps,
        decreases n_actors - j,
    {
        proof {
            lemma_tally_actors_snoc(acts, j as int);
            lemma_tally_actors_prefix(acts, j + 1);
            lemma_tally_actors_nonneg(acts.take(j as int));
            lemma_tally_steps_count(acts[j as int].steps);
            lemma_tally_steps_nonneg(acts[j as int].steps);
            assert(ev.actors@[j as int].deep_view() == acts[j as int]);
        }
        offs.push(cur);
        cur = cur + ev.actors[j].steps.len();
        j += 1;
    }
    let n_edges = ev.wait_fors.len();
    let ghost tbl0 = s1b@;
    let mut w: usize = 0;
    while w < n_edges
        invariant
            n_edges == edv.wait_fors.len(),
            w <= n_edges,
            edv == ev.deep_view(),
            acts == edv.actors,
            offs@.len() == acts.len(),
            forall|t: int|
                0 <= t < acts.len() ==> #[trigger] offs@[t] == sbase + tally_actors(
                    acts.take(t),
                ).steps,
            sbase + tally_actors(acts).steps <= total_steps,
            total_steps <= 0xFFFF,
            s1b@.len() == tbl0.len() == (RawStep1::SIZE as int) * total_steps,
            s1b@ == apply_event_patches(tbl0, edv, sbase as int, w as int),
        decreases n_edges - w,
    {
        let edge = ev.wait_fors[w];
        proof {
            assert(edv.wait_fors[w as int] == edge);
            assert(edv.edges_in_range());
            assert(edv.has_coord(edge.waiting.actor_idx as int, edge.waiting.step_idx as int));
            assert(edv.has_coord(
                edge.waiting_on.actor_idx as int,
                edge.waiting_on.step_idx as int,
            ));
        }
        let wa = edge.waiting.actor_idx as usize;
        let oa = edge.waiting_on.actor_idx as usize;
        proof {
            lemma_tally_actors_snoc(acts, wa as int);
            lemma_tally_actors_prefix(acts, wa + 1);
            lemma_tally_steps_count(acts[wa as int].steps);
            lemma_tally_steps_nonneg(acts[wa as int].steps);
            lemma_tally_actors_snoc(acts, oa as int);
            lemma_tally_actors_prefix(acts, oa + 1);
            lemma_tally_steps_count(acts[oa as int].steps);
            lemma_tally_steps_nonneg(acts[oa as int].steps);
            lemma_tally_actors_nonneg(acts.take(wa as int));
            lemma_tally_actors_nonneg(acts.take(oa as int));
        }
        let wgs = offs[wa] + edge.waiting.step_idx as usize;
        let ogs = offs[oa] + edge.waiting_on.step_idx as usize;
        proof {
            assert(wgs == gs_of_ref(acts, sbase as int, edge.waiting));
            assert(ogs == gs_of_ref(acts, sbase as int, edge.waiting_on));
            assert(wgs < total_steps);
            assert(ogs < total_steps);
        }
        crate::bytes::write_u16_at(s1b, wgs * RawStep1::SIZE + 16, ogs as u16);
        w += 1;
    }
    proof {
        assert(edv.wait_fors.len() as int == n_edges as int);
    }
}

/// Every flat table and blob in construction order, with the running
/// totals that become the header counts.
struct Sections {
    raw_evts: Vec<RawEvent>,
    atab: Vec<u8>,
    s1b: Vec<u8>,
    s2b: Vec<u8>,
    ddb: Vec<u8>,
    ib: Vec<u8>,
    fb: Vec<u8>,
    sb: Vec<u8>,
    ca: usize,
    cs: usize,
    cd: usize,
    ci: usize,
    cf: usize,
    ct: usize,
}

/// Builds every table and blob in construction order; the step table
/// still carries the "no dependency" sentinel everywhere.
#[verifier::rlimit(60)]
#[verifier::spinoff_prover]
fn build_sections(zevs: &Vec<Event>) -> (r: Sections)
    requires
        graph_encodable(zevs.deep_view()),
    ensures
        ({
            let dv = zevs.deep_view();
            let n = dv.len() as int;
            &&& r.raw_evts.deep_view() == raw_events_of(dv, n)
            &&& r.atab@ == actor_table(dv, n)
            &&& r.s1b@ == step1_table(dv, n)
            &&& r.s2b@ == step2_table(dv, n)
            &&& r.ddb@ == datadef_table(dv, n)
            &&& r.ib@ == int_blob(dv, n)
            &&& r.fb@ == float_blob(dv, n)
            &&& r.sb@ == string_blob(dv, n)
            &&& r.ca == tally_events(dv).actors
            &&& r.cs == tally_events(dv).steps
            &&& r.cd == tally_events(dv).datadefs
            &&& r.ci == tally_events(dv).ints
            &&& r.cf == tally_events(dv).floats
            &&& r.ct == tally_events(dv).strbytes
        }),
{
    let ghost dv = zevs.deep_view();
    let n = zevs.len();
    let mut raw_evts: Vec<RawEvent> = Vec::new();
    let mut atab: Vec<u8> = Vec::new();
    let mut s1b: Vec<u8> = Vec::new();
    let mut s2b: Vec<u8> = Vec::new();
    let mut ddb: Vec<u8> = Vec::new();
    let mut ib: Vec<u8> = Vec::new();
    let mut fb: Vec<u8> = Vec::new();
    let mut sb: Vec<u8> = Vec::new();
    let mut ca: usize = 0;
    let mut cs: usize = 0;
    let mut cd: usize = 0;
    let mut ci: usize = 0;
    let mut cf: usize = 0;
    let mut ct: usize = 0;
    proof {
        assert(dv.take(0) =~= Seq::<EventV>::empty());
        assert(raw_evts.deep_view() =~= Seq::<RawEventV>::empty());
    }
    let mut i: usize = 0;
    while i < n
        invariant
            n == dv.len(),
            i <= n,
            dv == zevs.deep_view(),
            graph_encodable(dv),
            ca == tally_events(dv.take(i as int)).actors,
            cs == tally_events(dv.take(i as int)).steps,
            cd == tally_events(dv.take(i as int)).datadefs,
            ci == tally_events(dv.take(i as int)).ints,
            cf == tally_events(dv.take(i as int)).floats,
            ct == tally_events(dv.take(i as int)).strbytes,
            raw_evts.deep_view() == raw_events_of(dv, i as int),
            atab@ == actor_table(dv, i as int),
            s1b@ == step1_table(dv, i as int),
            s2b@ == step2_table(dv, i as int),
            ddb@ == datadef_table(dv, i as int),
            ib@ == int_blob(dv, i as int),
            fb@ == float_blob(dv, i as int),
            sb@ == string_blob(dv, i as int),
        decreases n - i,
    {
        proof {
            lemma_tally_events_item(dv, i as int);
            lemma_tally_events_snoc(dv, i as int);
            lemma_tally_events_prefix(dv, i + 1);
            lemma_tally_events_nonneg(dv.take(i as int));
            lemma_tally_actors_count(dv[i as int].actors);
            lemma_tally_actors_nonneg(dv[i as int].actors);
            assert(event_encodable(dv[i as int]));
        }
        let ghost raw_pre = raw_evts.deep_view();
        let ev = &zevs[i];
        proof {
            assert(ev.deep_view() == dv[i as int]);
        }
        let re = RawEvent {
            name: crate::bytes::clone_bytes(&ev.name),
            dummy1: 0,
            unk1: ev.unk1,
            dummy2: 0,
            actorindex: ca as u16,
            actorcount: ev.actors.len() as u16,
        };
        let ghost re_dv = re.deep_view();
        raw_evts.push(re);
        proof {
            assert(re_dv == raw_event_of(dv[i as int], tally_events(dv.take(i as int)).actors));
            assert(raw_evts.deep_view() =~= raw_pre.push(re_dv));
        }
        emit_actors(
            &ev.actors,
            &mut atab,
            &mut s1b,
            &mut s2b,
            &mut ddb,
            &mut ib,
            &mut fb,
            &mut sb,
            &mut ca,
            &mut cs,
            &mut cd,
            &mut ci,
            &mut cf,
            &mut ct,
        );
        proof {
            assert(ev.actors.deep_view() == dv[i as int].actors);
            assert(dv[i as int].actors.take(dv[i as int].actors.len() as int) =~= dv[i as int].actors);
            assert(atab@ =~= actor_table(dv, i + 1));
            assert(s1b@ =~= step1_table(dv, i + 1));
            assert(s2b@ =~= step2_table(dv, i + 1));
            assert(ddb@ =~= datadef_table(dv, i + 1));
            assert(ib@ =~= int_blob(dv, i + 1));
            assert(fb@ =~= float_blob(dv, i + 1));
            assert(sb@ =~= string_blob(dv, i + 1));
        }
        i += 1;
    }
    proof {
        assert(dv.take(n as int) =~= dv);
    }
    Sections { raw_evts, atab, s1b, s2b, ddb, ib, fb, sb, ca, cs, cd, ci, cf, ct }
}

/// Patches every event's edges into the sentinel step table.
#[verifier::rlimit(60)]
#[verifier::spinoff_prover]
fn patch_all(s1b: &mut Vec<u8>, zevs: &Vec<Event>, total_steps: usize)
    requires
        graph_encodable(zevs.deep_view()),
        total_steps == tally_events(zevs.deep_view()).steps,
        old(s1b)@.len() == (RawStep1::SIZE as int) * total_steps,
    ensures
        final(s1b)@ == apply_patches(
            old(s1b)@,
            zevs.deep_view(),
            zevs.deep_view().len() as int,
        ),
{
    let ghost dv = zevs.deep_view();
    let n = zevs.len();
    let ghost s1_unpatched = s1b@;
    let mut pi: usize = 0;
    let mut psbase: usize = 0;
    proof {
        assert(dv.take(0) =~= Seq::<EventV>::empty());
    }
    while pi < n
        invariant
            n == dv.len(),
            pi <= n,
            dv == zevs.deep_view(),
            graph_encodable(dv),
            total_steps == tally_events(dv).steps,
            psbase == tally_events(dv.take(pi as int)).steps,
            s1b@.len() == s1_unpatched.len() == (RawStep1::SIZE as int) * total_steps,
            s1b@ == apply_patches(s1_unpatched, dv, pi as int),
        decreases n - pi,
    {
        proof {
            lemma_tally_events_item(dv, pi as int);
            lemma_tally_events_snoc(dv, pi as int);
            lemma_tally_events_prefix(dv, pi + 1);
            lemma_tally_events_nonneg(dv.take(pi as int));
            lemma_tally_actors_count(dv[pi as int].actors);
            lemma_tally_actors_nonneg(dv[pi as int].actors);
            assert(event_encodable(dv[pi as int]));
            assert forall|t: int|
                0 <= t < dv[pi as int].actors.len() implies (#[trigger] dv[pi as int].actors[t]).steps.len()
                <= 0xFFFF by {
                lemma_tally_actors_item(dv[pi as int].actors, t);
                lemma_tally_steps_count(dv[pi as int].actors[t].steps);
            }
            assert(dv[pi as int].coords_bounded());
        }
        let ev = &zevs[pi];
        proof {
            assert(ev.deep_view() == dv[pi as int]);
        }
        patch_event_edges(s1b, ev, psbase, total_steps);
        psbase = psbase + count_actor_steps(&ev.actors);
        proof {
            assert(ev.actors.deep_view() == dv[pi as int].actors);
        }
        pi += 1;
    }
    proof {
        assert(dv.take(n as int) =~= dv);
    }
}

/// Encodes the logical graph into one byte buffer.
///
/// The result is exactly `spec_write_bytes` of the graph: the header
/// carries counts recomputed from the structure, the event table is
/// written sorted by name while every other table and blob follows
/// construction order, and each dependency edge is patched over its
/// step's sentinel wait pointer.  Encoding a graph that satisfies
/// `graph_encodable` cannot fail; the error variant exists only as the
/// defensive backstop of the public signature.
pub fn write_zev(zevs: &Vec<Event>) -> (r: Result<Vec<u8>, ZevWriteError>)
    requires
        graph_encodable(zevs.deep_view()),
    ensures
        r is Ok,
        r->Ok_0@ == spec_write_bytes(zevs.deep_view()),
{
    let ghost dv = zevs.deep_view();
    let n = zevs.len();
    let mut sections = build_sections(zevs);
    proof {
        lemma_step1_table_len(dv, n as int);
        assert(dv.take(n as int) =~= dv);
    }
    let total_steps = sections.cs;
    patch_all(&mut sections.s1b, zevs, total_steps);
    let sorted = sort_raw_events_by_name(sections.raw_evts);
    proof {
        lemma_raw_events_of_fit(dv, n as int);
        lemma_sort_by_name_fit(raw_events_of(dv, n as int));
    }
    let etab = build_event_table(&sorted);
    let header = RawHeader {
        magic: MAGIC,
        evntcount: n as u16,
        actorcount: sections.ca as u16,
        stepscount: sections.cs as u16,
        steps2count: sections.cs as u16,
        datacount: sections.cd as u16,
        alwaysev: EV,
        intcount: sections.ci as u16,
        floatcount: sections.cf as u16,
        stringcount: sections.ct as u16,
    };
    proof {
        assert(header == header_of(dv));
    }
    let mut out = crate::bytes::zero_vec(RawHeader::SIZE);
    header.write(&mut out, 0);
    proof {
        assert(out@ =~= raw_header_bytes(header));
    }
    let mut etab = etab;
    out.append(&mut etab);
    out.append(&mut sections.atab);
    out.append(&mut sections.s1b);
    out.append(&mut sections.s2b);
    out.append(&mut sections.ddb);
    out.append(&mut sections.ib);
    out.append(&mut sections.fb);
    out.append(&mut sections.sb);
    proof {
        assert(out@ =~= spec_write_bytes(dv));
    }
    Ok(out)
}

/// The number of steps all actors of one event own together.
fn count_actor_steps(acts: &Vec<Actor>) -> (r: usize)
    requires
        tally_actors(acts.deep_view()).steps <= 0xFFFF,
    ensures
        r == tally_actors(acts.deep_view()).steps,
{
    let ghost dv = acts.deep_view();
    let n = acts.len();
    let mut total: usize = 0;
    proof {
        assert(dv.take(0) =~= Seq::<ActorV>::empty());
    }
    let mut j: usize = 0;
    while j < n
        invariant
            n == dv.len(),
            j <= n,
            dv == acts.deep_view(),
            tally_actors(dv).steps <= 0xFFFF,
            total == tally_actors(dv.take(j as int)).steps,
        decreases n - j,
    {
        proof {
            lemma_tally_actors_snoc(dv, j as int);
            lemma_tally_actors_prefix(dv, j + 1);
            lemma_tally_actors_nonneg(dv.take(j as int));
            lemma_tally_steps_count(dv[j as int].steps);
            lemma_tally_steps_nonneg(dv[j as int].steps);
            assert(acts@[j as int].deep_view() == dv[j as int]);
        }
        total = total + acts[j].steps.len();
        j += 1;
    }
    proof {
        assert(dv.take(n as int) =~= dv);
    }
    total
}

} // verus!
