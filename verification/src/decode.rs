//! The decoder: reads every flat table of a file and reconstructs the
//! logical graph, resolving each step's dependency pointer into an
//! event-local coordinate pair.
//!
//! `spec_parse` states the whole decode mathematically; `parse_zev` is
//! proved to return exactly that.  A decode either fully succeeds or
//! fails with the first error the table walk meets; no partial event
//! list is ever returned.

use vstd::prelude::*;

use crate::bytes::u32_at;
use crate::errors::{FileReason, HeaderReason, ZevParseError};
use crate::layout::{
    actor_off, datadef_off, event_off, expected_len, floats_off, ints_off, step1_off, step2_off,
    strings_off, Layout, EV, MAGIC,
};
use crate::model::{
    Actor, ActorV, Event, EventV, Step, StepData, StepDataV, StepDataValues, StepDataValuesV,
    StepRef, StepV, WaitFor,
};
use crate::raw::{
    dv_res, spec_read_raw_actor, spec_read_raw_datadef, spec_read_raw_event, spec_read_raw_header,
    spec_read_raw_step1, spec_read_raw_step2, RawActor, RawActorV, RawDataDef, RawEvent, RawEventV,
    RawHeader, RawStep1, RawStep2,
};

verus! {

/// The first `n` event records of the on-disk event table, in disk
/// order, or the first read error.
pub open spec fn spec_read_raw_events(b: Seq<u8>, n: int) -> Result<Seq<RawEventV>, ZevParseError>
    decreases n,
{
    if n <= 0 {
        Ok(Seq::empty())
    } else {
        match spec_read_raw_events(b, n - 1) {
            Err(e) => Err(e),
            Ok(pre) => match spec_read_raw_event(
                b,
                event_off() + (n - 1) * (RawEvent::SIZE as int),
            ) {
                Err(e) => Err(e),
                Ok(e) => Ok(pre.push(e)),
            },
        }
    }
}

/// Stable insertion of an event record into a list sorted by
/// `actorindex`: the new record goes after every record whose key is not
/// larger.
pub open spec fn insert_by_aidx(sorted: Seq<RawEventV>, e: RawEventV) -> Seq<RawEventV>
    decreases sorted.len(),
{
    if sorted.len() == 0 {
        seq![e]
    } else if sorted.last().actorindex <= e.actorindex {
        sorted.push(e)
    } else {
        insert_by_aidx(sorted.drop_last(), e).push(sorted.last())
    }
}

/// The event records re-sorted by `actorindex`, keeping disk order among
/// equal keys: the structural order in which actor ranges are contiguous.
pub open spec fn sort_events_by_aidx(s: Seq<RawEventV>) -> Seq<RawEventV>
    decreases s.len(),
{
    if s.len() == 0 {
        Seq::empty()
    } else {
        insert_by_aidx(sort_events_by_aidx(s.drop_last()), s.last())
    }
}

/// Where the scan from the end stops is where the stable insertion puts
/// the new record.
pub proof fn lemma_insert_by_aidx_split(s: Seq<RawEventV>, e: RawEventV, k: int)
    requires
        0 <= k <= s.len(),
        forall|j: int| k <= j < s.len() ==> (#[trigger] s[j]).actorindex > e.actorindex,
        k > 0 ==> s[k - 1].actorindex <= e.actorindex,
    ensures
        insert_by_aidx(s, e) == s.take(k).add(seq![e]).add(s.skip(k)),
    decreases s.len(),
{
    if s.len() == 0 {
        assert(insert_by_aidx(s, e) =~= s.take(k).add(seq![e]).add(s.skip(k)));
    } else if k == s.len() {
        assert(s.push(e) =~= s.take(k).add(seq![e]).add(s.skip(k)));
    } else {
        assert(s.last().actorindex > e.actorindex);
        lemma_insert_by_aidx_split(s.drop_last(), e, k);
        assert(s.drop_last().take(k) =~= s.take(k));
        assert(insert_by_aidx(s.drop_last(), e).push(s.last()) =~= s.take(k).add(seq![e]).add(
            s.skip(k),
        ));
    }
}

/// The 32-bit values stored back to back at `off`, or an out-of-bounds
/// failure; a zero-length range reads nothing and cannot fail.
pub open spec fn spec_read_u32s(b: Seq<u8>, off: int, n: int) -> Result<Seq<u32>, ZevParseError> {
    if n > 0 && off + 4 * n > b.len() {
        Err(ZevParseError::InvalidFile(FileReason::OutOfBoundsRead))
    } else {
        Ok(Seq::new(n as nat, |i: int| u32_at(b, off + 4 * i)))
    }
}

/// A string data value of `n` bytes at `off`: the last byte must be the
/// zero terminator, the rest must be ASCII and form the string.  A
/// zero-length value decodes as the empty string.
pub open spec fn spec_read_string_value(b: Seq<u8>, off: int, n: int) -> Result<
    Seq<u8>,
    ZevParseError,
> {
    if n > 0 && off + n > b.len() {
        Err(ZevParseError::InvalidFile(FileReason::OutOfBoundsRead))
    } else if n == 0 {
        Ok(Seq::empty())
    } else {
        let sub = b.subrange(off, off + n);
        if sub.last() != 0 {
            Err(ZevParseError::InvalidFile(FileReason::StringNotTerminated))
        } else if !crate::bytes::is_ascii(sub.drop_last()) {
            Err(ZevParseError::InvalidFile(FileReason::StringNotAscii))
        } else {
            Ok(sub.drop_last())
        }
    }
}

/// One decoded data definition: the record at position `ddidx` of the
/// data-definition table, its value dereferenced from the blob its type
/// tag selects.
pub open spec fn spec_datadef(b: Seq<u8>, h: RawHeader, ddidx: int) -> Result<
    StepDataV,
    ZevParseError,
> {
    match spec_read_raw_datadef(b, datadef_off(h) + ddidx * (RawDataDef::SIZE as int)) {
        Err(e) => Err(e),
        Ok(dd) => {
            let values = if dd.datatype == 0 {
                match spec_read_u32s(b, ints_off(h) + dd.dataindex * 4, dd.datalen as int) {
                    Err(e) => Err(e),
                    Ok(v) => Ok(StepDataValuesV::Ints(v)),
                }
            } else if dd.datatype == 1 {
                match spec_read_u32s(b, floats_off(h) + dd.dataindex * 4, dd.datalen as int) {
                    Err(e) => Err(e),
                    Ok(v) => Ok(StepDataValuesV::Floats(v)),
                }
            } else if dd.datatype == 2 {
                match spec_read_string_value(b, strings_off(h) + dd.dataindex, dd.datalen as int) {
                    Err(e) => Err(e),
                    Ok(v) => Ok(StepDataValuesV::String(v)),
                }
            } else {
                Err(ZevParseError::InvalidFile(FileReason::UnknownDataType { tag: dd.datatype }))
            };
            match values {
                Err(e) => Err(e),
                Ok(v) => Ok(StepDataV { name: dd.name, unk1: dd.unk1, values: v }),
            }
        },
    }
}

/// The first `n` data definitions of the contiguous range starting at
/// table position `dd0`.
pub open spec fn spec_datadefs(b: Seq<u8>, h: RawHeader, dd0: int, n: int) -> Result<
    Seq<StepDataV>,
    ZevParseError,
>
    decreases n,
{
    if n <= 0 {
        Ok(Seq::empty())
    } else {
        match spec_datadefs(b, h, dd0, n - 1) {
            Err(e) => Err(e),
            Ok(pre) => match spec_datadef(b, h, dd0 + (n - 1)) {
                Err(e) => Err(e),
                Ok(d) => Ok(pre.push(d)),
            },
        }
    }
}

/// Resolves a non-negative dependency pointer of the step at local
/// coordinate (aj, k) of an event whose actor range starts at `eai`:
/// `wf` is a global step index; the pointed-at step's record names its
/// owning actor, whose step-range start turns the pointer into a local
/// step position, and `eai` does the same for the actor.  A pointer
/// that resolves before the event's own ranges is rejected.
pub open spec fn spec_resolve_wait(
    b: Seq<u8>,
    h: RawHeader,
    eai: u16,
    aj: int,
    k: int,
    wf: u16,
) -> Result<WaitFor, ZevParseError> {
    match spec_read_raw_step1(b, step1_off(h) + wf * (RawStep1::SIZE as int)) {
        Err(e) => Err(e),
        Ok(ws1) => match spec_read_raw_actor(
            b,
            actor_off(h) + ws1.actorindex * (RawActor::SIZE as int),
        ) {
            Err(e) => Err(e),
            Ok(wa) => {
                if ws1.actorindex < eai || wf < wa.stepindex {
                    Err(ZevParseError::InvalidFile(FileReason::WaitNotResolvable))
                } else {
                    Ok(
                        WaitFor {
                            waiting: StepRef { actor_idx: aj as u16, step_idx: k as u16 },
                            waiting_on: StepRef {
                                actor_idx: (ws1.actorindex - eai) as u16,
                                step_idx: (wf - wa.stepindex) as u16,
                            },
                        },
                    )
                }
            },
        },
    }
}

/// One decoded step: the paired records at the same global step index,
/// its data definitions, and its resolved dependency edge if the wait
/// pointer is non-negative (a most-significant-bit image stands for a
/// negative value, meaning no dependency).
pub open spec fn spec_step(
    b: Seq<u8>,
    h: RawHeader,
    eai: u16,
    ra: RawActorV,
    aj: int,
    k: int,
) -> Result<(StepV, Option<WaitFor>), ZevParseError> {
    let gs = ra.stepindex + k;
    match spec_read_raw_step1(b, step1_off(h) + gs * (RawStep1::SIZE as int)) {
        Err(e) => Err(e),
        Ok(s1) => match spec_read_raw_step2(b, step2_off(h) + gs * (RawStep2::SIZE as int)) {
            Err(e) => Err(e),
            Ok(s2) => match spec_datadefs(b, h, s2.datadefindex as int, s2.datadefcount as int) {
                Err(e) => Err(e),
                Ok(data) => {
                    let step = StepV {
                        long_name: s1.name,
                        unk1: s1.unk3,
                        name: s2.name,
                        unk2: s2.unk1,
                        data,
                    };
                    if s1.waitfor < 0x8000 {
                        match spec_resolve_wait(b, h, eai, aj, k, s1.waitfor) {
                            Err(e) => Err(e),
                            Ok(w) => Ok((step, Some(w))),
                        }
                    } else {
                        Ok((step, None))
                    }
                },
            },
        },
    }
}

/// The first `n` steps of actor `aj`, with the dependency edges they
/// contribute, in step order.
pub open spec fn spec_steps(
    b: Seq<u8>,
    h: RawHeader,
    eai: u16,
    ra: RawActorV,
    aj: int,
    n: int,
) -> Result<(Seq<StepV>, Seq<WaitFor>), ZevParseError>
    decreases n,
{
    if n <= 0 {
        Ok((Seq::empty(), Seq::empty()))
    } else {
        match spec_steps(b, h, eai, ra, aj, n - 1) {
            Err(e) => Err(e),
            Ok((steps, ws)) => match spec_step(b, h, eai, ra, aj, n - 1) {
                Err(e) => Err(e),
                Ok((st, w)) => Ok(
                    (
                        steps.push(st),
                        match w {
                            Some(w) => ws.push(w),
                            None => ws,
                        },
                    ),
                ),
            },
        }
    }
}

/// One decoded actor: its record at local position `aj` of the actor
/// range starting at `eai`, and its contiguous steps.
pub open spec fn spec_actor(b: Seq<u8>, h: RawHeader, eai: u16, aj: int) -> Result<
    (ActorV, Seq<WaitFor>),
    ZevParseError,
> {
    let ga = eai + aj;
    match spec_read_raw_actor(b, actor_off(h) + ga * (RawActor::SIZE as int)) {
        Err(e) => Err(e),
        Ok(ra) => match spec_steps(b, h, eai, ra, aj, ra.stepcount as int) {
            Err(e) => Err(e),
            Ok((steps, ws)) => Ok((ActorV { name: ra.name, unk1: ra.unk1, unk2: ra.unk2, steps }, ws)),
        },
    }
}

/// The first `n` actors of the range starting at `eai`, with all
/// dependency edges their steps contribute, in actor order.
pub open spec fn spec_actors(b: Seq<u8>, h: RawHeader, eai: u16, n: int) -> Result<
    (Seq<ActorV>, Seq<WaitFor>),
    ZevParseError,
>
    decreases n,
{
    if n <= 0 {
        Ok((Seq::empty(), Seq::empty()))
    } else {
        match spec_actors(b, h, eai, n - 1) {
            Err(e) => Err(e),
            Ok((actors, ws)) => match spec_actor(b, h, eai, n - 1) {
                Err(e) => Err(e),
                Ok((a, ws2)) => Ok((actors.push(a), ws.add(ws2))),
            },
        }
    }
}

/// One decoded event, from its raw record.
pub open spec fn spec_event(b: Seq<u8>, h: RawHeader, re: RawEventV) -> Result<
    EventV,
    ZevParseError,
> {
    match spec_actors(b, h, re.actorindex, re.actorcount as int) {
        Err(e) => Err(e),
        Ok((actors, ws)) => Ok(EventV { name: re.name, unk1: re.unk1, actors, wait_fors: ws }),
    }
}

/// The first `n` events of the structurally ordered raw event list.
pub open spec fn spec_events(b: Seq<u8>, h: RawHeader, raws: Seq<RawEventV>, n: int) -> Result<
    Seq<EventV>,
    ZevParseError,
>
    decreases n,
{
    if n <= 0 {
        Ok(Seq::empty())
    } else {
        match spec_events(b, h, raws, n - 1) {
            Err(e) => Err(e),
            Ok(pre) => match spec_event(b, h, raws[n - 1]) {
                Err(e) => Err(e),
                Ok(ev) => Ok(pre.push(ev)),
            },
        }
    }
}

/// The whole decode: header checks, the length check against the layout,
/// the event table re-sorted into structural order, then every event.
pub open spec fn spec_parse(b: Seq<u8>) -> Result<Seq<EventV>, ZevParseError> {
    match spec_read_raw_header(b, 0) {
        Err(e) => Err(e),
        Ok(h) => {
            if h.magic != MAGIC {
                Err(
                    ZevParseError::InvalidHeader(
                        HeaderReason::WrongMagic { expected: MAGIC, actual: h.magic },
                    ),
                )
            } else if h.stepscount != h.steps2count {
                Err(
                    ZevParseError::InvalidHeader(
                        HeaderReason::StepCountMismatch {
                            steps1: h.stepscount,
                            steps2: h.steps2count,
                        },
                    ),
                )
            } else if h.alwaysev != EV {
                Err(
                    ZevParseError::InvalidHeader(
                        HeaderReason::WrongSentinel { expected: EV, actual: h.alwaysev },
                    ),
                )
            } else if expected_len(h) != b.len() {
                Err(
                    ZevParseError::InvalidFile(
                        FileReason::WrongLength {
                            expected: expected_len(h) as usize,
                            actual: b.len() as usize,
                        },
                    ),
                )
            } else {
                match spec_read_raw_events(b, h.evntcount as int) {
                    Err(e) => Err(e),
                    Ok(raws) => spec_events(b, h, sort_events_by_aidx(raws), raws.len() as int),
                }
            }
        },
    }
}

/// An error anywhere in the raw event walk is the result of the whole
/// walk.
proof fn lemma_raw_events_err(b: Seq<u8>, j: int, n: int)
    requires
        0 <= j <= n,
        spec_read_raw_events(b, j) is Err,
    ensures
        spec_read_raw_events(b, n) == spec_read_raw_events(b, j),
    decreases n,
{
    if n > j {
        lemma_raw_events_err(b, j, n - 1);
    }
}

/// An error anywhere in the data-definition walk is the result of the
/// whole walk.
proof fn lemma_datadefs_err(b: Seq<u8>, h: RawHeader, dd0: int, j: int, n: int)
    requires
        0 <= j <= n,
        spec_datadefs(b, h, dd0, j) is Err,
    ensures
        spec_datadefs(b, h, dd0, n) == spec_datadefs(b, h, dd0, j),
    decreases n,
{
    if n > j {
        lemma_datadefs_err(b, h, dd0, j, n - 1);
    }
}

/// An error anywhere in the step walk is the result of the whole walk.
proof fn lemma_steps_err(
    b: Seq<u8>,
    h: RawHeader,
    eai: u16,
    ra: RawActorV,
    aj: int,
    j: int,
    n: int,
)
    requires
        0 <= j <= n,
        spec_steps(b, h, eai, ra, aj, j) is Err,
    ensures
        spec_steps(b, h, eai, ra, aj, n) == spec_steps(b, h, eai, ra, aj, j),
    decreases n,
{
    if n > j {
        lemma_steps_err(b, h, eai, ra, aj, j, n - 1);
    }
}

/// An error anywhere in the actor walk is the result of the whole walk.
proof fn lemma_actors_err(b: Seq<u8>, h: RawHeader, eai: u16, j: int, n: int)
    requires
        0 <= j <= n,
        spec_actors(b, h, eai, j) is Err,
    ensures
        spec_actors(b, h, eai, n) == spec_actors(b, h, eai, j),
    decreases n,
{
    if n > j {
        lemma_actors_err(b, h, eai, j, n - 1);
    }
}

/// An error anywhere in the event walk is the result of the whole walk.
proof fn lemma_events_err(b: Seq<u8>, h: RawHeader, raws: Seq<RawEventV>, j: int, n: int)
    requires
        0 <= j <= n,
        spec_events(b, h, raws, j) is Err,
    ensures
        spec_events(b, h, raws, n) == spec_events(b, h, raws, j),
    decreases n,
{
    if n > j {
        lemma_events_err(b, h, raws, j, n - 1);
    }
}

/// Reads the 32-bit values of one data definition.
fn read_u32s(bytes: &[u8], off: usize, n: u16) -> (r: Result<Vec<u32>, ZevParseError>)
    ensures
        ({
            let sr = spec_read_u32s(bytes@, off as int, n as int);
            match r {
                Ok(v) => sr == Ok::<Seq<u32>, ZevParseError>(v@),
                Err(e) => sr == Err::<Seq<u32>, ZevParseError>(e),
            }
        }),
{
    let total = n as usize * 4;
    if n > 0 && (off > bytes.len() || total > bytes.len() - off) {
        return Err(ZevParseError::InvalidFile(FileReason::OutOfBoundsRead));
    }
    let mut out: Vec<u32> = Vec::new();
    let mut k: usize = 0;
    while k < n as usize
        invariant
            k <= n as usize,
            n > 0 ==> off + 4 * (n as int) <= bytes.len(),
            out@ == Seq::new(k as nat, |i: int| u32_at(bytes@, off + 4 * i)),
        decreases n as usize - k,
    {
        let v = crate::bytes::read_u32_at(bytes, off + 4 * k);
        out.push(v);
        proof {
            assert(out@ =~= Seq::new((k + 1) as nat, |i: int| u32_at(bytes@, off + 4 * i)));
        }
        k += 1;
    }
    proof {
        assert(out@ =~= Seq::new(n as nat, |i: int| u32_at(bytes@, off + 4 * i)));
    }
    Ok(out)
}

/// Reads one string data value: `n` bytes whose last byte must be the
/// zero terminator and whose body must be ASCII.
fn read_string_value(bytes: &[u8], off: usize, n: u16) -> (r: Result<Vec<u8>, ZevParseError>)
    ensures
        ({
            let sr = spec_read_string_value(bytes@, off as int, n as int);
            match r {
                Ok(v) => sr == Ok::<Seq<u8>, ZevParseError>(v@),
                Err(e) => sr == Err::<Seq<u8>, ZevParseError>(e),
            }
        }),
{
    if n > 0 && (off > bytes.len() || n as usize > bytes.len() - off) {
        return Err(ZevParseError::InvalidFile(FileReason::OutOfBoundsRead));
    }
    if n == 0 {
        return Ok(Vec::new());
    }
    let ghost sub = bytes@.subrange(off as int, off + n as int);
    let last = bytes[off + (n as usize - 1)];
    proof {
        assert(sub.last() == last);
    }
    if last != 0 {
        return Err(ZevParseError::InvalidFile(FileReason::StringNotTerminated));
    }
    let body_len = n as usize - 1;
    let mut out: Vec<u8> = Vec::new();
    let mut k: usize = 0;
    while k < body_len
        invariant
            k <= body_len,
            body_len == n as usize - 1,
            n > 0,
            off + n as usize <= bytes.len(),
            sub == bytes@.subrange(off as int, off + n as int),
            sub.last() == 0,
            out@ == sub.take(k as int),
            forall|j: int| 0 <= j < k ==> #[trigger] sub[j] < 128,
        decreases body_len - k,
    {
        let c = bytes[off + k];
        proof {
            assert(sub[k as int] == c);
        }
        if c >= 128 {
            proof {
                assert(sub.drop_last()[k as int] == c);
                assert(!crate::bytes::is_ascii(sub.drop_last()));
            }
            return Err(ZevParseError::InvalidFile(FileReason::StringNotAscii));
        }
        out.push(c);
        proof {
            assert(out@ =~= sub.take(k + 1));
        }
        k += 1;
    }
    proof {
        assert(out@ =~= sub.drop_last());
        assert(forall|j: int|
            0 <= j < sub.drop_last().len() ==> #[trigger] sub.drop_last()[j] == sub[j]);
        assert(crate::bytes::is_ascii(sub.drop_last()));
    }
    Ok(out)
}

/// Decodes one data definition at table position `ddidx`.
fn parse_datadef(bytes: &[u8], lay: &Layout, ddidx: usize) -> (r: Result<StepData, ZevParseError>)
    requires
        lay.matches(lay.h),
        ddidx <= 0xFFFF + 0xFFFF,
    ensures
        dv_res(r) == spec_datadef(bytes@, lay.h, ddidx as int),
{
    let dd = match RawDataDef::read(bytes, lay.datadef_off + ddidx * RawDataDef::SIZE) {
        Ok(dd) => dd,
        Err(e) => {
            return Err(e);
        },
    };
    let values = if dd.datatype == 0 {
        match read_u32s(bytes, lay.ints_off + dd.dataindex as usize * 4, dd.datalen) {
            Ok(v) => StepDataValues::Ints(v),
            Err(e) => {
                return Err(e);
            },
        }
    } else if dd.datatype == 1 {
        match read_u32s(bytes, lay.floats_off + dd.dataindex as usize * 4, dd.datalen) {
            Ok(v) => StepDataValues::Floats(v),
            Err(e) => {
                return Err(e);
            },
        }
    } else if dd.datatype == 2 {
        match read_string_value(bytes, lay.strings_off + dd.dataindex as usize, dd.datalen) {
            Ok(v) => StepDataValues::String(v),
            Err(e) => {
                return Err(e);
            },
        }
    } else {
        return Err(ZevParseError::InvalidFile(FileReason::UnknownDataType { tag: dd.datatype }));
    };
    Ok(StepData { name: dd.name, unk1: dd.unk1, values })
}

/// Resolves one dependency pointer into event-local coordinates.
fn resolve_wait(bytes: &[u8], lay: &Layout, eai: u16, aj: usize, k: usize, wf: u16) -> (r: Result<
    WaitFor,
    ZevParseError,
>)
    requires
        lay.matches(lay.h),
        aj <= 0xFFFF,
        k <= 0xFFFF,
    ensures
        ({
            let sr = spec_resolve_wait(bytes@, lay.h, eai, aj as int, k as int, wf);
            match r {
                Ok(w) => sr == Ok::<WaitFor, ZevParseError>(w),
                Err(e) => sr == Err::<WaitFor, ZevParseError>(e),
            }
        }),
{
    let ws1 = match RawStep1::read(bytes, lay.step1_off + wf as usize * RawStep1::SIZE) {
        Ok(s) => s,
        Err(e) => {
            return Err(e);
        },
    };
    let wa = match RawActor::read(bytes, lay.actor_off + ws1.actorindex as usize * RawActor::SIZE) {
        Ok(a) => a,
        Err(e) => {
            return Err(e);
        },
    };
    if ws1.actorindex < eai || wf < wa.stepindex {
        return Err(ZevParseError::InvalidFile(FileReason::WaitNotResolvable));
    }
    Ok(
        WaitFor {
            waiting: StepRef { actor_idx: aj as u16, step_idx: k as u16 },
            waiting_on: StepRef {
                actor_idx: ws1.actorindex - eai,
                step_idx: wf - wa.stepindex,
            },
        },
    )
}

/// Decodes one step of actor `aj`: its paired records, its data, and its
/// dependency edge if any.
fn parse_step(bytes: &[u8], lay: &Layout, eai: u16, ra: &RawActor, aj: usize, k: usize) -> (r:
    Result<(Step, Option<WaitFor>), ZevParseError>)
    requires
        lay.matches(lay.h),
        aj <= 0xFFFF,
        k <= 0xFFFF,
    ensures
        ({
            let sr = spec_step(bytes@, lay.h, eai, ra.deep_view(), aj as int, k as int);
            match r {
                Ok((st, w)) => sr == Ok::<(StepV, Option<WaitFor>), ZevParseError>(
                    (st.deep_view(), w),
                ),
                Err(e) => sr == Err::<(StepV, Option<WaitFor>), ZevParseError>(e),
            }
        }),
{
    let gs = ra.stepindex as usize + k;
    let s1 = match RawStep1::read(bytes, lay.step1_off + gs * RawStep1::SIZE) {
        Ok(s) => s,
        Err(e) => {
            return Err(e);
        },
    };
    let s2 = match RawStep2::read(bytes, lay.step2_off + gs * RawStep2::SIZE) {
        Ok(s) => s,
        Err(e) => {
            return Err(e);
        },
    };
    let ghost b = bytes@;
    let ghost h = lay.h;
    let ghost dd0 = s2.datadefindex as int;
    let mut data: Vec<StepData> = Vec::new();
    proof {
        assert(data.deep_view() =~= Seq::<StepDataV>::empty());
    }
    let mut m: usize = 0;
    while m < s2.datadefcount as usize
        invariant
            lay.matches(lay.h),
            b == bytes@,
            h == lay.h,
            dd0 == s2.datadefindex as int,
            m <= s2.datadefcount as usize,
            s2.datadefcount <= 0xFFFF,
            s2.datadefindex <= 0xFFFF,
            spec_datadefs(b, h, dd0, m as int) == Ok::<Seq<StepDataV>, ZevParseError>(
                data.deep_view(),
            ),
        decreases s2.datadefcount as usize - m,
    {
        let ghost pre = data.deep_view();
        match parse_datadef(bytes, lay, s2.datadefindex as usize + m) {
            Ok(d) => {
                data.push(d);
                proof {
                    assert(data.deep_view() =~= pre.push(d.deep_view()));
                }
            },
            Err(e) => {
                proof {
                    lemma_datadefs_err(b, h, dd0, m + 1, s2.datadefcount as int);
                }
                return Err(e);
            },
        }
        m += 1;
    }
    let wait = if s1.waitfor < 0x8000 {
        match resolve_wait(bytes, lay, eai, aj, k, s1.waitfor) {
            Ok(w) => Some(w),
            Err(e) => {
                return Err(e);
            },
        }
    } else {
        None
    };
    Ok((Step { long_name: s1.name, unk1: s1.unk3, name: s2.name, unk2: s2.unk1, data }, wait))
}

/// Decodes one actor: its record at local position `aj` of the actor
/// range starting at `eai`, then its contiguous step range.
fn parse_actor(bytes: &[u8], lay: &Layout, eai: u16, aj: usize) -> (r: Result<
    (Actor, Vec<WaitFor>),
    ZevParseError,
>)
    requires
        lay.matches(lay.h),
        aj <= 0xFFFF,
    ensures
        ({
            let sr = spec_actor(bytes@, lay.h, eai, aj as int);
            match r {
                Ok((a, ws)) => sr == Ok::<(ActorV, Seq<WaitFor>), ZevParseError>(
                    (a.deep_view(), ws@),
                ),
                Err(e) => sr == Err::<(ActorV, Seq<WaitFor>), ZevParseError>(e),
            }
        }),
{
    let ga = eai as usize + aj;
    let ra = match RawActor::read(bytes, lay.actor_off + ga * RawActor::SIZE) {
        Ok(a) => a,
        Err(e) => {
            return Err(e);
        },
    };
    let ghost b = bytes@;
    let ghost h = lay.h;
    let ghost rav = ra.deep_view();
    let mut steps: Vec<Step> = Vec::new();
    let mut waits: Vec<WaitFor> = Vec::new();
    proof {
        assert(steps.deep_view() =~= Seq::<StepV>::empty());
    }
    let mut k: usize = 0;
    while k < ra.stepcount as usize
        invariant
            lay.matches(lay.h),
            b == bytes@,
            h == lay.h,
            rav == ra.deep_view(),
            aj <= 0xFFFF,
            k <= ra.stepcount as usize,
            ra.stepcount <= 0xFFFF,
            spec_steps(b, h, eai, rav, aj as int, k as int) == Ok::<
                (Seq<StepV>, Seq<WaitFor>),
                ZevParseError,
            >((steps.deep_view(), waits@)),
        decreases ra.stepcount as usize - k,
    {
        let ghost steps_pre = steps.deep_view();
        match parse_step(bytes, lay, eai, &ra, aj, k) {
            Ok((st, w)) => {
                steps.push(st);
                if let Some(w) = w {
                    waits.push(w);
                }
                proof {
                    assert(steps.deep_view() =~= steps_pre.push(st.deep_view()));
                }
            },
            Err(e) => {
                proof {
                    lemma_steps_err(b, h, eai, rav, aj as int, k + 1, ra.stepcount as int);
                }
                return Err(e);
            },
        }
        k += 1;
    }
    Ok((Actor { name: ra.name, unk1: ra.unk1, unk2: ra.unk2, steps }, waits))
}

/// Decodes one event from its raw record: its contiguous actor range and
/// every dependency edge of its steps.
fn parse_event(bytes: &[u8], lay: &Layout, re: RawEvent) -> (r: Result<Event, ZevParseError>)
    requires
        lay.matches(lay.h),
    ensures
        ({
            let sr = spec_event(bytes@, lay.h, re.deep_view());
            match r {
                Ok(ev) => sr == Ok::<EventV, ZevParseError>(ev.deep_view()),
                Err(e) => sr == Err::<EventV, ZevParseError>(e),
            }
        }),
{
    let ghost b = bytes@;
    let ghost h = lay.h;
    let mut actors: Vec<Actor> = Vec::new();
    let mut waits: Vec<WaitFor> = Vec::new();
    proof {
        assert(actors.deep_view() =~= Seq::<ActorV>::empty());
    }
    let mut aj: usize = 0;
    while aj < re.actorcount as usize
        invariant
            lay.matches(lay.h),
            b == bytes@,
            h == lay.h,
            aj <= re.actorcount as usize,
            re.actorcount <= 0xFFFF,
            spec_actors(b, h, re.actorindex, aj as int) == Ok::<
                (Seq<ActorV>, Seq<WaitFor>),
                ZevParseError,
            >((actors.deep_view(), waits@)),
        decreases re.actorcount as usize - aj,
    {
        let ghost actors_pre = actors.deep_view();
        match parse_actor(bytes, lay, re.actorindex, aj) {
            Ok((a, mut ws)) => {
                actors.push(a);
                waits.append(&mut ws);
                proof {
                    assert(actors.deep_view() =~= actors_pre.push(a.deep_view()));
                }
            },
            Err(e) => {
                proof {
                    lemma_actors_err(b, h, re.actorindex, aj + 1, re.actorcount as int);
                }
                return Err(e);
            },
        }
        aj += 1;
    }
    Ok(Event { name: re.name, unk1: re.unk1, actors, wait_fors: waits })
}

/// Re-sorts the raw event table by `actorindex`, keeping disk order
/// among equal keys.
fn sort_events_by_actorindex(v: Vec<RawEvent>) -> (r: Vec<RawEvent>)
    ensures
        r.deep_view() == sort_events_by_aidx(v.deep_view()),
{
    let ghost dv0 = v.deep_view();
    let mut rest = v;
    let mut out: Vec<RawEvent> = Vec::new();
    let n = rest.len();
    proof {
        assert(rest.deep_view() =~= dv0.skip(0));
        assert(out.deep_view() =~= Seq::<RawEventV>::empty());
        assert(dv0.take(0) =~= Seq::<RawEventV>::empty());
    }
    let mut i: usize = 0;
    while i < n
        invariant
            n == dv0.len(),
            i <= n,
            rest.deep_view() == dv0.skip(i as int),
            out.deep_view() == sort_events_by_aidx(dv0.take(i as int)),
        decreases n - i,
    {
        let ghost out_pre = out.deep_view();
        let ghost rest_pre = rest@;
        let ghost rest_pre_dv = rest.deep_view();
        let e = rest.remove(0);
        proof {
            assert(forall|t: int| 0 <= t < rest@.len() ==> rest@[t] == rest_pre[t + 1]);
            assert forall|t: int| 0 <= t < rest.deep_view().len() implies rest.deep_view()[t]
                == dv0.skip(i + 1)[t] by {
                assert(rest.deep_view()[t] == rest@[t].deep_view());
                assert(rest_pre_dv[t + 1] == rest_pre[t + 1].deep_view());
            }
            assert(rest.deep_view() =~= dv0.skip(i + 1));
            assert(e.deep_view() == rest_pre_dv[0]);
            assert(e.deep_view() == dv0[i as int]);
        }
        let mut k = out.len();
        while k > 0
            invariant
                k <= out.len(),
                out.deep_view() == out_pre,
                forall|j: int|
                    k <= j < out_pre.len() ==> (#[trigger] out_pre[j]).actorindex
                        > e.deep_view().actorindex,
            decreases k,
        {
            if out[k - 1].actorindex <= e.actorindex {
                break ;
            }
            proof {
                assert(out_pre[k - 1] == out@[k - 1].deep_view());
            }
            k -= 1;
        }
        proof {
            if k > 0 {
                assert(out_pre[k - 1] == out@[k - 1].deep_view());
            }
            lemma_insert_by_aidx_split(out_pre, e.deep_view(), k as int);
        }
        out.insert(k, e);
        proof {
            assert(out.deep_view() =~= out_pre.take(k as int).add(seq![e.deep_view()]).add(
                out_pre.skip(k as int),
            ));
            assert(dv0.take(i + 1).drop_last() =~= dv0.take(i as int));
            assert(dv0.take(i + 1).last() == dv0[i as int]);
        }
        i += 1;
    }
    proof {
        assert(dv0.take(n as int) =~= dv0);
    }
    out
}

/// Sorting keeps the number of event records.
proof fn lemma_sort_events_len(s: Seq<RawEventV>)
    ensures
        sort_events_by_aidx(s).len() == s.len(),
    decreases s.len(),
{
    if s.len() > 0 {
        lemma_sort_events_len(s.drop_last());
        lemma_insert_by_aidx_len(sort_events_by_aidx(s.drop_last()), s.last());
    }
}

/// Inserting one record grows the list by one.
proof fn lemma_insert_by_aidx_len(s: Seq<RawEventV>, e: RawEventV)
    ensures
        insert_by_aidx(s, e).len() == s.len() + 1,
    decreases s.len(),
{
    if s.len() > 0 && !(s.last().actorindex <= e.actorindex) {
        lemma_insert_by_aidx_len(s.drop_last(), e);
    }
}

/// Decodes a whole file into its list of events.
///
/// The result is exactly `spec_parse` of the bytes: the header is
/// checked, the computed layout must match the buffer length exactly,
/// every table row and blob value is read at its computed offset, and
/// each dependency pointer is resolved to event-local coordinates.  Any
/// failure is returned as is and nothing partial escapes.
/// Reads the whole on-disk event table, in disk order.
fn read_raw_event_table(bytes: &[u8], count: u16) -> (r: Result<Vec<RawEvent>, ZevParseError>)
    ensures
        ({
            let sr = spec_read_raw_events(bytes@, count as int);
            match r {
                Ok(v) => sr == Ok::<Seq<RawEventV>, ZevParseError>(v.deep_view()),
                Err(e) => sr == Err::<Seq<RawEventV>, ZevParseError>(e),
            }
        }),
{
    let ghost b = bytes@;
    let mut raws: Vec<RawEvent> = Vec::new();
    proof {
        assert(raws.deep_view() =~= Seq::<RawEventV>::empty());
    }
    let mut i: usize = 0;
    while i < count as usize
        invariant
            i <= count as usize,
            spec_read_raw_events(b, i as int) == Ok::<Seq<RawEventV>, ZevParseError>(
                raws.deep_view(),
            ),
        decreases count as usize - i,
    {
        let ghost raws_pre = raws.deep_view();
        match RawEvent::read(bytes, RawHeader::SIZE + i * RawEvent::SIZE) {
            Ok(re) => {
                let ghost re_dv = re.deep_view();
                raws.push(re);
                proof {
                    assert(raws.deep_view() =~= raws_pre.push(re_dv));
                }
            },
            Err(e) => {
                proof {
                    lemma_raw_events_err(b, i + 1, count as int);
                }
                return Err(e);
            },
        }
        i += 1;
    }
    Ok(raws)
}

/// Decodes every event of the structurally ordered raw event list.
fn parse_all_events(bytes: &[u8], lay: &Layout, sorted: Vec<RawEvent>) -> (r: Result<
    Vec<Event>,
    ZevParseError,
>)
    requires
        lay.matches(lay.h),
    ensures
        ({
            let sr = spec_events(
                bytes@,
                lay.h,
                sorted.deep_view(),
                sorted.deep_view().len() as int,
            );
            match r {
                Ok(v) => sr == Ok::<Seq<EventV>, ZevParseError>(v.deep_view()),
                Err(e) => sr == Err::<Seq<EventV>, ZevParseError>(e),
            }
        }),
{
    let ghost b = bytes@;
    let ghost h = lay.h;
    let ghost sorted_dv = sorted.deep_view();
    let n_events = sorted.len();
    let mut rest = sorted;
    let mut events: Vec<Event> = Vec::new();
    proof {
        assert(rest.deep_view() =~= sorted_dv.skip(0));
        assert(events.deep_view() =~= Seq::<EventV>::empty());
    }
    let mut j: usize = 0;
    while j < n_events
        invariant
            n_events == sorted_dv.len(),
            j <= n_events,
            rest.deep_view() == sorted_dv.skip(j as int),
            spec_events(b, h, sorted_dv, j as int) == Ok::<Seq<EventV>, ZevParseError>(
                events.deep_view(),
            ),
        decreases n_events - j,
    {
        let ghost events_pre = events.deep_view();
        let ghost rest_pre = rest@;
        let ghost rest_pre_dv = rest.deep_view();
        let re = rest.remove(0);
        proof {
            assert(forall|t: int| 0 <= t < rest@.len() ==> rest@[t] == rest_pre[t + 1]);
            assert forall|t: int| 0 <= t < rest.deep_view().len() implies rest.deep_view()[t]
                == sorted_dv.skip(j + 1)[t] by {
                assert(rest.deep_view()[t] == rest@[t].deep_view());
                assert(rest_pre_dv[t + 1] == rest_pre[t + 1].deep_view());
            }
            assert(rest.deep_view() =~= sorted_dv.skip(j + 1));
            assert(re.deep_view() == rest_pre_dv[0]);
            assert(re.deep_view() == sorted_dv[j as int]);
        }
        match parse_event(bytes, &lay, re) {
            Ok(ev) => {
                events.push(ev);
                proof {
                    assert(events.deep_view() =~= events_pre.push(ev.deep_view()));
                }
            },
            Err(e) => {
                proof {
                    lemma_events_err(b, h, sorted_dv, j + 1, n_events as int);
                }
                return Err(e);
            },
        }
        j += 1;
    }
    Ok(events)
}

/// Decodes a whole file into its list of events.
///
/// The result is exactly `spec_parse` of the bytes: the header is
/// checked, the computed layout must match the buffer length exactly,
/// every table row and blob value is read at its computed offset, and
/// each dependency pointer is resolved to event-local coordinates.  Any
/// failure is returned as is and nothing partial escapes.
pub fn parse_zev(bytes: &[u8]) -> (r: Result<Vec<Event>, ZevParseError>)
    ensures
        dv_res(r) == spec_parse(bytes@),
{
    let h = match RawHeader::read(bytes, 0) {
        Ok(h) => h,
        Err(e) => {
            return Err(e);
        },
    };
    if h.magic != MAGIC {
        return Err(
            ZevParseError::InvalidHeader(
                HeaderReason::WrongMagic { expected: MAGIC, actual: h.magic },
            ),
        );
    }
    if h.stepscount != h.steps2count {
        return Err(
            ZevParseError::InvalidHeader(
                HeaderReason::StepCountMismatch { steps1: h.stepscount, steps2: h.steps2count },
            ),
        );
    }
    if h.alwaysev != EV {
        return Err(
            ZevParseError::InvalidHeader(
                HeaderReason::WrongSentinel { expected: EV, actual: h.alwaysev },
            ),
        );
    }
    let lay = Layout::compute(&h);
    if lay.expected_len != bytes.len() {
        return Err(
            ZevParseError::InvalidFile(
                FileReason::WrongLength { expected: lay.expected_len, actual: bytes.len() },
            ),
        );
    }
    let raws = match read_raw_event_table(bytes, h.evntcount) {
        Ok(v) => v,
        Err(e) => {
            return Err(e);
        },
    };
    let ghost raws_dv = raws.deep_view();
    let sorted = sort_events_by_actorindex(raws);
    proof {
        lemma_sort_events_len(raws_dv);
    }
    parse_all_events(bytes, &lay, sorted)
}

} // verus!
