//! The layout calculator: every table and blob of a file sits at an
//! offset that is a strict running sum of the section lengths before it,
//! in a fixed order.

use vstd::prelude::*;

use crate::raw::{RawActor, RawDataDef, RawEvent, RawHeader, RawStep1, RawStep2};

verus! {

/// The magic value of the format, the characters `wZ` read big-endian.
pub const MAGIC: u16 = 0x775A;

/// The constant sentinel held by one header field, the characters `Ev`
/// read big-endian.
pub const EV: u16 = 0x4576;

/// Offset of the event table: right after the header.
pub open spec fn event_off() -> int {
    RawHeader::SIZE as int
}

/// Offset of the actor table.
pub open spec fn actor_off(h: RawHeader) -> int {
    event_off() + h.evntcount * (RawEvent::SIZE as int)
}

/// Offset of the step-part-one table.
pub open spec fn step1_off(h: RawHeader) -> int {
    actor_off(h) + h.actorcount * (RawActor::SIZE as int)
}

/// Offset of the step-part-two table.
pub open spec fn step2_off(h: RawHeader) -> int {
    step1_off(h) + h.stepscount * (RawStep1::SIZE as int)
}

/// Offset of the data-definition table.
pub open spec fn datadef_off(h: RawHeader) -> int {
    step2_off(h) + h.stepscount * (RawStep2::SIZE as int)
}

/// Offset of the integer blob.
pub open spec fn ints_off(h: RawHeader) -> int {
    datadef_off(h) + h.datacount * (RawDataDef::SIZE as int)
}

/// Offset of the float blob.
pub open spec fn floats_off(h: RawHeader) -> int {
    ints_off(h) + h.intcount * 4
}

/// Offset of the string blob.
pub open spec fn strings_off(h: RawHeader) -> int {
    floats_off(h) + h.floatcount * 4
}

/// The exact byte length of a file with these header counts.
pub open spec fn expected_len(h: RawHeader) -> int {
    strings_off(h) + h.stringcount
}

/// The section offsets of one file, precomputed as machine integers.
pub struct Layout {
    pub h: RawHeader,
    pub actor_off: usize,
    pub step1_off: usize,
    pub step2_off: usize,
    pub datadef_off: usize,
    pub ints_off: usize,
    pub floats_off: usize,
    pub strings_off: usize,
    pub expected_len: usize,
}

impl Layout {
    /// Every field holds the offset that the header's counts dictate.
    pub open spec fn matches(self, h: RawHeader) -> bool {
        &&& self.h == h
        &&& self.actor_off == actor_off(h)
        &&& self.step1_off == step1_off(h)
        &&& self.step2_off == step2_off(h)
        &&& self.datadef_off == datadef_off(h)
        &&& self.ints_off == ints_off(h)
        &&& self.floats_off == floats_off(h)
        &&& self.strings_off == strings_off(h)
        &&& self.expected_len == expected_len(h)
    }

    /// Computes all section offsets from the header counts.
    pub fn compute(h: &RawHeader) -> (r: Layout)
        ensures
            r.matches(*h),
    {
        let actor_off: usize = RawHeader::SIZE + h.evntcount as usize * RawEvent::SIZE;
        let step1_off: usize = actor_off + h.actorcount as usize * RawActor::SIZE;
        let step2_off: usize = step1_off + h.stepscount as usize * RawStep1::SIZE;
        let datadef_off: usize = step2_off + h.stepscount as usize * RawStep2::SIZE;
        let ints_off: usize = datadef_off + h.datacount as usize * RawDataDef::SIZE;
        let floats_off: usize = ints_off + h.intcount as usize * 4;
        let strings_off: usize = floats_off + h.floatcount as usize * 4;
        let expected_len: usize = strings_off + h.stringcount as usize;
        Layout {
            h: *h,
            actor_off,
            step1_off,
            step2_off,
            datadef_off,
            ints_off,
            floats_off,
            strings_off,
            expected_len,
        }
    }
}

} // verus!
