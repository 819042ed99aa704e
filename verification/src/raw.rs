//! The six fixed-size on-disk record shapes, each with an exact byte-level
//! specification and a verified reader and writer.
//!
//! Multi-byte numeric fields are big-endian; name fields occupy a fixed
//! width and are zero-padded.

use vstd::prelude::*;

use crate::bytes::{
    field_ok, field_str, lemma_splice_splice, read_null_term_string, read_u16_at, splice, u16_be,
    u16_bytes, write_null_term_pad_string, write_u16_at, write_u8_at, zpad,
};
use crate::errors::{FileReason, ZevParseError};

verus! {

/// The deep view of a decode result: the payload viewed, the error as is.
pub open spec fn dv_res<T: DeepView>(r: Result<T, ZevParseError>) -> Result<
    T::V,
    ZevParseError,
> {
    match r {
        Ok(v) => Ok(v.deep_view()),
        Err(e) => Err(e),
    }
}

/// The file header: the magic value, one count per table or blob, and a
/// constant sentinel field.
#[derive(Clone, Copy, Debug, PartialEq, Eq, Structural)]
pub struct RawHeader {
    pub magic: u16,
    pub evntcount: u16,
    pub actorcount: u16,
    pub stepscount: u16,
    pub steps2count: u16,
    pub datacount: u16,
    pub alwaysev: u16,
    pub intcount: u16,
    pub floatcount: u16,
    pub stringcount: u16,
}

/// The byte image of a header record.
pub open spec fn raw_header_bytes(h: RawHeader) -> Seq<u8> {
    u16_bytes(h.magic).add(u16_bytes(h.evntcount)).add(u16_bytes(h.actorcount)).add(
        u16_bytes(h.stepscount),
    ).add(u16_bytes(h.steps2count)).add(u16_bytes(h.datacount)).add(u16_bytes(h.alwaysev)).add(
        u16_bytes(h.intcount),
    ).add(u16_bytes(h.floatcount)).add(u16_bytes(h.stringcount))
}

/// The header record stored at `pos`.
pub open spec fn raw_header_at(b: Seq<u8>, pos: int) -> RawHeader {
    RawHeader {
        magic: u16_be(b[pos], b[pos + 1]),
        evntcount: u16_be(b[pos + 2], b[pos + 3]),
        actorcount: u16_be(b[pos + 4], b[pos + 5]),
        stepscount: u16_be(b[pos + 6], b[pos + 7]),
        steps2count: u16_be(b[pos + 8], b[pos + 9]),
        datacount: u16_be(b[pos + 10], b[pos + 11]),
        alwaysev: u16_be(b[pos + 12], b[pos + 13]),
        intcount: u16_be(b[pos + 14], b[pos + 15]),
        floatcount: u16_be(b[pos + 16], b[pos + 17]),
        stringcount: u16_be(b[pos + 18], b[pos + 19]),
    }
}

/// What reading a header record at `pos` yields.
pub open spec fn spec_read_raw_header(b: Seq<u8>, pos: int) -> Result<RawHeader, ZevParseError> {
    if 0 <= pos && pos + RawHeader::SIZE <= b.len() {
        Ok(raw_header_at(b, pos))
    } else {
        Err(ZevParseError::InvalidFile(FileReason::OutOfBoundsRead))
    }
}

impl RawHeader {
    pub const SIZE: usize = 20;

    pub fn read(bytes: &[u8], pos: usize) -> (r: Result<Self, ZevParseError>)
        ensures
            r == spec_read_raw_header(bytes@, pos as int),
    {
        if bytes.len() < Self::SIZE || pos > bytes.len() - Self::SIZE {
            return Err(ZevParseError::InvalidFile(FileReason::OutOfBoundsRead));
        }
        Ok(
            RawHeader {
                magic: read_u16_at(bytes, pos),
                evntcount: read_u16_at(bytes, pos + 2),
                actorcount: read_u16_at(bytes, pos + 4),
                stepscount: read_u16_at(bytes, pos + 6),
                steps2count: read_u16_at(bytes, pos + 8),
                datacount: read_u16_at(bytes, pos + 10),
                alwaysev: read_u16_at(bytes, pos + 12),
                intcount: read_u16_at(bytes, pos + 14),
                floatcount: read_u16_at(bytes, pos + 16),
                stringcount: read_u16_at(bytes, pos + 18),
            },
        )
    }

    pub fn write(&self, buf: &mut Vec<u8>, pos: usize)
        requires
            pos + RawHeader::SIZE <= old(buf).len(),
        ensures
            final(buf)@ == splice(old(buf)@, pos as int, raw_header_bytes(*self)),
    {
        let ghost b0 = old(buf)@;
        let ghost p = pos as int;
        write_u16_at(buf, pos, self.magic);
        let ghost a1 = u16_bytes(self.magic);
        write_u16_at(buf, pos + 2, self.evntcount);
        proof {
            lemma_splice_splice(b0, p, a1, u16_bytes(self.evntcount));
        }
        let ghost a2 = a1.add(u16_bytes(self.evntcount));
        write_u16_at(buf, pos + 4, self.actorcount);
        proof {
            lemma_splice_splice(b0, p, a2, u16_bytes(self.actorcount));
        }
        let ghost a3 = a2.add(u16_bytes(self.actorcount));
        write_u16_at(buf, pos + 6, self.stepscount);
        proof {
            lemma_splice_splice(b0, p, a3, u16_bytes(self.stepscount));
        }
        let ghost a4 = a3.add(u16_bytes(self.stepscount));
        write_u16_at(buf, pos + 8, self.steps2count);
        proof {
            lemma_splice_splice(b0, p, a4, u16_bytes(self.steps2count));
        }
        let ghost a5 = a4.add(u16_bytes(self.steps2count));
        write_u16_at(buf, pos + 10, self.datacount);
        proof {
            lemma_splice_splice(b0, p, a5, u16_bytes(self.datacount));
        }
        let ghost a6 = a5.add(u16_bytes(self.datacount));
        write_u16_at(buf, pos + 12, self.alwaysev);
        proof {
            lemma_splice_splice(b0, p, a6, u16_bytes(self.alwaysev));
        }
        let ghost a7 = a6.add(u16_bytes(self.alwaysev));
        write_u16_at(buf, pos + 14, self.intcount);
        proof {
            lemma_splice_splice(b0, p, a7, u16_bytes(self.intcount));
        }
        let ghost a8 = a7.add(u16_bytes(self.intcount));
        write_u16_at(buf, pos + 16, self.floatcount);
        proof {
            lemma_splice_splice(b0, p, a8, u16_bytes(self.floatcount));
        }
        let ghost a9 = a8.add(u16_bytes(self.floatcount));
        write_u16_at(buf, pos + 18, self.stringcount);
        proof {
            lemma_splice_splice(b0, p, a9, u16_bytes(self.stringcount));
        }
    }
}

/// An on-disk event record: a name and the range of rows it owns in the
/// actor table.
#[derive(Debug, Clone, PartialEq, Eq)]
pub struct RawEvent {
    pub name: Vec<u8>,
    pub dummy1: u8,
    pub unk1: u8,
    pub dummy2: u16,
    pub actorindex: u16,
    pub actorcount: u16,
}

/// Mathematical image of an on-disk event record.
pub ghost struct RawEventV {
    pub name: Seq<u8>,
    pub dummy1: u8,
    pub unk1: u8,
    pub dummy2: u16,
    pub actorindex: u16,
    pub actorcount: u16,
}

impl DeepView for RawEvent {
    type V = RawEventV;

    open spec fn deep_view(&self) -> RawEventV {
        RawEventV {
            name: self.name@,
            dummy1: self.dummy1,
            unk1: self.unk1,
            dummy2: self.dummy2,
            actorindex: self.actorindex,
            actorcount: self.actorcount,
        }
    }
}

/// The byte image of an event record.
pub open spec fn raw_event_bytes(e: RawEventV) -> Seq<u8> {
    zpad(e.name, 32).add(seq![e.dummy1]).add(seq![e.unk1]).add(u16_bytes(e.dummy2)).add(
        u16_bytes(e.actorindex),
    ).add(u16_bytes(e.actorcount))
}

/// The event record stored at `pos`.
pub open spec fn raw_event_at(b: Seq<u8>, pos: int) -> RawEventV {
    RawEventV {
        name: field_str(b.subrange(pos, pos + 32)),
        dummy1: b[pos + 32],
        unk1: b[pos + 33],
        dummy2: u16_be(b[pos + 34], b[pos + 35]),
        actorindex: u16_be(b[pos + 36], b[pos + 37]),
        actorcount: u16_be(b[pos + 38], b[pos + 39]),
    }
}

/// What reading an event record at `pos` yields.
pub open spec fn spec_read_raw_event(b: Seq<u8>, pos: int) -> Result<RawEventV, ZevParseError> {
    if !(0 <= pos && pos + RawEvent::SIZE <= b.len()) {
        Err(ZevParseError::InvalidFile(FileReason::OutOfBoundsRead))
    } else if !field_ok(b.subrange(pos, pos + 32)) {
        Err(ZevParseError::InvalidFile(FileReason::NameNotAscii))
    } else {
        Ok(raw_event_at(b, pos))
    }
}

impl RawEvent {
    pub const SIZE: usize = 40;

    pub fn read(bytes: &[u8], pos: usize) -> (r: Result<Self, ZevParseError>)
        ensures
            dv_res(r) == spec_read_raw_event(bytes@, pos as int),
    {
        if bytes.len() < Self::SIZE || pos > bytes.len() - Self::SIZE {
            return Err(ZevParseError::InvalidFile(FileReason::OutOfBoundsRead));
        }
        let name = match read_null_term_string(bytes, pos, 32) {
            Ok(n) => n,
            Err(e) => {
                return Err(e);
            },
        };
        Ok(
            RawEvent {
                name,
                dummy1: bytes[pos + 32],
                unk1: bytes[pos + 33],
                dummy2: read_u16_at(bytes, pos + 34),
                actorindex: read_u16_at(bytes, pos + 36),
                actorcount: read_u16_at(bytes, pos + 38),
            },
        )
    }

    pub fn write(&self, buf: &mut Vec<u8>, pos: usize)
        requires
            pos + RawEvent::SIZE <= old(buf).len(),
            self.name@.len() <= 32,
        ensures
            final(buf)@ == splice(old(buf)@, pos as int, raw_event_bytes(self.deep_view())),
    {
        let ghost b0 = old(buf)@;
        let ghost p = pos as int;
        write_null_term_pad_string(buf, pos, self.name.as_slice(), 32);
        let ghost a1 = zpad(self.name@, 32);
        write_u8_at(buf, pos + 32, self.dummy1);
        proof {
            lemma_splice_splice(b0, p, a1, seq![self.dummy1]);
        }
        let ghost a2 = a1.add(seq![self.dummy1]);
        write_u8_at(buf, pos + 33, self.unk1);
        proof {
            lemma_splice_splice(b0, p, a2, seq![self.unk1]);
        }
        let ghost a3 = a2.add(seq![self.unk1]);
        write_u16_at(buf, pos + 34, self.dummy2);
        proof {
            lemma_splice_splice(b0, p, a3, u16_bytes(self.dummy2));
        }
        let ghost a4 = a3.add(u16_bytes(self.dummy2));
        write_u16_at(buf, pos + 36, self.actorindex);
        proof {
            lemma_splice_splice(b0, p, a4, u16_bytes(self.actorindex));
        }
        let ghost a5 = a4.add(u16_bytes(self.actorindex));
        write_u16_at(buf, pos + 38, self.actorcount);
        proof {
            lemma_splice_splice(b0, p, a5, u16_bytes(self.actorcount));
        }
    }
}

/// An on-disk actor record: a name, two opaque flags, and the range of
/// rows it owns in the step tables.
#[derive(Debug, Clone, PartialEq, Eq)]
pub struct RawActor {
    pub name: Vec<u8>,
    pub unk1: u16,
    pub unk2: u16,
    pub stepindex: u16,
    pub stepcount: u16,
}

/// Mathematical image of an on-disk actor record.
pub ghost struct RawActorV {
    pub name: Seq<u8>,
    pub unk1: u16,
    pub unk2: u16,
    pub stepindex: u16,
    pub stepcount: u16,
}

impl DeepView for RawActor {
    type V = RawActorV;

    open spec fn deep_view(&self) -> RawActorV {
        RawActorV {
            name: self.name@,
            unk1: self.unk1,
            unk2: self.unk2,
            stepindex: self.stepindex,
            stepcount: self.stepcount,
        }
    }
}

/// The byte image of an actor record.
pub open spec fn raw_actor_bytes(a: RawActorV) -> Seq<u8> {
    zpad(a.name, 32).add(u16_bytes(a.unk1)).add(u16_bytes(a.unk2)).add(u16_bytes(a.stepindex)).add(
        u16_bytes(a.stepcount),
    )
}

/// The actor record stored at `pos`.
pub open spec fn raw_actor_at(b: Seq<u8>, pos: int) -> RawActorV {
    RawActorV {
        name: field_str(b.subrange(pos, pos + 32)),
        unk1: u16_be(b[pos + 32], b[pos + 33]),
        unk2: u16_be(b[pos + 34], b[pos + 35]),
        stepindex: u16_be(b[pos + 36], b[pos + 37]),
        stepcount: u16_be(b[pos + 38], b[pos + 39]),
    }
}

/// What reading an actor record at `pos` yields.
pub open spec fn spec_read_raw_actor(b: Seq<u8>, pos: int) -> Result<RawActorV, ZevParseError> {
    if !(0 <= pos && pos + RawActor::SIZE <= b.len()) {
        Err(ZevParseError::InvalidFile(FileReason::OutOfBoundsRead))
    } else if !field_ok(b.subrange(pos, pos + 32)) {
        Err(ZevParseError::InvalidFile(FileReason::NameNotAscii))
    } else {
        Ok(raw_actor_at(b, pos))
    }
}

impl RawActor {
    pub const SIZE: usize = 40;

    pub fn read(bytes: &[u8], pos: usize) -> (r: Result<Self, ZevParseError>)
        ensures
            dv_res(r) == spec_read_raw_actor(bytes@, pos as int),
    {
        if bytes.len() < Self::SIZE || pos > bytes.len() - Self::SIZE {
            return Err(ZevParseError::InvalidFile(FileReason::OutOfBoundsRead));
        }
        let name = match read_null_term_string(bytes, pos, 32) {
            Ok(n) => n,
            Err(e) => {
                return Err(e);
            },
        };
        Ok(
            RawActor {
                name,
                unk1: read_u16_at(bytes, pos + 32),
                unk2: read_u16_at(bytes, pos + 34),
                stepindex: read_u16_at(bytes, pos + 36),
                stepcount: read_u16_at(bytes, pos + 38),
            },
        )
    }

    pub fn write(&self, buf: &mut Vec<u8>, pos: usize)
        requires
            pos + RawActor::SIZE <= old(buf).len(),
            self.name@.len() <= 32,
        ensures
            final(buf)@ == splice(old(buf)@, pos as int, raw_actor_bytes(self.deep_view())),
    {
        let ghost b0 = old(buf)@;
        let ghost p = pos as int;
        write_null_term_pad_string(buf, pos, self.name.as_slice(), 32);
        let ghost a1 = zpad(self.name@, 32);
        write_u16_at(buf, pos + 32, self.unk1);
        proof {
            lemma_splice_splice(b0, p, a1, u16_bytes(self.unk1));
        }
        let ghost a2 = a1.add(u16_bytes(self.unk1));
        write_u16_at(buf, pos + 34, self.unk2);
        proof {
            lemma_splice_splice(b0, p, a2, u16_bytes(self.unk2));
        }
        let ghost a3 = a2.add(u16_bytes(self.unk2));
        write_u16_at(buf, pos + 36, self.stepindex);
        proof {
            lemma_splice_splice(b0, p, a3, u16_bytes(self.stepindex));
        }
        let ghost a4 = a3.add(u16_bytes(self.stepindex));
        write_u16_at(buf, pos + 38, self.stepcount);
        proof {
            lemma_splice_splice(b0, p, a4, u16_bytes(self.stepcount));
        }
    }
}

/// The first half of an on-disk step record: the long name, the
/// dependency pointer, and the owning actor's global index.
///
/// `waitfor` holds a signed field in a 16-bit image: values at or above
/// `0x8000` stand for negative numbers, and any negative number means
/// "no dependency".  The encoder's sentinel is `0xFFFF`.
#[derive(Debug, Clone, PartialEq, Eq)]
pub struct RawStep1 {
    pub name: Vec<u8>,
    pub waitfor: u16,
    pub actorindex: u16,
    pub unk3: u16,
    pub dummy0: u16,
    pub thisindex: u16,
    pub dummy1: u16,
}

/// Mathematical image of the first half of a step record.
pub ghost struct RawStep1V {
    pub name: Seq<u8>,
    pub waitfor: u16,
    pub actorindex: u16,
    pub unk3: u16,
    pub dummy0: u16,
    pub thisindex: u16,
    pub dummy1: u16,
}

impl DeepView for RawStep1 {
    type V = RawStep1V;

    open spec fn deep_view(&self) -> RawStep1V {
        RawStep1V {
            name: self.name@,
            waitfor: self.waitfor,
            actorindex: self.actorindex,
            unk3: self.unk3,
            dummy0: self.dummy0,
            thisindex: self.thisindex,
            dummy1: self.dummy1,
        }
    }
}

/// The byte image of a step-part-one record.
pub open spec fn raw_step1_bytes(s: RawStep1V) -> Seq<u8> {
    zpad(s.name, 16).add(u16_bytes(s.waitfor)).add(u16_bytes(s.actorindex)).add(
        u16_bytes(s.unk3),
    ).add(u16_bytes(s.dummy0)).add(u16_bytes(s.thisindex)).add(u16_bytes(s.dummy1))
}

/// The step-part-one record stored at `pos`.
pub open spec fn raw_step1_at(b: Seq<u8>, pos: int) -> RawStep1V {
    RawStep1V {
        name: field_str(b.subrange(pos, pos + 16)),
        waitfor: u16_be(b[pos + 16], b[pos + 17]),
        actorindex: u16_be(b[pos + 18], b[pos + 19]),
        unk3: u16_be(b[pos + 20], b[pos + 21]),
        dummy0: u16_be(b[pos + 22], b[pos + 23]),
        thisindex: u16_be(b[pos + 24], b[pos + 25]),
        dummy1: u16_be(b[pos + 26], b[pos + 27]),
    }
}

/// What reading a step-part-one record at `pos` yields.
pub open spec fn spec_read_raw_step1(b: Seq<u8>, pos: int) -> Result<RawStep1V, ZevParseError> {
    if !(0 <= pos && pos + RawStep1::SIZE <= b.len()) {
        Err(ZevParseError::InvalidFile(FileReason::OutOfBoundsRead))
    } else if !field_ok(b.subrange(pos, pos + 16)) {
        Err(ZevParseError::InvalidFile(FileReason::NameNotAscii))
    } else {
        Ok(raw_step1_at(b, pos))
    }
}

impl RawStep1 {
    pub const SIZE: usize = 28;

    pub fn read(bytes: &[u8], pos: usize) -> (r: Result<Self, ZevParseError>)
        ensures
            dv_res(r) == spec_read_raw_step1(bytes@, pos as int),
    {
        if bytes.len() < Self::SIZE || pos > bytes.len() - Self::SIZE {
            return Err(ZevParseError::InvalidFile(FileReason::OutOfBoundsRead));
        }
        let name = match read_null_term_string(bytes, pos, 16) {
            Ok(n) => n,
            Err(e) => {
                return Err(e);
            },
        };
        Ok(
            RawStep1 {
                name,
                waitfor: read_u16_at(bytes, pos + 16),
                actorindex: read_u16_at(bytes, pos + 18),
                unk3: read_u16_at(bytes, pos + 20),
                dummy0: read_u16_at(bytes, pos + 22),
                thisindex: read_u16_at(bytes, pos + 24),
                dummy1: read_u16_at(bytes, pos + 26),
            },
        )
    }

    pub fn write(&self, buf: &mut Vec<u8>, pos: usize)
        requires
            pos + RawStep1::SIZE <= old(buf).len(),
            self.name@.len() <= 16,
        ensures
            final(buf)@ == splice(old(buf)@, pos as int, raw_step1_bytes(self.deep_view())),
    {
        let ghost b0 = old(buf)@;
        let ghost p = pos as int;
        write_null_term_pad_string(buf, pos, self.name.as_slice(), 16);
        let ghost a1 = zpad(self.name@, 16);
        write_u16_at(buf, pos + 16, self.waitfor);
        proof {
            lemma_splice_splice(b0, p, a1, u16_bytes(self.waitfor));
        }
        let ghost a2 = a1.add(u16_bytes(self.waitfor));
        write_u16_at(buf, pos + 18, self.actorindex);
        proof {
            lemma_splice_splice(b0, p, a2, u16_bytes(self.actorindex));
        }
        let ghost a3 = a2.add(u16_bytes(self.actorindex));
        write_u16_at(buf, pos + 20, self.unk3);
        proof {
            lemma_splice_splice(b0, p, a3, u16_bytes(self.unk3));
        }
        let ghost a4 = a3.add(u16_bytes(self.unk3));
        write_u16_at(buf, pos + 22, self.dummy0);
        proof {
            lemma_splice_splice(b0, p, a4, u16_bytes(self.dummy0));
        }
        let ghost a5 = a4.add(u16_bytes(self.dummy0));
        write_u16_at(buf, pos + 24, self.thisindex);
        proof {
            lemma_splice_splice(b0, p, a5, u16_bytes(self.thisindex));
        }
        let ghost a6 = a5.add(u16_bytes(self.thisindex));
        write_u16_at(buf, pos + 26, self.dummy1);
        proof {
            lemma_splice_splice(b0, p, a6, u16_bytes(self.dummy1));
        }
    }
}

/// The second half of an on-disk step record: the short name and the
/// range of rows it owns in the data-definition table.
#[derive(Debug, Clone, PartialEq, Eq)]
pub struct RawStep2 {
    pub name: Vec<u8>,
    pub unk1: u16,
    pub thisindex: u16,
    pub datadefindex: u16,
    pub datadefcount: u16,
}

/// Mathematical image of the second half of a step record.
pub ghost struct RawStep2V {
    pub name: Seq<u8>,
    pub unk1: u16,
    pub thisindex: u16,
    pub datadefindex: u16,
    pub datadefcount: u16,
}

impl DeepView for RawStep2 {
    type V = RawStep2V;

    open spec fn deep_view(&self) -> RawStep2V {
        RawStep2V {
            name: self.name@,
            unk1: self.unk1,
            thisindex: self.thisindex,
            datadefindex: self.datadefindex,
            datadefcount: self.datadefcount,
        }
    }
}

/// The byte image of a step-part-two record.
pub open spec fn raw_step2_bytes(s: RawStep2V) -> Seq<u8> {
    zpad(s.name, 4).add(u16_bytes(s.unk1)).add(u16_bytes(s.thisindex)).add(
        u16_bytes(s.datadefindex),
    ).add(u16_bytes(s.datadefcount))
}

/// The step-part-two record stored at `pos`.
pub open spec fn raw_step2_at(b: Seq<u8>, pos: int) -> RawStep2V {
    RawStep2V {
        name: field_str(b.subrange(pos, pos + 4)),
        unk1: u16_be(b[pos + 4], b[pos + 5]),
        thisindex: u16_be(b[pos + 6], b[pos + 7]),
        datadefindex: u16_be(b[pos + 8], b[pos + 9]),
        datadefcount: u16_be(b[pos + 10], b[pos + 11]),
    }
}

/// What reading a step-part-two record at `pos` yields.
pub open spec fn spec_read_raw_step2(b: Seq<u8>, pos: int) -> Result<RawStep2V, ZevParseError> {
    if !(0 <= pos && pos + RawStep2::SIZE <= b.len()) {
        Err(ZevParseError::InvalidFile(FileReason::OutOfBoundsRead))
    } else if !field_ok(b.subrange(pos, pos + 4)) {
        Err(ZevParseError::InvalidFile(FileReason::NameNotAscii))
    } else {
        Ok(raw_step2_at(b, pos))
    }
}

impl RawStep2 {
    pub const SIZE: usize = 12;

    pub fn read(bytes: &[u8], pos: usize) -> (r: Result<Self, ZevParseError>)
        ensures
            dv_res(r) == spec_read_raw_step2(bytes@, pos as int),
    {
        if bytes.len() < Self::SIZE || pos > bytes.len() - Self::SIZE {
            return Err(ZevParseError::InvalidFile(FileReason::OutOfBoundsRead));
        }
        let name = match read_null_term_string(bytes, pos, 4) {
            Ok(n) => n,
            Err(e) => {
                return Err(e);
            },
        };
        Ok(
            RawStep2 {
                name,
                unk1: read_u16_at(bytes, pos + 4),
                thisindex: read_u16_at(bytes, pos + 6),
                datadefindex: read_u16_at(bytes, pos + 8),
                datadefcount: read_u16_at(bytes, pos + 10),
            },
        )
    }

    pub fn write(&self, buf: &mut Vec<u8>, pos: usize)
        requires
            pos + RawStep2::SIZE <= old(buf).len(),
            self.name@.len() <= 4,
        ensures
            final(buf)@ == splice(old(buf)@, pos as int, raw_step2_bytes(self.deep_view())),
    {
        let ghost b0 = old(buf)@;
        let ghost p = pos as int;
        write_null_term_pad_string(buf, pos, self.name.as_slice(), 4);
        let ghost a1 = zpad(self.name@, 4);
        write_u16_at(buf, pos + 4, self.unk1);
        proof {
            lemma_splice_splice(b0, p, a1, u16_bytes(self.unk1));
        }
        let ghost a2 = a1.add(u16_bytes(self.unk1));
        write_u16_at(buf, pos + 6, self.thisindex);
        proof {
            lemma_splice_splice(b0, p, a2, u16_bytes(self.thisindex));
        }
        let ghost a3 = a2.add(u16_bytes(self.thisindex));
        write_u16_at(buf, pos + 8, self.datadefindex);
        proof {
            lemma_splice_splice(b0, p, a3, u16_bytes(self.datadefindex));
        }
        let ghost a4 = a3.add(u16_bytes(self.datadefindex));
        write_u16_at(buf, pos + 10, self.datadefcount);
        proof {
            lemma_splice_splice(b0, p, a4, u16_bytes(self.datadefcount));
        }
    }
}

/// An on-disk data-definition record: a short name, a type tag, and the
/// range it owns inside one of the three value blobs.
#[derive(Debug, Clone, PartialEq, Eq)]
pub struct RawDataDef {
    pub name: Vec<u8>,
    pub unk1: u16,
    pub datatype: u16,
    pub dataindex: u16,
    pub datalen: u16,
}

/// Mathematical image of a data-definition record.
pub ghost struct RawDataDefV {
    pub name: Seq<u8>,
    pub unk1: u16,
    pub datatype: u16,
    pub dataindex: u16,
    pub datalen: u16,
}

impl DeepView for RawDataDef {
    type V = RawDataDefV;

    open spec fn deep_view(&self) -> RawDataDefV {
        RawDataDefV {
            name: self.name@,
            unk1: self.unk1,
            datatype: self.datatype,
            dataindex: self.dataindex,
            datalen: self.datalen,
        }
    }
}

/// The byte image of a data-definition record.
pub open spec fn raw_datadef_bytes(d: RawDataDefV) -> Seq<u8> {
    zpad(d.name, 4).add(u16_bytes(d.unk1)).add(u16_bytes(d.datatype)).add(
        u16_bytes(d.dataindex),
    ).add(u16_bytes(d.datalen))
}

/// The data-definition record stored at `pos`.
pub open spec fn raw_datadef_at(b: Seq<u8>, pos: int) -> RawDataDefV {
    RawDataDefV {
        name: field_str(b.subrange(pos, pos + 4)),
        unk1: u16_be(b[pos + 4], b[pos + 5]),
        datatype: u16_be(b[pos + 6], b[pos + 7]),
        dataindex: u16_be(b[pos + 8], b[pos + 9]),
        datalen: u16_be(b[pos + 10], b[pos + 11]),
    }
}

/// What reading a data-definition record at `pos` yields.
pub open spec fn spec_read_raw_datadef(b: Seq<u8>, pos: int) -> Result<RawDataDefV, ZevParseError> {
    if !(0 <= pos && pos + RawDataDef::SIZE <= b.len()) {
        Err(ZevParseError::InvalidFile(FileReason::OutOfBoundsRead))
    } else if !field_ok(b.subrange(pos, pos + 4)) {
        Err(ZevParseError::InvalidFile(FileReason::NameNotAscii))
    } else {
        Ok(raw_datadef_at(b, pos))
    }
}

impl RawDataDef {
    pub const SIZE: usize = 12;

    pub fn read(bytes: &[u8], pos: usize) -> (r: Result<Self, ZevParseError>)
        ensures
            dv_res(r) == spec_read_raw_datadef(bytes@, pos as int),
    {
        if bytes.len() < Self::SIZE || pos > bytes.len() - Self::SIZE {
            return Err(ZevParseError::InvalidFile(FileReason::OutOfBoundsRead));
        }
        let name = match read_null_term_string(bytes, pos, 4) {
            Ok(n) => n,
            Err(e) => {
                return Err(e);
            },
        };
        Ok(
            RawDataDef {
                name,
                unk1: read_u16_at(bytes, pos + 4),
                datatype: read_u16_at(bytes, pos + 6),
                dataindex: read_u16_at(bytes, pos + 8),
                datalen: read_u16_at(bytes, pos + 10),
            },
        )
    }

    pub fn write(&self, buf: &mut Vec<u8>, pos: usize)
        requires
            pos + RawDataDef::SIZE <= old(buf).len(),
            self.name@.len() <= 4,
        ensures
            final(buf)@ == splice(old(buf)@, pos as int, raw_datadef_bytes(self.deep_view())),
    {
        let ghost b0 = old(buf)@;
        let ghost p = pos as int;
        write_null_term_pad_string(buf, pos, self.name.as_slice(), 4);
        let ghost a1 = zpad(self.name@, 4);
        write_u16_at(buf, pos + 4, self.unk1);
        proof {
            lemma_splice_splice(b0, p, a1, u16_bytes(self.unk1));
        }
        let ghost a2 = a1.add(u16_bytes(self.unk1));
        write_u16_at(buf, pos + 6, self.datatype);
        proof {
            lemma_splice_splice(b0, p, a2, u16_bytes(self.datatype));
        }
        let ghost a3 = a2.add(u16_bytes(self.datatype));
        write_u16_at(buf, pos + 8, self.dataindex);
        proof {
            lemma_splice_splice(b0, p, a3, u16_bytes(self.dataindex));
        }
        let ghost a4 = a3.add(u16_bytes(self.dataindex));
        write_u16_at(buf, pos + 10, self.datalen);
        proof {
            lemma_splice_splice(b0, p, a4, u16_bytes(self.datalen));
        }
    }
}

} // verus!
