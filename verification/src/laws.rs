//! Laws of the codec that relate several functions: the encoded buffer's
//! length is exactly what the layout calculator computes from the header
//! it carries, the written header holds the counts of the logical
//! structure, and every fixed-size record survives its byte round trip.

use vstd::prelude::*;

use crate::bytes::{lemma_field_str_zpad, lemma_u16_bytes_be, name_wf, u16_be};
use crate::encode::{
    actor_encodable, actor_rows, actor_table, apply_event_patches, apply_patches, data_encodable,
    datadef_rows_actors, datadef_rows_datas, datadef_rows_steps, event_encodable,
    event_table_bytes, float_blob, float_blob_actors, float_blob_datas, float_blob_steps,
    graph_encodable, gs_of_ref, header_of, int_blob, int_blob_actors, int_blob_datas,
    int_blob_steps, lemma_raw_events_of_fit, lemma_sort_by_name_fit, lemma_sort_by_name_len,
    lemma_step1_table_len, lemma_tally_actors_count, lemma_tally_actors_prefix,
    lemma_tally_actors_snoc, lemma_tally_datas_snoc, lemma_tally_events_snoc,
    lemma_tally_steps_count, lemma_tally_steps_nonneg, lemma_tally_steps_snoc,
    raw_event_names_fit, raw_event_rows, raw_events_of, sort_events_by_name, spec_write_bytes,
    step1_section, step1_table, step2_rows_actors, step2_rows_steps, step2_table, step_encodable,
    str_bytes, string_blob, string_blob_actors, string_blob_datas, string_blob_steps,
    tally_actors, tally_datas, tally_events, tally_steps, u32s_bytes,
};
use crate::layout::expected_len;
use crate::model::{ActorV, EventV, StepDataV, StepDataValuesV, StepV};
use crate::raw::{
    raw_actor_at, raw_actor_bytes, raw_datadef_at, raw_datadef_bytes, raw_event_at,
    raw_event_bytes, raw_header_at, raw_header_bytes, raw_step1_at, raw_step1_bytes, raw_step2_at,
    raw_step2_bytes, spec_read_raw_actor, spec_read_raw_datadef, spec_read_raw_event,
    spec_read_raw_header, spec_read_raw_step1, spec_read_raw_step2, RawActor, RawActorV,
    RawDataDef, RawDataDefV, RawEvent, RawEventV, RawHeader, RawStep1, RawStep1V, RawStep2,
    RawStep2V,
};

verus! {

proof fn lemma_raw_event_rows_len(rs: Seq<RawEventV>, n: int)
    requires
        0 <= n <= rs.len(),
        raw_event_names_fit(rs),
    ensures
        raw_event_rows(rs, n).len() == (RawEvent::SIZE as int) * n,
    decreases n,
{
    if n > 0 {
        lemma_raw_event_rows_len(rs, n - 1);
        assert(rs[n - 1].name.len() <= 32);
        assert(raw_event_bytes(rs[n - 1]).len() == 40);
    }
}

proof fn lemma_actor_rows_len(acts: Seq<ActorV>, sbase: int, n: int)
    requires
        0 <= n <= acts.len(),
        forall|j: int| 0 <= j < acts.len() ==> actor_encodable(#[trigger] acts[j]),
    ensures
        actor_rows(acts, sbase, n).len() == (RawActor::SIZE as int) * n,
    decreases n,
{
    if n > 0 {
        lemma_actor_rows_len(acts, sbase, n - 1);
        assert(actor_encodable(acts[n - 1]));
    }
}

proof fn lemma_actor_table_len(evs: Seq<EventV>, n: int)
    requires
        0 <= n <= evs.len(),
        forall|i: int| 0 <= i < evs.len() ==> event_encodable(#[trigger] evs[i]),
    ensures
        actor_table(evs, n).len() == (RawActor::SIZE as int) * tally_events(evs.take(n)).actors,
    decreases n,
{
    if n == 0 {
        assert(evs.take(0) =~= Seq::<EventV>::empty());
    } else {
        lemma_actor_table_len(evs, n - 1);
        assert(event_encodable(evs[n - 1]));
        lemma_actor_rows_len(
            evs[n - 1].actors,
            tally_events(evs.take(n - 1)).steps,
            evs[n - 1].actors.len() as int,
        );
        lemma_tally_events_snoc(evs, n - 1);
        lemma_tally_actors_count(evs[n - 1].actors);
    }
}

proof fn lemma_step2_rows_steps_len(ss: Seq<StepV>, sbase: int, dbase: int, n: int)
    requires
        0 <= n <= ss.len(),
        forall|k: int| 0 <= k < ss.len() ==> step_encodable(#[trigger] ss[k]),
    ensures
        step2_rows_steps(ss, sbase, dbase, n).len() == (RawStep2::SIZE as int) * n,
    decreases n,
{
    if n > 0 {
        lemma_step2_rows_steps_len(ss, sbase, dbase, n - 1);
        assert(step_encodable(ss[n - 1]));
    }
}

proof fn lemma_step2_rows_actors_len(acts: Seq<ActorV>, sbase: int, dbase: int, n: int)
    requires
        0 <= n <= acts.len(),
        forall|j: int| 0 <= j < acts.len() ==> actor_encodable(#[trigger] acts[j]),
    ensures
        step2_rows_actors(acts, sbase, dbase, n).len() == (RawStep2::SIZE as int) * tally_actors(
            acts.take(n),
        ).steps,
    decreases n,
{
    if n == 0 {
        assert(acts.take(0) =~= Seq::<ActorV>::empty());
    } else {
        lemma_step2_rows_actors_len(acts, sbase, dbase, n - 1);
        assert(actor_encodable(acts[n - 1]));
        lemma_step2_rows_steps_len(
            acts[n - 1].steps,
            sbase + tally_actors(acts.take(n - 1)).steps,
            dbase + tally_actors(acts.take(n - 1)).datadefs,
            acts[n - 1].steps.len() as int,
        );
        lemma_tally_actors_snoc(acts, n - 1);
        lemma_tally_steps_count(acts[n - 1].steps);
    }
}

proof fn lemma_step2_table_len(evs: Seq<EventV>, n: int)
    requires
        0 <= n <= evs.len(),
        forall|i: int| 0 <= i < evs.len() ==> event_encodable(#[trigger] evs[i]),
    ensures
        step2_table(evs, n).len() == (RawStep2::SIZE as int) * tally_events(evs.take(n)).steps,
    decreases n,
{
    if n == 0 {
        assert(evs.take(0) =~= Seq::<EventV>::empty());
    } else {
        lemma_step2_table_len(evs, n - 1);
        assert(event_encodable(evs[n - 1]));
        lemma_step2_rows_actors_len(
            evs[n - 1].actors,
            tally_events(evs.take(n - 1)).steps,
            tally_events(evs.take(n - 1)).datadefs,
            evs[n - 1].actors.len() as int,
        );
        assert(evs[n - 1].actors.take(evs[n - 1].actors.len() as int) =~= evs[n - 1].actors);
        lemma_tally_events_snoc(evs, n - 1);
    }
}

proof fn lemma_datadef_rows_datas_len(ds: Seq<StepDataV>, ib: int, fb: int, tb: int, n: int)
    requires
        0 <= n <= ds.len(),
        forall|m: int| 0 <= m < ds.len() ==> data_encodable(#[trigger] ds[m]),
    ensures
        datadef_rows_datas(ds, ib, fb, tb, n).len() == (RawDataDef::SIZE as int) * n,
    decreases n,
{
    if n > 0 {
        lemma_datadef_rows_datas_len(ds, ib, fb, tb, n - 1);
        assert(data_encodable(ds[n - 1]));
    }
}

proof fn lemma_datadef_rows_steps_len(ss: Seq<StepV>, ib: int, fb: int, tb: int, n: int)
    requires
        0 <= n <= ss.len(),
        forall|k: int| 0 <= k < ss.len() ==> step_encodable(#[trigger] ss[k]),
    ensures
        datadef_rows_steps(ss, ib, fb, tb, n).len() == (RawDataDef::SIZE as int) * tally_steps(
            ss.take(n),
        ).datadefs,
    decreases n,
{
    if n == 0 {
        assert(ss.take(0) =~= Seq::<StepV>::empty());
    } else {
        lemma_datadef_rows_steps_len(ss, ib, fb, tb, n - 1);
        assert(step_encodable(ss[n - 1]));
        let t = tally_steps(ss.take(n - 1));
        lemma_datadef_rows_datas_len(
            ss[n - 1].data,
            ib + t.ints,
            fb + t.floats,
            tb + t.strbytes,
            ss[n - 1].data.len() as int,
        );
        lemma_tally_steps_snoc(ss, n - 1);
        crate::encode::lemma_tally_datas_count(ss[n - 1].data);
    }
}

proof fn lemma_datadef_rows_actors_len(acts: Seq<ActorV>, ib: int, fb: int, tb: int, n: int)
    requires
        0 <= n <= acts.len(),
        forall|j: int| 0 <= j < acts.len() ==> actor_encodable(#[trigger] acts[j]),
    ensures
        datadef_rows_actors(acts, ib, fb, tb, n).len() == (RawDataDef::SIZE as int) * tally_actors(
            acts.take(n),
        ).datadefs,
    decreases n,
{
    if n == 0 {
        assert(acts.take(0) =~= Seq::<ActorV>::empty());
    } else {
        lemma_datadef_rows_actors_len(acts, ib, fb, tb, n - 1);
        assert(actor_encodable(acts[n - 1]));
        let t = tally_actors(acts.take(n - 1));
        lemma_datadef_rows_steps_len(
            acts[n - 1].steps,
            ib + t.ints,
            fb + t.floats,
            tb + t.strbytes,
            acts[n - 1].steps.len() as int,
        );
        assert(acts[n - 1].steps.take(acts[n - 1].steps.len() as int) =~= acts[n - 1].steps);
        lemma_tally_actors_snoc(acts, n - 1);
    }
}

proof fn lemma_datadef_table_len(evs: Seq<EventV>, n: int)
    requires
        0 <= n <= evs.len(),
        forall|i: int| 0 <= i < evs.len() ==> event_encodable(#[trigger] evs[i]),
    ensures
        crate::encode::datadef_table(evs, n).len() == (RawDataDef::SIZE as int) * tally_events(
            evs.take(n),
        ).datadefs,
    decreases n,
{
    if n == 0 {
        assert(evs.take(0) =~= Seq::<EventV>::empty());
    } else {
        lemma_datadef_table_len(evs, n - 1);
        assert(event_encodable(evs[n - 1]));
        let t = tally_events(evs.take(n - 1));
        lemma_datadef_rows_actors_len(
            evs[n - 1].actors,
            t.ints,
            t.floats,
            t.strbytes,
            evs[n - 1].actors.len() as int,
        );
        assert(evs[n - 1].actors.take(evs[n - 1].actors.len() as int) =~= evs[n - 1].actors);
        lemma_tally_events_snoc(evs, n - 1);
    }
}

proof fn lemma_u32s_bytes_len(v: Seq<u32>, n: int)
    requires
        0 <= n <= v.len(),
    ensures
        u32s_bytes(v, n).len() == 4 * n,
    decreases n,
{
    if n > 0 {
        lemma_u32s_bytes_len(v, n - 1);
    }
}

proof fn lemma_int_blob_datas_len(ds: Seq<StepDataV>, n: int)
    requires
        0 <= n <= ds.len(),
    ensures
        int_blob_datas(ds, n).len() == 4 * tally_datas(ds.take(n)).ints,
        float_blob_datas(ds, n).len() == 4 * tally_datas(ds.take(n)).floats,
        string_blob_datas(ds, n).len() == tally_datas(ds.take(n)).strbytes,
    decreases n,
{
    if n == 0 {
        assert(ds.take(0) =~= Seq::<StepDataV>::empty());
    } else {
        lemma_int_blob_datas_len(ds, n - 1);
        lemma_tally_datas_snoc(ds, n - 1);
        match ds[n - 1].values {
            StepDataValuesV::Ints(v) => {
                lemma_u32s_bytes_len(v, v.len() as int);
            },
            StepDataValuesV::Floats(v) => {
                lemma_u32s_bytes_len(v, v.len() as int);
            },
            StepDataValuesV::String(_) => {},
        }
    }
}

proof fn lemma_int_blob_steps_len(ss: Seq<StepV>, n: int)
    requires
        0 <= n <= ss.len(),
    ensures
        int_blob_steps(ss, n).len() == 4 * tally_steps(ss.take(n)).ints,
        float_blob_steps(ss, n).len() == 4 * tally_steps(ss.take(n)).floats,
        string_blob_steps(ss, n).len() == tally_steps(ss.take(n)).strbytes,
    decreases n,
{
    if n == 0 {
        assert(ss.take(0) =~= Seq::<StepV>::empty());
    } else {
        lemma_int_blob_steps_len(ss, n - 1);
        lemma_int_blob_datas_len(ss[n - 1].data, ss[n - 1].data.len() as int);
        assert(ss[n - 1].data.take(ss[n - 1].data.len() as int) =~= ss[n - 1].data);
        lemma_tally_steps_snoc(ss, n - 1);
    }
}

proof fn lemma_int_blob_actors_len(acts: Seq<ActorV>, n: int)
    requires
        0 <= n <= acts.len(),
    ensures
        int_blob_actors(acts, n).len() == 4 * tally_actors(acts.take(n)).ints,
        float_blob_actors(acts, n).len() == 4 * tally_actors(acts.take(n)).floats,
        string_blob_actors(acts, n).len() == tally_actors(acts.take(n)).strbytes,
    decreases n,
{
    if n == 0 {
        assert(acts.take(0) =~= Seq::<ActorV>::empty());
    } else {
        lemma_int_blob_actors_len(acts, n - 1);
        lemma_int_blob_steps_len(acts[n - 1].steps, acts[n - 1].steps.len() as int);
        assert(acts[n - 1].steps.take(acts[n - 1].steps.len() as int) =~= acts[n - 1].steps);
        lemma_tally_actors_snoc(acts, n - 1);
    }
}

proof fn lemma_blobs_len(evs: Seq<EventV>, n: int)
    requires
        0 <= n <= evs.len(),
    ensures
        int_blob(evs, n).len() == 4 * tally_events(evs.take(n)).ints,
        float_blob(evs, n).len() == 4 * tally_events(evs.take(n)).floats,
        string_blob(evs, n).len() == tally_events(evs.take(n)).strbytes,
    decreases n,
{
    if n == 0 {
        assert(evs.take(0) =~= Seq::<EventV>::empty());
    } else {
        lemma_blobs_len(evs, n - 1);
        lemma_int_blob_actors_len(evs[n - 1].actors, evs[n - 1].actors.len() as int);
        assert(evs[n - 1].actors.take(evs[n - 1].actors.len() as int) =~= evs[n - 1].actors);
        lemma_tally_events_snoc(evs, n - 1);
    }
}

proof fn lemma_apply_event_patches_len(tbl: Seq<u8>, e: EventV, sbase: int, n: int, total: int)
    requires
        event_encodable(e),
        0 <= n <= e.wait_fors.len(),
        0 <= sbase,
        sbase + tally_actors(e.actors).steps <= total,
        tbl.len() == (RawStep1::SIZE as int) * total,
    ensures
        apply_event_patches(tbl, e, sbase, n).len() == tbl.len(),
    decreases n,
{
    if n > 0 {
        lemma_apply_event_patches_len(tbl, e, sbase, n - 1, total);
        let t = apply_event_patches(tbl, e, sbase, n - 1);
        let w = e.wait_fors[n - 1];
        assert(e.edges_in_range());
        assert(e.has_coord(w.waiting.actor_idx as int, w.waiting.step_idx as int));
        let wa = w.waiting.actor_idx as int;
        lemma_tally_actors_snoc(e.actors, wa);
        lemma_tally_actors_prefix(e.actors, wa + 1);
        lemma_tally_steps_count(e.actors[wa].steps);
        lemma_tally_steps_nonneg(e.actors[wa].steps);
        crate::encode::lemma_tally_actors_nonneg(e.actors.take(wa));
        assert(gs_of_ref(e.actors, sbase, w.waiting) < total);
        crate::bytes::lemma_splice(
            t,
            gs_of_ref(e.actors, sbase, w.waiting) * (RawStep1::SIZE as int) + 16,
            crate::bytes::u16_bytes(gs_of_ref(e.actors, sbase, w.waiting_on) as u16),
        );
    }
}

proof fn lemma_apply_patches_len(tbl: Seq<u8>, evs: Seq<EventV>, n: int, total: int)
    requires
        0 <= n <= evs.len(),
        forall|i: int| 0 <= i < evs.len() ==> event_encodable(#[trigger] evs[i]),
        tally_events(evs).steps <= total,
        tbl.len() == (RawStep1::SIZE as int) * total,
    ensures
        apply_patches(tbl, evs, n).len() == tbl.len(),
    decreases n,
{
    if n > 0 {
        lemma_apply_patches_len(tbl, evs, n - 1, total);
        lemma_tally_events_snoc(evs, n - 1);
        crate::encode::lemma_tally_events_prefix(evs, n);
        crate::encode::lemma_tally_events_nonneg(evs.take(n - 1));
        assert(event_encodable(evs[n - 1]));
        lemma_apply_event_patches_len(
            apply_patches(tbl, evs, n - 1),
            evs[n - 1],
            tally_events(evs.take(n - 1)).steps,
            evs[n - 1].wait_fors.len() as int,
            total,
        );
    }
}

/// Count consistency: the encoded buffer's length equals the layout
/// total computed from the header it carries, and that header's counts
/// are exactly the counts of the logical structure (one per event,
/// actor, step, data definition, and value).
pub proof fn lemma_count_consistency(evs: Seq<EventV>)
    requires
        graph_encodable(evs),
    ensures
        spec_write_bytes(evs).len() == expected_len(header_of(evs)),
        header_of(evs).evntcount == evs.len(),
        header_of(evs).actorcount == tally_events(evs).actors,
        header_of(evs).stepscount == tally_events(evs).steps,
        header_of(evs).steps2count == tally_events(evs).steps,
        header_of(evs).datacount == tally_events(evs).datadefs,
        header_of(evs).intcount == tally_events(evs).ints,
        header_of(evs).floatcount == tally_events(evs).floats,
        header_of(evs).stringcount == tally_events(evs).strbytes,
{
    let n = evs.len() as int;
    let h = header_of(evs);
    assert(evs.take(n) =~= evs);
    lemma_raw_events_of_fit(evs, n);
    lemma_sort_by_name_fit(raw_events_of(evs, n));
    lemma_sort_by_name_len(raw_events_of(evs, n));
    lemma_raw_events_of_len(evs, n);
    lemma_raw_event_rows_len(
        sort_events_by_name(raw_events_of(evs, n)),
        sort_events_by_name(raw_events_of(evs, n)).len() as int,
    );
    lemma_actor_table_len(evs, n);
    lemma_step1_table_len(evs, n);
    lemma_apply_patches_len(step1_table(evs, n), evs, n, tally_events(evs).steps);
    lemma_step2_table_len(evs, n);
    lemma_datadef_table_len(evs, n);
    lemma_blobs_len(evs, n);
    assert(raw_header_bytes(h).len() == 20);
}

proof fn lemma_raw_events_of_len(evs: Seq<EventV>, n: int)
    requires
        0 <= n <= evs.len(),
    ensures
        raw_events_of(evs, n).len() == n,
    decreases n,
{
    if n > 0 {
        lemma_raw_events_of_len(evs, n - 1);
    }
}

/// A header record survives its byte round trip: reading the twenty
/// bytes the writer lays down gives back every count unchanged.
pub proof fn lemma_raw_header_roundtrip(b: Seq<u8>, pos: int, h: RawHeader)
    requires
        0 <= pos,
        pos + RawHeader::SIZE <= b.len(),
        b.subrange(pos, pos + RawHeader::SIZE) == raw_header_bytes(h),
    ensures
        spec_read_raw_header(b, pos) == Ok::<RawHeader, crate::errors::ZevParseError>(h),
{
    let hb = raw_header_bytes(h);
    assert forall|i: int| 0 <= i < 20 implies b[pos + i] == hb[i] by {
        assert(b.subrange(pos, pos + 20)[i] == b[pos + i]);
    }
    lemma_u16_bytes_be(h.magic);
    lemma_u16_bytes_be(h.evntcount);
    lemma_u16_bytes_be(h.actorcount);
    lemma_u16_bytes_be(h.stepscount);
    lemma_u16_bytes_be(h.steps2count);
    lemma_u16_bytes_be(h.datacount);
    lemma_u16_bytes_be(h.alwaysev);
    lemma_u16_bytes_be(h.intcount);
    lemma_u16_bytes_be(h.floatcount);
    lemma_u16_bytes_be(h.stringcount);
    assert(hb[0] == crate::bytes::u16_bytes(h.magic)[0]);
    assert(hb[1] == crate::bytes::u16_bytes(h.magic)[1]);
    assert(hb[2] == crate::bytes::u16_bytes(h.evntcount)[0]);
    assert(hb[3] == crate::bytes::u16_bytes(h.evntcount)[1]);
    assert(hb[4] == crate::bytes::u16_bytes(h.actorcount)[0]);
    assert(hb[5] == crate::bytes::u16_bytes(h.actorcount)[1]);
    assert(hb[6] == crate::bytes::u16_bytes(h.stepscount)[0]);
    assert(hb[7] == crate::bytes::u16_bytes(h.stepscount)[1]);
    assert(hb[8] == crate::bytes::u16_bytes(h.steps2count)[0]);
    assert(hb[9] == crate::bytes::u16_bytes(h.steps2count)[1]);
    assert(hb[10] == crate::bytes::u16_bytes(h.datacount)[0]);
    assert(hb[11] == crate::bytes::u16_bytes(h.datacount)[1]);
    assert(hb[12] == crate::bytes::u16_bytes(h.alwaysev)[0]);
    assert(hb[13] == crate::bytes::u16_bytes(h.alwaysev)[1]);
    assert(hb[14] == crate::bytes::u16_bytes(h.intcount)[0]);
    assert(hb[15] == crate::bytes::u16_bytes(h.intcount)[1]);
    assert(hb[16] == crate::bytes::u16_bytes(h.floatcount)[0]);
    assert(hb[17] == crate::bytes::u16_bytes(h.floatcount)[1]);
    assert(hb[18] == crate::bytes::u16_bytes(h.stringcount)[0]);
    assert(hb[19] == crate::bytes::u16_bytes(h.stringcount)[1]);
    assert(raw_header_at(b, pos) == h);
}

/// The encoded buffer opens with exactly the header that
/// `lemma_count_consistency` describes.
#[verifier::rlimit(60)]
pub proof fn lemma_encoded_header(evs: Seq<EventV>)
    requires
        graph_encodable(evs),
    ensures
        spec_read_raw_header(spec_write_bytes(evs), 0) == Ok::<
            RawHeader,
            crate::errors::ZevParseError,
        >(header_of(evs)),
{
    let swb = spec_write_bytes(evs);
    let h = header_of(evs);
    lemma_count_consistency(evs);
    assert(raw_header_bytes(h).len() == 20);
    assert(swb.subrange(0, 20) =~= raw_header_bytes(h));
    lemma_raw_header_roundtrip(swb, 0, h);
}

/// An event record survives its byte round trip when its name is
/// well formed for its field.
pub proof fn lemma_raw_event_roundtrip(b: Seq<u8>, pos: int, e: RawEventV)
    requires
        0 <= pos,
        pos + RawEvent::SIZE <= b.len(),
        b.subrange(pos, pos + RawEvent::SIZE) == raw_event_bytes(e),
        name_wf(e.name, 32),
    ensures
        spec_read_raw_event(b, pos) == Ok::<RawEventV, crate::errors::ZevParseError>(e),
{
    let eb = raw_event_bytes(e);
    assert forall|i: int| 0 <= i < 40 implies b[pos + i] == eb[i] by {
        assert(b.subrange(pos, pos + 40)[i] == b[pos + i]);
    }
    assert(b.subrange(pos, pos + 32) =~= crate::bytes::zpad(e.name, 32));
    lemma_field_str_zpad(e.name, 32);
    lemma_u16_bytes_be(e.dummy2);
    lemma_u16_bytes_be(e.actorindex);
    lemma_u16_bytes_be(e.actorcount);
    assert(eb[32] == e.dummy1);
    assert(eb[33] == e.unk1);
    assert(eb[34] == crate::bytes::u16_bytes(e.dummy2)[0]);
    assert(eb[35] == crate::bytes::u16_bytes(e.dummy2)[1]);
    assert(eb[36] == crate::bytes::u16_bytes(e.actorindex)[0]);
    assert(eb[37] == crate::bytes::u16_bytes(e.actorindex)[1]);
    assert(eb[38] == crate::bytes::u16_bytes(e.actorcount)[0]);
    assert(eb[39] == crate::bytes::u16_bytes(e.actorcount)[1]);
    assert(raw_event_at(b, pos) == e);
}

/// An actor record survives its byte round trip when its name is
/// well formed for its field.
pub proof fn lemma_raw_actor_roundtrip(b: Seq<u8>, pos: int, a: RawActorV)
    requires
        0 <= pos,
        pos + RawActor::SIZE <= b.len(),
        b.subrange(pos, pos + RawActor::SIZE) == raw_actor_bytes(a),
        name_wf(a.name, 32),
    ensures
        spec_read_raw_actor(b, pos) == Ok::<RawActorV, crate::errors::ZevParseError>(a),
{
    let ab = raw_actor_bytes(a);
    assert forall|i: int| 0 <= i < 40 implies b[pos + i] == ab[i] by {
        assert(b.subrange(pos, pos + 40)[i] == b[pos + i]);
    }
    assert(b.subrange(pos, pos + 32) =~= crate::bytes::zpad(a.name, 32));
    lemma_field_str_zpad(a.name, 32);
    lemma_u16_bytes_be(a.unk1);
    lemma_u16_bytes_be(a.unk2);
    lemma_u16_bytes_be(a.stepindex);
    lemma_u16_bytes_be(a.stepcount);
    assert(ab[32] == crate::bytes::u16_bytes(a.unk1)[0]);
    assert(ab[33] == crate::bytes::u16_bytes(a.unk1)[1]);
    assert(ab[34] == crate::bytes::u16_bytes(a.unk2)[0]);
    assert(ab[35] == crate::bytes::u16_bytes(a.unk2)[1]);
    assert(ab[36] == crate::bytes::u16_bytes(a.stepindex)[0]);
    assert(ab[37] == crate::bytes::u16_bytes(a.stepindex)[1]);
    assert(ab[38] == crate::bytes::u16_bytes(a.stepcount)[0]);
    assert(ab[39] == crate::bytes::u16_bytes(a.stepcount)[1]);
    assert(raw_actor_at(b, pos) == a);
}

/// A step-part-one record survives its byte round trip when its long
/// name is well formed for its field.
pub proof fn lemma_raw_step1_roundtrip(b: Seq<u8>, pos: int, s: RawStep1V)
    requires
        0 <= pos,
        pos + RawStep1::SIZE <= b.len(),
        b.subrange(pos, pos + RawStep1::SIZE) == raw_step1_bytes(s),
        name_wf(s.name, 16),
    ensures
        spec_read_raw_step1(b, pos) == Ok::<RawStep1V, crate::errors::ZevParseError>(s),
{
    let sb = raw_step1_bytes(s);
    assert forall|i: int| 0 <= i < 28 implies b[pos + i] == sb[i] by {
        assert(b.subrange(pos, pos + 28)[i] == b[pos + i]);
    }
    assert(b.subrange(pos, pos + 16) =~= crate::bytes::zpad(s.name, 16));
    lemma_field_str_zpad(s.name, 16);
    lemma_u16_bytes_be(s.waitfor);
    lemma_u16_bytes_be(s.actorindex);
    lemma_u16_bytes_be(s.unk3);
    lemma_u16_bytes_be(s.dummy0);
    lemma_u16_bytes_be(s.thisindex);
    lemma_u16_bytes_be(s.dummy1);
    assert(sb[16] == crate::bytes::u16_bytes(s.waitfor)[0]);
    assert(sb[17] == crate::bytes::u16_bytes(s.waitfor)[1]);
    assert(sb[18] == crate::bytes::u16_bytes(s.actorindex)[0]);
    assert(sb[19] == crate::bytes::u16_bytes(s.actorindex)[1]);
    assert(sb[20] == crate::bytes::u16_bytes(s.unk3)[0]);
    assert(sb[21] == crate::bytes::u16_bytes(s.unk3)[1]);
    assert(sb[22] == crate::bytes::u16_bytes(s.dummy0)[0]);
    assert(sb[23] == crate::bytes::u16_bytes(s.dummy0)[1]);
    assert(sb[24] == crate::bytes::u16_bytes(s.thisindex)[0]);
    assert(sb[25] == crate::bytes::u16_bytes(s.thisindex)[1]);
    assert(sb[26] == crate::bytes::u16_bytes(s.dummy1)[0]);
    assert(sb[27] == crate::bytes::u16_bytes(s.dummy1)[1]);
    assert(raw_step1_at(b, pos) == s);
}

/// A step-part-two record survives its byte round trip when its short
/// name is well formed for its field.
pub proof fn lemma_raw_step2_roundtrip(b: Seq<u8>, pos: int, s: RawStep2V)
    requires
        0 <= pos,
        pos + RawStep2::SIZE <= b.len(),
        b.subrange(pos, pos + RawStep2::SIZE) == raw_step2_bytes(s),
        name_wf(s.name, 4),
    ensures
        spec_read_raw_step2(b, pos) == Ok::<RawStep2V, crate::errors::ZevParseError>(s),
{
    let sb = raw_step2_bytes(s);
    assert forall|i: int| 0 <= i < 12 implies b[pos + i] == sb[i] by {
        assert(b.subrange(pos, pos + 12)[i] == b[pos + i]);
    }
    assert(b.subrange(pos, pos + 4) =~= crate::bytes::zpad(s.name, 4));
    lemma_field_str_zpad(s.name, 4);
    lemma_u16_bytes_be(s.unk1);
    lemma_u16_bytes_be(s.thisindex);
    lemma_u16_bytes_be(s.datadefindex);
    lemma_u16_bytes_be(s.datadefcount);
    assert(sb[4] == crate::bytes::u16_bytes(s.unk1)[0]);
    assert(sb[5] == crate::bytes::u16_bytes(s.unk1)[1]);
    assert(sb[6] == crate::bytes::u16_bytes(s.thisindex)[0]);
    assert(sb[7] == crate::bytes::u16_bytes(s.thisindex)[1]);
    assert(sb[8] == crate::bytes::u16_bytes(s.datadefindex)[0]);
    assert(sb[9] == crate::bytes::u16_bytes(s.datadefindex)[1]);
    assert(sb[10] == crate::bytes::u16_bytes(s.datadefcount)[0]);
    assert(sb[11] == crate::bytes::u16_bytes(s.datadefcount)[1]);
    assert(raw_step2_at(b, pos) == s);
}

/// A data-definition record survives its byte round trip when its name
/// is well formed for its field.
pub proof fn lemma_raw_datadef_roundtrip(b: Seq<u8>, pos: int, d: RawDataDefV)
    requires
        0 <= pos,
        pos + RawDataDef::SIZE <= b.len(),
        b.subrange(pos, pos + RawDataDef::SIZE) == raw_datadef_bytes(d),
        name_wf(d.name, 4),
    ensures
        spec_read_raw_datadef(b, pos) == Ok::<RawDataDefV, crate::errors::ZevParseError>(d),
{
    let db = raw_datadef_bytes(d);
    assert forall|i: int| 0 <= i < 12 implies b[pos + i] == db[i] by {
        assert(b.subrange(pos, pos + 12)[i] == b[pos + i]);
    }
    assert(b.subrange(pos, pos + 4) =~= crate::bytes::zpad(d.name, 4));
    lemma_field_str_zpad(d.name, 4);
    lemma_u16_bytes_be(d.unk1);
    lemma_u16_bytes_be(d.datatype);
    lemma_u16_bytes_be(d.dataindex);
    lemma_u16_bytes_be(d.datalen);
    assert(db[4] == crate::bytes::u16_bytes(d.unk1)[0]);
    assert(db[5] == crate::bytes::u16_bytes(d.unk1)[1]);
    assert(db[6] == crate::bytes::u16_bytes(d.datatype)[0]);
    assert(db[7] == crate::bytes::u16_bytes(d.datatype)[1]);
    assert(db[8] == crate::bytes::u16_bytes(d.dataindex)[0]);
    assert(db[9] == crate::bytes::u16_bytes(d.dataindex)[1]);
    assert(db[10] == crate::bytes::u16_bytes(d.datalen)[0]);
    assert(db[11] == crate::bytes::u16_bytes(d.datalen)[1]);
    assert(raw_datadef_at(b, pos) == d);
}

proof fn lemma_raw_event_rows_index(rs: Seq<RawEventV>, n: int, i: int)
    requires
        raw_event_names_fit(rs),
        0 <= i < n <= rs.len(),
    ensures
        raw_event_rows(rs, n).subrange(
            (RawEvent::SIZE as int) * i,
            (RawEvent::SIZE as int) * (i + 1),
        ) == raw_event_bytes(rs[i]),
    decreases n,
{
    lemma_raw_event_rows_len(rs, n - 1);
    assert(rs[n - 1].name.len() <= 32);
    assert(raw_event_bytes(rs[n - 1]).len() == 40);
    if i == n - 1 {
        assert(raw_event_rows(rs, n).subrange(40 * i, 40 * (i + 1)) =~= raw_event_bytes(rs[i]));
    } else {
        lemma_raw_event_rows_index(rs, n - 1, i);
        assert(raw_event_rows(rs, n).subrange(40 * i, 40 * (i + 1)) =~= raw_event_rows(
            rs,
            n - 1,
        ).subrange(40 * i, 40 * (i + 1)));
    }
}

/// Every name of the record list is well formed for its field.
pub open spec fn raw_event_names_wf(rs: Seq<RawEventV>) -> bool {
    forall|i: int| 0 <= i < rs.len() ==> name_wf((#[trigger] rs[i]).name, 32)
}

proof fn lemma_insert_by_name_wf(s: Seq<RawEventV>, e: RawEventV)
    requires
        raw_event_names_wf(s),
        name_wf(e.name, 32),
    ensures
        raw_event_names_wf(crate::encode::insert_by_name(s, e)),
    decreases s.len(),
{
    if s.len() > 0 && !(crate::encode::nin_cmp(s.last().name, e.name) <= 0) {
        assert(raw_event_names_wf(s.drop_last()));
        lemma_insert_by_name_wf(s.drop_last(), e);
    }
}

proof fn lemma_sort_by_name_wf(s: Seq<RawEventV>)
    requires
        raw_event_names_wf(s),
    ensures
        raw_event_names_wf(sort_events_by_name(s)),
    decreases s.len(),
{
    if s.len() > 0 {
        assert(raw_event_names_wf(s.drop_last()));
        lemma_sort_by_name_wf(s.drop_last());
        lemma_insert_by_name_wf(sort_events_by_name(s.drop_last()), s.last());
    }
}

proof fn lemma_raw_events_of_wf(evs: Seq<EventV>, n: int)
    requires
        0 <= n <= evs.len(),
        forall|i: int| 0 <= i < evs.len() ==> name_wf((#[trigger] evs[i]).name, 32),
    ensures
        raw_event_names_wf(raw_events_of(evs, n)),
    decreases n,
{
    if n > 0 {
        lemma_raw_events_of_wf(evs, n - 1);
        assert(name_wf(evs[n - 1].name, 32));
    }
}

proof fn lemma_read_event_table_aux(b: Seq<u8>, sorted: Seq<RawEventV>, m: int)
    requires
        raw_event_names_wf(sorted),
        20 + 40 * sorted.len() <= b.len(),
        forall|i: int|
            0 <= i < sorted.len() ==> b.subrange(20 + 40 * i, 20 + 40 * (i + 1))
                == raw_event_bytes(#[trigger] sorted[i]),
        0 <= m <= sorted.len(),
    ensures
        crate::decode::spec_read_raw_events(b, m) == Ok::<
            Seq<RawEventV>,
            crate::errors::ZevParseError,
        >(sorted.take(m)),
    decreases m,
{
    if m == 0 {
        assert(sorted.take(0) =~= Seq::<RawEventV>::empty());
    } else {
        lemma_read_event_table_aux(b, sorted, m - 1);
        let i = m - 1;
        assert(name_wf(sorted[i].name, 32));
        lemma_raw_event_roundtrip(b, 20 + 40 * i, sorted[i]);
        assert(sorted.take(m) =~= sorted.take(m - 1).push(sorted[i]));
    }
}

/// The on-disk event table round-trips: re-reading every event record
/// of an encoded buffer gives back exactly the construction-order record
/// list re-sorted by name.  This is the table the decoder re-sorts by
/// actor-range start to recover construction order.
#[verifier::rlimit(100)]
#[verifier::spinoff_prover]
pub proof fn lemma_event_table_roundtrip(evs: Seq<EventV>)
    requires
        graph_encodable(evs),
        forall|i: int| 0 <= i < evs.len() ==> name_wf((#[trigger] evs[i]).name, 32),
    ensures
        crate::decode::spec_read_raw_events(spec_write_bytes(evs), evs.len() as int) == Ok::<
            Seq<RawEventV>,
            crate::errors::ZevParseError,
        >(sort_events_by_name(raw_events_of(evs, evs.len() as int))),
{
    let n = evs.len() as int;
    let swb = spec_write_bytes(evs);
    let sorted = sort_events_by_name(raw_events_of(evs, n));
    let etab = event_table_bytes(evs);
    lemma_raw_events_of_len(evs, n);
    lemma_sort_by_name_len(raw_events_of(evs, n));
    lemma_raw_events_of_fit(evs, n);
    lemma_sort_by_name_fit(raw_events_of(evs, n));
    lemma_raw_events_of_wf(evs, n);
    lemma_sort_by_name_wf(raw_events_of(evs, n));
    lemma_count_consistency(evs);
    crate::encode::lemma_tally_events_nonneg(evs);
    lemma_raw_event_rows_len(sorted, n);
    assert forall|i: int| 0 <= i < sorted.len() implies swb.subrange(20 + 40 * i, 20 + 40 * (i + 1))
        == raw_event_bytes(#[trigger] sorted[i]) by {
        lemma_raw_event_rows_index(sorted, n, i);
        assert(swb.subrange(20 + 40 * i, 20 + 40 * (i + 1)) =~= etab.subrange(
            40 * i,
            40 * (i + 1),
        ));
    }
    lemma_read_event_table_aux(swb, sorted, n);
    assert(sorted.take(n) =~= sorted);
}

/// Keys never decrease along the list.
pub open spec fn aidx_sorted(s: Seq<RawEventV>) -> bool {
    forall|i: int, j: int|
        0 <= i < j < s.len() ==> (#[trigger] s[i]).actorindex <= (#[trigger] s[j]).actorindex
}

/// Keys strictly increase along the list.
pub open spec fn aidx_strict(s: Seq<RawEventV>) -> bool {
    forall|i: int, j: int|
        0 <= i < j < s.len() ==> (#[trigger] s[i]).actorindex < (#[trigger] s[j]).actorindex
}

proof fn lemma_insert_by_aidx_props(s: Seq<RawEventV>, e: RawEventV)
    requires
        aidx_sorted(s),
    ensures
        aidx_sorted(crate::decode::insert_by_aidx(s, e)),
        crate::decode::insert_by_aidx(s, e).to_multiset() == s.to_multiset().insert(e),
        crate::decode::insert_by_aidx(s, e).len() == s.len() + 1,
    decreases s.len(),
{
    broadcast use vstd::seq_lib::group_to_multiset_ensures;

    let r = crate::decode::insert_by_aidx(s, e);
    if s.len() == 0 {
        assert(r =~= Seq::<RawEventV>::empty().push(e));
        assert(r.to_multiset() =~= s.to_multiset().insert(e));
    } else if s.last().actorindex <= e.actorindex {
        assert(r == s.push(e));
        assert forall|i: int, j: int| 0 <= i < j < r.len() implies (#[trigger] r[i]).actorindex
            <= (#[trigger] r[j]).actorindex by {
            if j == s.len() as int {
                if i < s.len() - 1 {
                    assert(s[i].actorindex <= s[s.len() - 1].actorindex);
                }
            }
        }
    } else {
        assert(aidx_sorted(s.drop_last()));
        lemma_insert_by_aidx_props(s.drop_last(), e);
        let inner = crate::decode::insert_by_aidx(s.drop_last(), e);
        assert(r == inner.push(s.last()));
        assert(s.drop_last().push(s.last()) =~= s);
        assert(r.to_multiset() =~= s.to_multiset().insert(e));
        assert forall|i: int, j: int| 0 <= i < j < r.len() implies (#[trigger] r[i]).actorindex
            <= (#[trigger] r[j]).actorindex by {
            if j == r.len() - 1 {
                assert(inner.contains(inner[i]));
                assert(inner.to_multiset().count(inner[i]) > 0);
                if inner[i] == e {
                    assert(r[i].actorindex <= r[j].actorindex);
                } else {
                    assert(s.drop_last().to_multiset().count(inner[i]) > 0);
                    assert(s.drop_last().contains(inner[i]));
                    let m = choose|m: int|
                        0 <= m < s.drop_last().len() && s.drop_last()[m] == inner[i];
                    assert(s[m] == inner[i]);
                    if m < s.len() - 1 {
                        assert(s[m].actorindex <= s[s.len() - 1].actorindex);
                    }
                }
            }
        }
    }
}

proof fn lemma_sort_by_aidx_props(s: Seq<RawEventV>)
    ensures
        aidx_sorted(crate::decode::sort_events_by_aidx(s)),
        crate::decode::sort_events_by_aidx(s).to_multiset() == s.to_multiset(),
    decreases s.len(),
{
    broadcast use vstd::seq_lib::group_to_multiset_ensures;

    if s.len() > 0 {
        lemma_sort_by_aidx_props(s.drop_last());
        lemma_insert_by_aidx_props(crate::decode::sort_events_by_aidx(s.drop_last()), s.last());
        assert(s.drop_last().push(s.last()) =~= s);
        assert(crate::decode::sort_events_by_aidx(s).to_multiset() =~= s.to_multiset());
    }
}

proof fn lemma_insert_by_name_multiset(s: Seq<RawEventV>, e: RawEventV)
    ensures
        crate::encode::insert_by_name(s, e).to_multiset() == s.to_multiset().insert(e),
    decreases s.len(),
{
    broadcast use vstd::seq_lib::group_to_multiset_ensures;

    let r = crate::encode::insert_by_name(s, e);
    if s.len() == 0 {
        assert(r =~= Seq::<RawEventV>::empty().push(e));
        assert(r.to_multiset() =~= s.to_multiset().insert(e));
    } else if crate::encode::nin_cmp(s.last().name, e.name) <= 0 {
    } else {
        lemma_insert_by_name_multiset(s.drop_last(), e);
        assert(s.drop_last().push(s.last()) =~= s);
        assert(r.to_multiset() =~= s.to_multiset().insert(e));
    }
}

proof fn lemma_sort_by_name_multiset(s: Seq<RawEventV>)
    ensures
        sort_events_by_name(s).to_multiset() == s.to_multiset(),
    decreases s.len(),
{
    broadcast use vstd::seq_lib::group_to_multiset_ensures;

    if s.len() > 0 {
        lemma_sort_by_name_multiset(s.drop_last());
        lemma_insert_by_name_multiset(sort_events_by_name(s.drop_last()), s.last());
        assert(s.drop_last().push(s.last()) =~= s);
        assert(sort_events_by_name(s).to_multiset() =~= s.to_multiset());
    }
}

/// A list sorted by key and a strictly key-sorted list with the same
/// contents are the same list.
proof fn lemma_sorted_strict_unique(s: Seq<RawEventV>, t: Seq<RawEventV>)
    requires
        aidx_sorted(s),
        aidx_strict(t),
        s.to_multiset() == t.to_multiset(),
    ensures
        s == t,
    decreases s.len(),
{
    broadcast use vstd::seq_lib::group_to_multiset_ensures;

    s.to_multiset_ensures();
    t.to_multiset_ensures();
    assert(s.len() == s.to_multiset().len());
    assert(t.len() == t.to_multiset().len());
    assert(s.len() == t.len());
    if s.len() == 0 {
        assert(s =~= t);
    } else {
        assert(s.contains(s.last()));
        assert(t.to_multiset().count(s.last()) > 0);
        assert(t.contains(s.last()));
        let i = choose|i: int| 0 <= i < t.len() && t[i] == s.last();
        assert(t.contains(t.last()));
        assert(s.to_multiset().count(t.last()) > 0);
        assert(s.contains(t.last()));
        let m = choose|m: int| 0 <= m < s.len() && s[m] == t.last();
        if m < s.len() - 1 {
            assert(s[m].actorindex <= s[s.len() - 1].actorindex);
        }
        if i < t.len() - 1 {
            assert(t[i].actorindex < t[t.len() - 1].actorindex);
        }
        assert(s.last().actorindex == t.last().actorindex);
        assert(i == t.len() - 1) by {
            if i < t.len() - 1 {
                assert(t[i].actorindex < t.last().actorindex);
            }
        }
        assert(s.last() == t.last());
        assert(s.remove(s.len() - 1) =~= s.drop_last());
        assert(t.remove(t.len() - 1) =~= t.drop_last());
        assert(s.drop_last().to_multiset() =~= s.to_multiset().remove(s.last()));
        assert(t.drop_last().to_multiset() =~= t.to_multiset().remove(t.last()));
        assert(aidx_sorted(s.drop_last()));
        assert(aidx_strict(t.drop_last()));
        lemma_sorted_strict_unique(s.drop_last(), t.drop_last());
        assert forall|q: int| 0 <= q < s.len() implies s[q] == t[q] by {
            if q < s.len() - 1 {
                assert(s[q] == s.drop_last()[q]);
                assert(t[q] == t.drop_last()[q]);
                assert(s.drop_last()[q] == t.drop_last()[q]);
            } else {
                assert(s[q] == s.last());
                assert(t[q] == t.last());
            }
        }
        assert(s =~= t);
    }
}

proof fn lemma_raw_events_of_index(evs: Seq<EventV>, n: int, i: int)
    requires
        0 <= i < n <= evs.len(),
    ensures
        raw_events_of(evs, n)[i] == crate::encode::raw_event_of(
            evs[i],
            tally_events(evs.take(i)).actors,
        ),
    decreases n,
{
    lemma_raw_events_of_len(evs, n - 1);
    if i < n - 1 {
        lemma_raw_events_of_index(evs, n - 1, i);
    }
}

proof fn lemma_raw_events_of_strict(evs: Seq<EventV>, n: int)
    requires
        graph_encodable(evs),
        forall|i: int| 0 <= i < evs.len() ==> (#[trigger] evs[i]).actors.len() >= 1,
        0 <= n <= evs.len(),
    ensures
        aidx_strict(raw_events_of(evs, n)),
{
    let raws = raw_events_of(evs, n);
    lemma_raw_events_of_len(evs, n);
    assert forall|i: int, j: int| 0 <= i < j < raws.len() implies (#[trigger] raws[i]).actorindex
        < (#[trigger] raws[j]).actorindex by {
        lemma_raw_events_of_index(evs, n, i);
        lemma_raw_events_of_index(evs, n, j);
        lemma_tally_events_snoc(evs, i);
        lemma_tally_actors_count(evs[i].actors);
        assert(tally_events(evs.take(i + 1)).actors >= tally_events(evs.take(i)).actors + 1);
        assert(evs.take(j).take(i + 1) =~= evs.take(i + 1));
        crate::encode::lemma_tally_events_prefix(evs.take(j), i + 1);
        crate::encode::lemma_tally_events_prefix(evs, j);
        crate::encode::lemma_tally_events_nonneg(evs.take(i));
        assert(tally_events(evs.take(i)).actors < tally_events(evs.take(j)).actors);
        assert(tally_events(evs.take(j)).actors <= tally_events(evs).actors <= 0xFFFF);
    }
}

/// The dual ordering discipline undoes itself: the decoder's re-sort by
/// actor-range start recovers the construction order from the encoder's
/// name-sorted event table, whenever every event owns at least one
/// actor (events without actors share their range start with a
/// neighbour, and the re-sort then keeps them in name order instead).
pub proof fn lemma_resort_recovers_construction_order(evs: Seq<EventV>)
    requires
        graph_encodable(evs),
        forall|i: int| 0 <= i < evs.len() ==> (#[trigger] evs[i]).actors.len() >= 1,
    ensures
        crate::decode::sort_events_by_aidx(
            sort_events_by_name(raw_events_of(evs, evs.len() as int)),
        ) == raw_events_of(evs, evs.len() as int),
{
    let n = evs.len() as int;
    let raws = raw_events_of(evs, n);
    lemma_raw_events_of_strict(evs, n);
    lemma_sort_by_name_multiset(raws);
    lemma_sort_by_aidx_props(sort_events_by_name(raws));
    lemma_sorted_strict_unique(
        crate::decode::sort_events_by_aidx(sort_events_by_name(raws)),
        raws,
    );
}

/// A fixed-width name field fully occupied by nonzero ASCII bytes has
/// no terminator, and decodes to the whole field.
pub proof fn lemma_unterminated_field_is_whole(field: Seq<u8>)
    requires
        forall|i: int| 0 <= i < field.len() ==> 0 < #[trigger] field[i] < 128,
    ensures
        crate::bytes::field_ok(field),
        crate::bytes::field_str(field) == field,
{
    crate::bytes::lemma_first_zero_is(field, 0, field.len() as int);
    assert(crate::bytes::field_str(field) =~= field);
}

/// The two orderings compose: reading the encoded buffer's name-sorted
/// event table back and re-sorting it by actor-range start — exactly
/// what the decoder does first — recovers the construction-order record
/// list, whenever every name is well formed and every event owns at
/// least one actor.
pub proof fn lemma_event_order_recovered(evs: Seq<EventV>)
    requires
        graph_encodable(evs),
        forall|i: int| 0 <= i < evs.len() ==> name_wf((#[trigger] evs[i]).name, 32),
        forall|i: int| 0 <= i < evs.len() ==> (#[trigger] evs[i]).actors.len() >= 1,
    ensures
        ({
            let table = crate::decode::spec_read_raw_events(
                spec_write_bytes(evs),
                evs.len() as int,
            );
            &&& table is Ok
            &&& crate::decode::sort_events_by_aidx(table->Ok_0) == raw_events_of(
                evs,
                evs.len() as int,
            )
        }),
{
    lemma_event_table_roundtrip(evs);
    lemma_resort_recovers_construction_order(evs);
}

proof fn lemma_actor_rows_index(acts: Seq<ActorV>, sbase: int, n: int, j: int)
    requires
        forall|q: int| 0 <= q < acts.len() ==> actor_encodable(#[trigger] acts[q]),
        0 <= j < n <= acts.len(),
    ensures
        actor_rows(acts, sbase, n).subrange(
            (RawActor::SIZE as int) * j,
            (RawActor::SIZE as int) * (j + 1),
        ) == raw_actor_bytes(
            crate::encode::raw_actor_of(acts[j], sbase + tally_actors(acts.take(j)).steps),
        ),
    decreases n,
{
    lemma_actor_rows_len(acts, sbase, n - 1);
    assert(actor_encodable(acts[n - 1]));
    if j == n - 1 {
        assert(actor_rows(acts, sbase, n).subrange(40 * j, 40 * (j + 1)) =~= raw_actor_bytes(
            crate::encode::raw_actor_of(acts[j], sbase + tally_actors(acts.take(j)).steps),
        ));
    } else {
        lemma_actor_rows_index(acts, sbase, n - 1, j);
        assert(actor_rows(acts, sbase, n).subrange(40 * j, 40 * (j + 1)) =~= actor_rows(
            acts,
            sbase,
            n - 1,
        ).subrange(40 * j, 40 * (j + 1)));
    }
}

proof fn lemma_actor_table_region(evs: Seq<EventV>, n: int, i: int)
    requires
        forall|q: int| 0 <= q < evs.len() ==> event_encodable(#[trigger] evs[q]),
        0 <= i < n <= evs.len(),
    ensures
        actor_table(evs, n).subrange(
            (RawActor::SIZE as int) * tally_events(evs.take(i)).actors,
            (RawActor::SIZE as int) * (tally_events(evs.take(i)).actors + evs[i].actors.len()),
        ) == actor_rows(evs[i].actors, tally_events(evs.take(i)).steps, evs[i].actors.len() as int),
    decreases n,
{
    let ab = tally_events(evs.take(i)).actors;
    let cnt = evs[i].actors.len() as int;
    lemma_actor_table_len(evs, n - 1);
    assert(event_encodable(evs[n - 1]));
    lemma_actor_rows_len(
        evs[n - 1].actors,
        tally_events(evs.take(n - 1)).steps,
        evs[n - 1].actors.len() as int,
    );
    if i == n - 1 {
        lemma_tally_events_snoc(evs, n - 1);
        lemma_tally_actors_count(evs[i].actors);
        assert(actor_table(evs, n).subrange(40 * ab, 40 * (ab + cnt)) =~= actor_rows(
            evs[i].actors,
            tally_events(evs.take(i)).steps,
            cnt,
        ));
    } else {
        lemma_actor_table_region(evs, n - 1, i);
        lemma_tally_events_snoc(evs, i);
        lemma_tally_actors_count(evs[i].actors);
        assert(evs.take(n - 1).take(i + 1) =~= evs.take(i + 1));
        crate::encode::lemma_tally_events_prefix(evs.take(n - 1), i + 1);
        crate::encode::lemma_tally_events_nonneg(evs.take(i));
        assert(ab + cnt <= tally_events(evs.take(n - 1)).actors);
        assert(actor_table(evs, n).subrange(40 * ab, 40 * (ab + cnt)) =~= actor_table(
            evs,
            n - 1,
        ).subrange(40 * ab, 40 * (ab + cnt)));
    }
}

/// Every name of the event's actors is well formed for its field.
pub open spec fn actor_names_wf(e: EventV) -> bool {
    forall|j: int| 0 <= j < e.actors.len() ==> name_wf((#[trigger] e.actors[j]).name, 32)
}

/// Every actor record of an encoded buffer reads back exactly: the
/// record of actor `j` of event `i` sits at the global actor index the
/// construction order dictates and carries that actor's name, flags,
/// and step range.
#[verifier::rlimit(100)]
#[verifier::spinoff_prover]
pub proof fn lemma_actor_records_roundtrip(evs: Seq<EventV>, i: int, j: int)
    requires
        graph_encodable(evs),
        forall|q: int| 0 <= q < evs.len() ==> actor_names_wf(#[trigger] evs[q]),
        0 <= i < evs.len(),
        0 <= j < evs[i].actors.len(),
    ensures
        spec_read_raw_actor(
            spec_write_bytes(evs),
            crate::layout::actor_off(header_of(evs)) + (tally_events(evs.take(i)).actors + j)
                * (RawActor::SIZE as int),
        ) == Ok::<RawActorV, crate::errors::ZevParseError>(
            crate::encode::raw_actor_of(
                evs[i].actors[j],
                tally_events(evs.take(i)).steps + tally_actors(evs[i].actors.take(j)).steps,
            ),
        ),
{
    let n = evs.len() as int;
    let swb = spec_write_bytes(evs);
    let h = header_of(evs);
    let atab = actor_table(evs, n);
    let ab = tally_events(evs.take(i)).actors;
    let cnt = evs[i].actors.len() as int;
    let ga = ab + j;
    lemma_count_consistency(evs);
    crate::encode::lemma_tally_events_nonneg(evs.take(i));
    crate::encode::lemma_tally_events_prefix(evs, i);
    lemma_tally_events_snoc(evs, i);
    crate::encode::lemma_tally_events_prefix(evs, i + 1);
    lemma_tally_actors_count(evs[i].actors);
    lemma_raw_events_of_len(evs, n);
    lemma_sort_by_name_len(raw_events_of(evs, n));
    lemma_raw_events_of_fit(evs, n);
    lemma_sort_by_name_fit(raw_events_of(evs, n));
    lemma_raw_event_rows_len(sort_events_by_name(raw_events_of(evs, n)), n);
    lemma_actor_table_len(evs, n);
    assert(evs.take(n) =~= evs);
    lemma_actor_table_region(evs, n, i);
    lemma_actor_rows_index(evs[i].actors, tally_events(evs.take(i)).steps, cnt, j);
    let apos = crate::layout::actor_off(h) + 40 * ga;
    assert(swb.subrange(apos, apos + 40) =~= atab.subrange(40 * ga, 40 * (ga + 1)));
    assert(atab.subrange(40 * ga, 40 * (ga + 1)) =~= atab.subrange(40 * ab, 40 * (ab + cnt))
        .subrange(40 * j, 40 * (j + 1)));
    assert(name_wf(evs[i].actors[j].name, 32));
    lemma_raw_actor_roundtrip(
        swb,
        apos,
        crate::encode::raw_actor_of(
            evs[i].actors[j],
            tally_events(evs.take(i)).steps + tally_actors(evs[i].actors.take(j)).steps,
        ),
    );
}

proof fn lemma_step2_rows_steps_index(ss: Seq<StepV>, sbase: int, dbase: int, n: int, k: int)
    requires
        forall|q: int| 0 <= q < ss.len() ==> step_encodable(#[trigger] ss[q]),
        0 <= k < n <= ss.len(),
    ensures
        step2_rows_steps(ss, sbase, dbase, n).subrange(
            (RawStep2::SIZE as int) * k,
            (RawStep2::SIZE as int) * (k + 1),
        ) == raw_step2_bytes(
            crate::encode::raw_step2_of(
                ss[k],
                sbase + k,
                dbase + tally_steps(ss.take(k)).datadefs,
            ),
        ),
    decreases n,
{
    lemma_step2_rows_steps_len(ss, sbase, dbase, n - 1);
    assert(step_encodable(ss[n - 1]));
    if k == n - 1 {
        assert(step2_rows_steps(ss, sbase, dbase, n).subrange(12 * k, 12 * (k + 1))
            =~= raw_step2_bytes(
            crate::encode::raw_step2_of(ss[k], sbase + k, dbase + tally_steps(ss.take(k)).datadefs),
        ));
    } else {
        lemma_step2_rows_steps_index(ss, sbase, dbase, n - 1, k);
        assert(step2_rows_steps(ss, sbase, dbase, n).subrange(12 * k, 12 * (k + 1))
            =~= step2_rows_steps(ss, sbase, dbase, n - 1).subrange(12 * k, 12 * (k + 1)));
    }
}

proof fn lemma_step2_rows_actors_region(acts: Seq<ActorV>, sbase: int, dbase: int, n: int, j: int)
    requires
        forall|q: int| 0 <= q < acts.len() ==> actor_encodable(#[trigger] acts[q]),
        0 <= j < n <= acts.len(),
    ensures
        step2_rows_actors(acts, sbase, dbase, n).subrange(
            (RawStep2::SIZE as int) * tally_actors(acts.take(j)).steps,
            (RawStep2::SIZE as int) * (tally_actors(acts.take(j)).steps + acts[j].steps.len()),
        ) == step2_rows_steps(
            acts[j].steps,
            sbase + tally_actors(acts.take(j)).steps,
            dbase + tally_actors(acts.take(j)).datadefs,
            acts[j].steps.len() as int,
        ),
    decreases n,
{
    let sb = tally_actors(acts.take(j)).steps;
    let cnt = acts[j].steps.len() as int;
    lemma_step2_rows_actors_len(acts, sbase, dbase, n - 1);
    assert(actor_encodable(acts[n - 1]));
    lemma_step2_rows_steps_len(
        acts[n - 1].steps,
        sbase + tally_actors(acts.take(n - 1)).steps,
        dbase + tally_actors(acts.take(n - 1)).datadefs,
        acts[n - 1].steps.len() as int,
    );
    if j == n - 1 {
        lemma_tally_actors_snoc(acts, n - 1);
        lemma_tally_steps_count(acts[j].steps);
        assert(step2_rows_actors(acts, sbase, dbase, n).subrange(12 * sb, 12 * (sb + cnt))
            =~= step2_rows_steps(
            acts[j].steps,
            sbase + sb,
            dbase + tally_actors(acts.take(j)).datadefs,
            cnt,
        ));
    } else {
        lemma_step2_rows_actors_region(acts, sbase, dbase, n - 1, j);
        lemma_tally_actors_snoc(acts, j);
        lemma_tally_steps_count(acts[j].steps);
        assert(acts.take(n - 1).take(j + 1) =~= acts.take(j + 1));
        crate::encode::lemma_tally_actors_prefix(acts.take(n - 1), j + 1);
        crate::encode::lemma_tally_actors_nonneg(acts.take(j));
        assert(sb + cnt <= tally_actors(acts.take(n - 1)).steps);
        assert(step2_rows_actors(acts, sbase, dbase, n).subrange(12 * sb, 12 * (sb + cnt))
            =~= step2_rows_actors(acts, sbase, dbase, n - 1).subrange(12 * sb, 12 * (sb + cnt)));
    }
}

proof fn lemma_step2_table_region(evs: Seq<EventV>, n: int, i: int)
    requires
        forall|q: int| 0 <= q < evs.len() ==> event_encodable(#[trigger] evs[q]),
        0 <= i < n <= evs.len(),
    ensures
        step2_table(evs, n).subrange(
            (RawStep2::SIZE as int) * tally_events(evs.take(i)).steps,
            (RawStep2::SIZE as int) * (tally_events(evs.take(i)).steps + tally_actors(
                evs[i].actors,
            ).steps),
        ) == step2_rows_actors(
            evs[i].actors,
            tally_events(evs.take(i)).steps,
            tally_events(evs.take(i)).datadefs,
            evs[i].actors.len() as int,
        ),
    decreases n,
{
    let sb = tally_events(evs.take(i)).steps;
    let cnt = tally_actors(evs[i].actors).steps;
    crate::encode::lemma_tally_actors_nonneg(evs[i].actors);
    crate::encode::lemma_tally_events_nonneg(evs.take(i));
    lemma_step2_table_len(evs, n - 1);
    assert(event_encodable(evs[n - 1]));
    lemma_step2_rows_actors_len(
        evs[n - 1].actors,
        tally_events(evs.take(n - 1)).steps,
        tally_events(evs.take(n - 1)).datadefs,
        evs[n - 1].actors.len() as int,
    );
    assert(evs[n - 1].actors.take(evs[n - 1].actors.len() as int) =~= evs[n - 1].actors);
    assert(evs[i].actors.take(evs[i].actors.len() as int) =~= evs[i].actors);
    if i == n - 1 {
        lemma_tally_events_snoc(evs, n - 1);
        assert(step2_table(evs, n).subrange(12 * sb, 12 * (sb + cnt)) =~= step2_rows_actors(
            evs[i].actors,
            sb,
            tally_events(evs.take(i)).datadefs,
            evs[i].actors.len() as int,
        ));
    } else {
        lemma_step2_table_region(evs, n - 1, i);
        lemma_tally_events_snoc(evs, i);
        assert(evs.take(n - 1).take(i + 1) =~= evs.take(i + 1));
        crate::encode::lemma_tally_events_prefix(evs.take(n - 1), i + 1);
        crate::encode::lemma_tally_events_nonneg(evs.take(i));
        assert(sb + cnt <= tally_events(evs.take(n - 1)).steps);
        let t_pre = step2_table(evs, n - 1);
        assert(t_pre.len() == 12 * tally_events(evs.take(n - 1)).steps);
        let rows_last = step2_rows_actors(
            evs[n - 1].actors,
            tally_events(evs.take(n - 1)).steps,
            tally_events(evs.take(n - 1)).datadefs,
            evs[n - 1].actors.len() as int,
        );
        assert(step2_table(evs, n) == t_pre.add(rows_last));
        assert forall|q: int| 12 * sb <= q < 12 * (sb + cnt) implies step2_table(evs, n)[q]
            == t_pre[q] by {
            assert(q < t_pre.len());
            assert(t_pre.add(rows_last)[q] == t_pre[q]);
            assert(step2_table(evs, n)[q] == t_pre.add(rows_last)[q]);
        }
        assert(step2_table(evs, n).subrange(12 * sb, 12 * (sb + cnt)) =~= t_pre.subrange(
            12 * sb,
            12 * (sb + cnt),
        ));
    }
}

/// Every short name of the event's steps is well formed for its field.
pub open spec fn step_names_wf(e: EventV) -> bool {
    forall|j: int, k: int|
        0 <= j < e.actors.len() && 0 <= k < e.actors[j].steps.len() ==> name_wf(
            (#[trigger] e.actors[j].steps[k]).name,
            4,
        )
}

/// Every step-part-two record of an encoded buffer reads back exactly:
/// the record of step `k` of actor `j` of event `i` sits at the global
/// step index the construction order dictates and carries that step's
/// short name, flag, and data-definition range.
#[verifier::rlimit(100)]
#[verifier::spinoff_prover]
pub proof fn lemma_step2_records_roundtrip(evs: Seq<EventV>, i: int, j: int, k: int)
    requires
        graph_encodable(evs),
        forall|q: int| 0 <= q < evs.len() ==> step_names_wf(#[trigger] evs[q]),
        0 <= i < evs.len(),
        0 <= j < evs[i].actors.len(),
        0 <= k < evs[i].actors[j].steps.len(),
    ensures
        ({
            let sb = tally_events(evs.take(i)).steps;
            let asb = tally_actors(evs[i].actors.take(j)).steps;
            let gs = sb + asb + k;
            spec_read_raw_step2(
                spec_write_bytes(evs),
                crate::layout::step2_off(header_of(evs)) + gs * (RawStep2::SIZE as int),
            ) == Ok::<RawStep2V, crate::errors::ZevParseError>(
                crate::encode::raw_step2_of(
                    evs[i].actors[j].steps[k],
                    gs,
                    tally_events(evs.take(i)).datadefs + tally_actors(
                        evs[i].actors.take(j),
                    ).datadefs + tally_steps(evs[i].actors[j].steps.take(k)).datadefs,
                ),
            )
        }),
{
    let n = evs.len() as int;
    let swb = spec_write_bytes(evs);
    let h = header_of(evs);
    let s2tab = step2_table(evs, n);
    let sb = tally_events(evs.take(i)).steps;
    let db = tally_events(evs.take(i)).datadefs;
    let asb = tally_actors(evs[i].actors.take(j)).steps;
    let adb = tally_actors(evs[i].actors.take(j)).datadefs;
    let gs = sb + asb + k;
    lemma_count_consistency(evs);
    crate::encode::lemma_tally_events_nonneg(evs.take(i));
    crate::encode::lemma_tally_events_prefix(evs, i);
    lemma_tally_events_snoc(evs, i);
    crate::encode::lemma_tally_events_prefix(evs, i + 1);
    lemma_tally_actors_snoc(evs[i].actors, j);
    crate::encode::lemma_tally_actors_prefix(evs[i].actors, j + 1);
    crate::encode::lemma_tally_actors_nonneg(evs[i].actors.take(j));
    lemma_tally_steps_count(evs[i].actors[j].steps);
    lemma_tally_steps_nonneg(evs[i].actors[j].steps);
    assert(evs.take(n) =~= evs);
    lemma_raw_events_of_len(evs, n);
    lemma_sort_by_name_len(raw_events_of(evs, n));
    lemma_raw_events_of_fit(evs, n);
    lemma_sort_by_name_fit(raw_events_of(evs, n));
    lemma_raw_event_rows_len(sort_events_by_name(raw_events_of(evs, n)), n);
    lemma_actor_table_len(evs, n);
    lemma_step1_table_len(evs, n);
    lemma_apply_patches_len(step1_table(evs, n), evs, n, tally_events(evs).steps);
    lemma_step2_table_len(evs, n);
    lemma_step2_table_region(evs, n, i);
    lemma_step2_rows_actors_region(
        evs[i].actors,
        sb,
        db,
        evs[i].actors.len() as int,
        j,
    );
    lemma_step2_rows_steps_index(
        evs[i].actors[j].steps,
        sb + asb,
        db + adb,
        evs[i].actors[j].steps.len() as int,
        k,
    );
    let spos = crate::layout::step2_off(h) + 12 * gs;
    assert(swb.subrange(spos, spos + 12) =~= s2tab.subrange(12 * gs, 12 * (gs + 1)));
    assert(s2tab.subrange(12 * gs, 12 * (gs + 1)) =~= s2tab.subrange(
        12 * sb,
        12 * (sb + tally_actors(evs[i].actors).steps),
    ).subrange(12 * (asb + k), 12 * (asb + k + 1)));
    assert(step2_rows_actors(
        evs[i].actors,
        sb,
        db,
        evs[i].actors.len() as int,
    ).subrange(12 * (asb + k), 12 * (asb + k + 1)) =~= step2_rows_actors(
        evs[i].actors,
        sb,
        db,
        evs[i].actors.len() as int,
    ).subrange(12 * asb, 12 * (asb + evs[i].actors[j].steps.len())).subrange(
        12 * k,
        12 * (k + 1),
    ));
    assert(name_wf(evs[i].actors[j].steps[k].name, 4));
    lemma_raw_step2_roundtrip(
        swb,
        spos,
        crate::encode::raw_step2_of(
            evs[i].actors[j].steps[k],
            gs,
            db + adb + tally_steps(evs[i].actors[j].steps.take(k)).datadefs,
        ),
    );
}

/// A coordinate pair that names an existing step of the actor list.
pub open spec fn coord_valid(acts: Seq<ActorV>, r: crate::model::StepRef) -> bool {
    0 <= r.actor_idx < acts.len() && 0 <= r.step_idx < acts[r.actor_idx as int].steps.len()
}

/// Distinct coordinates have distinct global step indices: the flat
/// step table gives every step of the event its own row.
proof fn lemma_gs_of_ref_inj(
    acts: Seq<ActorV>,
    sbase: int,
    r1: crate::model::StepRef,
    r2: crate::model::StepRef,
)
    requires
        coord_valid(acts, r1),
        coord_valid(acts, r2),
        r1 != r2,
    ensures
        gs_of_ref(acts, sbase, r1) != gs_of_ref(acts, sbase, r2),
{
    let a1 = r1.actor_idx as int;
    let a2 = r2.actor_idx as int;
    if a1 == a2 {
    } else if a1 < a2 {
        lemma_tally_actors_snoc(acts, a1);
        lemma_tally_steps_count(acts[a1].steps);
        assert(acts.take(a2).take(a1 + 1) =~= acts.take(a1 + 1));
        crate::encode::lemma_tally_actors_prefix(acts.take(a2), a1 + 1);
    } else {
        lemma_tally_actors_snoc(acts, a2);
        lemma_tally_steps_count(acts[a2].steps);
        assert(acts.take(a1).take(a2 + 1) =~= acts.take(a2 + 1));
        crate::encode::lemma_tally_actors_prefix(acts.take(a1), a2 + 1);
    }
}

/// A patch pass of one event leaves the pointer field of a global step
/// index none of its edges wait at untouched.
proof fn lemma_event_patches_preserve(
    tbl: Seq<u8>,
    e: EventV,
    sbase: int,
    n: int,
    total: int,
    g: int,
)
    requires
        event_encodable(e),
        0 <= n <= e.wait_fors.len(),
        0 <= sbase,
        sbase + tally_actors(e.actors).steps <= total,
        tbl.len() == (RawStep1::SIZE as int) * total,
        0 <= g,
        (RawStep1::SIZE as int) * g + 18 <= tbl.len(),
        forall|m: int|
            0 <= m < n ==> gs_of_ref(e.actors, sbase, (#[trigger] e.wait_fors[m]).waiting) != g,
    ensures
        apply_event_patches(tbl, e, sbase, n).subrange(
            (RawStep1::SIZE as int) * g + 16,
            (RawStep1::SIZE as int) * g + 18,
        ) == tbl.subrange((RawStep1::SIZE as int) * g + 16, (RawStep1::SIZE as int) * g + 18),
        apply_event_patches(tbl, e, sbase, n).len() == tbl.len(),
    decreases n,
{
    lemma_apply_event_patches_len(tbl, e, sbase, n, total);
    if n > 0 {
        lemma_event_patches_preserve(tbl, e, sbase, n - 1, total, g);
        let t = apply_event_patches(tbl, e, sbase, n - 1);
        let w = e.wait_fors[n - 1];
        assert(e.edges_in_range());
        assert(e.has_coord(w.waiting.actor_idx as int, w.waiting.step_idx as int));
        let wa = w.waiting.actor_idx as int;
        lemma_tally_actors_snoc(e.actors, wa);
        crate::encode::lemma_tally_actors_prefix(e.actors, wa + 1);
        lemma_tally_steps_count(e.actors[wa].steps);
        lemma_tally_steps_nonneg(e.actors[wa].steps);
        crate::encode::lemma_tally_actors_nonneg(e.actors.take(wa));
        let gm = gs_of_ref(e.actors, sbase, w.waiting);
        assert(0 <= gm < total);
        assert(gm != g);
        crate::bytes::lemma_splice(
            t,
            gm * (RawStep1::SIZE as int) + 16,
            crate::bytes::u16_bytes(gs_of_ref(e.actors, sbase, w.waiting_on) as u16),
        );
        assert(apply_event_patches(tbl, e, sbase, n).subrange(28 * g + 16, 28 * g + 18)
            =~= t.subrange(28 * g + 16, 28 * g + 18));
    }
}

/// No two edges of the event share a waiting endpoint: each step has at
/// most one outgoing dependency.
pub open spec fn edges_unique(e: EventV) -> bool {
    forall|a: int, b: int|
        0 <= a < b < e.wait_fors.len() ==> (#[trigger] e.wait_fors[a]).waiting != (
        #[trigger] e.wait_fors[b]).waiting
}

/// After one event's patch pass, the pointer field of an edge's waiting
/// step holds the global index of the depended-upon step, provided no
/// later edge waits at the same step.
proof fn lemma_event_patches_value(
    tbl: Seq<u8>,
    e: EventV,
    sbase: int,
    n: int,
    total: int,
    widx: int,
)
    requires
        event_encodable(e),
        edges_unique(e),
        0 <= widx < n <= e.wait_fors.len(),
        0 <= sbase,
        sbase + tally_actors(e.actors).steps <= total,
        tbl.len() == (RawStep1::SIZE as int) * total,
    ensures
        ({
            let g = gs_of_ref(e.actors, sbase, e.wait_fors[widx].waiting);
            apply_event_patches(tbl, e, sbase, n).subrange(
                (RawStep1::SIZE as int) * g + 16,
                (RawStep1::SIZE as int) * g + 18,
            ) == crate::bytes::u16_bytes(
                gs_of_ref(e.actors, sbase, e.wait_fors[widx].waiting_on) as u16,
            )
        }),
    decreases n,
{
    lemma_apply_event_patches_len(tbl, e, sbase, n - 1, total);
    let w = e.wait_fors[widx];
    assert(e.edges_in_range());
    assert(e.has_coord(w.waiting.actor_idx as int, w.waiting.step_idx as int));
    let wa = w.waiting.actor_idx as int;
    lemma_tally_actors_snoc(e.actors, wa);
    crate::encode::lemma_tally_actors_prefix(e.actors, wa + 1);
    lemma_tally_steps_count(e.actors[wa].steps);
    lemma_tally_steps_nonneg(e.actors[wa].steps);
    crate::encode::lemma_tally_actors_nonneg(e.actors.take(wa));
    let g = gs_of_ref(e.actors, sbase, w.waiting);
    assert(0 <= g < total);
    let t = apply_event_patches(tbl, e, sbase, n - 1);
    if widx == n - 1 {
        crate::bytes::lemma_splice(
            t,
            g * (RawStep1::SIZE as int) + 16,
            crate::bytes::u16_bytes(gs_of_ref(e.actors, sbase, w.waiting_on) as u16),
        );
        assert(apply_event_patches(tbl, e, sbase, n).subrange(28 * g + 16, 28 * g + 18)
            =~= crate::bytes::u16_bytes(gs_of_ref(e.actors, sbase, w.waiting_on) as u16));
    } else {
        lemma_event_patches_value(tbl, e, sbase, n - 1, total, widx);
        let wl = e.wait_fors[n - 1];
        assert(e.has_coord(wl.waiting.actor_idx as int, wl.waiting.step_idx as int));
        assert(wl.waiting != w.waiting);
        lemma_gs_of_ref_inj(e.actors, sbase, wl.waiting, w.waiting);
        let wla = wl.waiting.actor_idx as int;
        lemma_tally_actors_snoc(e.actors, wla);
        crate::encode::lemma_tally_actors_prefix(e.actors, wla + 1);
        lemma_tally_steps_count(e.actors[wla].steps);
        lemma_tally_steps_nonneg(e.actors[wla].steps);
        crate::encode::lemma_tally_actors_nonneg(e.actors.take(wla));
        let gm = gs_of_ref(e.actors, sbase, wl.waiting);
        assert(0 <= gm < total);
        crate::bytes::lemma_splice(
            t,
            gm * (RawStep1::SIZE as int) + 16,
            crate::bytes::u16_bytes(gs_of_ref(e.actors, sbase, wl.waiting_on) as u16),
        );
        assert(apply_event_patches(tbl, e, sbase, n).subrange(28 * g + 16, 28 * g + 18)
            =~= t.subrange(28 * g + 16, 28 * g + 18));
    }
}

/// Later events patch only their own, later step rows.
proof fn lemma_apply_patches_value(
    tbl: Seq<u8>,
    evs: Seq<EventV>,
    n: int,
    total: int,
    i: int,
    widx: int,
)
    requires
        forall|q: int| 0 <= q < evs.len() ==> event_encodable(#[trigger] evs[q]),
        edges_unique(evs[i]),
        0 <= i < n <= evs.len(),
        0 <= widx < evs[i].wait_fors.len(),
        tally_events(evs).steps <= total,
        tbl.len() == (RawStep1::SIZE as int) * total,
    ensures
        ({
            let sb = tally_events(evs.take(i)).steps;
            let g = gs_of_ref(evs[i].actors, sb, evs[i].wait_fors[widx].waiting);
            apply_patches(tbl, evs, n).subrange(
                (RawStep1::SIZE as int) * g + 16,
                (RawStep1::SIZE as int) * g + 18,
            ) == crate::bytes::u16_bytes(
                gs_of_ref(evs[i].actors, sb, evs[i].wait_fors[widx].waiting_on) as u16,
            )
        }),
    decreases n,
{
    let sb = tally_events(evs.take(i)).steps;
    let g = gs_of_ref(evs[i].actors, sb, evs[i].wait_fors[widx].waiting);
    let w = evs[i].wait_fors[widx];
    assert(event_encodable(evs[i]));
    assert(evs[i].edges_in_range());
    assert(evs[i].has_coord(w.waiting.actor_idx as int, w.waiting.step_idx as int));
    let wa = w.waiting.actor_idx as int;
    lemma_tally_actors_snoc(evs[i].actors, wa);
    crate::encode::lemma_tally_actors_prefix(evs[i].actors, wa + 1);
    lemma_tally_steps_count(evs[i].actors[wa].steps);
    lemma_tally_steps_nonneg(evs[i].actors[wa].steps);
    crate::encode::lemma_tally_actors_nonneg(evs[i].actors.take(wa));
    crate::encode::lemma_tally_events_nonneg(evs.take(i));
    lemma_tally_events_snoc(evs, i);
    crate::encode::lemma_tally_events_prefix(evs, i + 1);
    assert(sb >= 0);
    assert(g < tally_events(evs.take(i + 1)).steps);
    lemma_apply_patches_len(tbl, evs, n - 1, total);
    let t = apply_patches(tbl, evs, n - 1);
    if i == n - 1 {
        crate::encode::lemma_tally_events_prefix(evs, n);
        assert(evs.take(n).take(i + 1) =~= evs.take(i + 1));
        lemma_event_patches_value(
            t,
            evs[i],
            sb,
            evs[i].wait_fors.len() as int,
            total,
            widx,
        );
    } else {
        lemma_apply_patches_value(tbl, evs, n - 1, total, i, widx);
        let sbl = tally_events(evs.take(n - 1)).steps;
        assert(evs.take(n - 1).take(i + 1) =~= evs.take(i + 1));
        crate::encode::lemma_tally_events_prefix(evs.take(n - 1), i + 1);
        assert(g < sbl);
        crate::encode::lemma_tally_events_prefix(evs, n - 1);
        assert(event_encodable(evs[n - 1]));
        assert forall|m: int|
            0 <= m < evs[n - 1].wait_fors.len() implies gs_of_ref(
            evs[n - 1].actors,
            sbl,
            (#[trigger] evs[n - 1].wait_fors[m]).waiting,
        ) != g by {
            let wm = evs[n - 1].wait_fors[m];
            assert(evs[n - 1].edges_in_range());
            assert(evs[n - 1].has_coord(wm.waiting.actor_idx as int, wm.waiting.step_idx as int));
            crate::encode::lemma_tally_actors_nonneg(
                evs[n - 1].actors.take(wm.waiting.actor_idx as int),
            );
            assert(gs_of_ref(evs[n - 1].actors, sbl, wm.waiting) >= sbl);
        }
        lemma_tally_events_snoc(evs, n - 1);
        crate::encode::lemma_tally_events_prefix(evs, n);
        lemma_event_patches_preserve(
            t,
            evs[n - 1],
            sbl,
            evs[n - 1].wait_fors.len() as int,
            total,
            g,
        );
    }
}

/// Deferred pointer patching lands exactly where it must: in the
/// finished step table of an encoded buffer, the wait-pointer field of
/// the row of an edge's waiting step holds the global index of the
/// depended-upon step, whenever each step has at most one outgoing
/// dependency.
#[verifier::rlimit(100)]
#[verifier::spinoff_prover]
pub proof fn lemma_patched_wait_pointer(evs: Seq<EventV>, i: int, widx: int)
    requires
        graph_encodable(evs),
        edges_unique(evs[i]),
        0 <= i < evs.len(),
        0 <= widx < evs[i].wait_fors.len(),
    ensures
        ({
            let sb = tally_events(evs.take(i)).steps;
            let g = gs_of_ref(evs[i].actors, sb, evs[i].wait_fors[widx].waiting);
            step1_section(evs).subrange(
                (RawStep1::SIZE as int) * g + 16,
                (RawStep1::SIZE as int) * g + 18,
            ) == crate::bytes::u16_bytes(
                gs_of_ref(evs[i].actors, sb, evs[i].wait_fors[widx].waiting_on) as u16,
            )
        }),
{
    let n = evs.len() as int;
    assert(evs.take(n) =~= evs);
    lemma_step1_table_len(evs, n);
    crate::encode::lemma_tally_events_nonneg(evs);
    lemma_apply_patches_value(
        step1_table(evs, n),
        evs,
        n,
        tally_events(evs).steps,
        i,
        widx,
    );
}

proof fn lemma_step1_rows_steps_index(ss: Seq<StepV>, ga: int, sbase: int, n: int, k: int)
    requires
        forall|q: int| 0 <= q < ss.len() ==> step_encodable(#[trigger] ss[q]),
        0 <= k < n <= ss.len(),
    ensures
        crate::encode::step1_rows_steps(ss, ga, sbase, n).subrange(
            (RawStep1::SIZE as int) * k,
            (RawStep1::SIZE as int) * (k + 1),
        ) == raw_step1_bytes(crate::encode::raw_step1_of(ss[k], ga, sbase + k)),
    decreases n,
{
    crate::encode::lemma_step1_rows_steps_len(ss, ga, sbase, n - 1);
    assert(step_encodable(ss[n - 1]));
    if k == n - 1 {
        assert(crate::encode::step1_rows_steps(ss, ga, sbase, n).subrange(28 * k, 28 * (k + 1))
            =~= raw_step1_bytes(crate::encode::raw_step1_of(ss[k], ga, sbase + k)));
    } else {
        lemma_step1_rows_steps_index(ss, ga, sbase, n - 1, k);
        assert(crate::encode::step1_rows_steps(ss, ga, sbase, n).subrange(28 * k, 28 * (k + 1))
            =~= crate::encode::step1_rows_steps(ss, ga, sbase, n - 1).subrange(
            28 * k,
            28 * (k + 1),
        ));
    }
}

proof fn lemma_step1_rows_actors_region(
    acts: Seq<ActorV>,
    abase: int,
    sbase: int,
    n: int,
    j: int,
)
    requires
        forall|q: int| 0 <= q < acts.len() ==> actor_encodable(#[trigger] acts[q]),
        0 <= j < n <= acts.len(),
    ensures
        crate::encode::step1_rows_actors(acts, abase, sbase, n).subrange(
            (RawStep1::SIZE as int) * tally_actors(acts.take(j)).steps,
            (RawStep1::SIZE as int) * (tally_actors(acts.take(j)).steps + acts[j].steps.len()),
        ) == crate::encode::step1_rows_steps(
            acts[j].steps,
            abase + j,
            sbase + tally_actors(acts.take(j)).steps,
            acts[j].steps.len() as int,
        ),
    decreases n,
{
    let sb = tally_actors(acts.take(j)).steps;
    let cnt = acts[j].steps.len() as int;
    crate::encode::lemma_tally_actors_nonneg(acts.take(j));
    crate::encode::lemma_step1_rows_actors_len(acts, abase, sbase, n - 1);
    assert(actor_encodable(acts[n - 1]));
    crate::encode::lemma_step1_rows_steps_len(
        acts[n - 1].steps,
        abase + (n - 1),
        sbase + tally_actors(acts.take(n - 1)).steps,
        acts[n - 1].steps.len() as int,
    );
    if j == n - 1 {
        lemma_tally_actors_snoc(acts, n - 1);
        lemma_tally_steps_count(acts[j].steps);
        assert(crate::encode::step1_rows_actors(acts, abase, sbase, n).subrange(
            28 * sb,
            28 * (sb + cnt),
        ) =~= crate::encode::step1_rows_steps(acts[j].steps, abase + j, sbase + sb, cnt));
    } else {
        lemma_step1_rows_actors_region(acts, abase, sbase, n - 1, j);
        lemma_tally_actors_snoc(acts, j);
        lemma_tally_steps_count(acts[j].steps);
        assert(acts.take(n - 1).take(j + 1) =~= acts.take(j + 1));
        crate::encode::lemma_tally_actors_prefix(acts.take(n - 1), j + 1);
        assert(sb + cnt <= tally_actors(acts.take(n - 1)).steps);
        let t_pre = crate::encode::step1_rows_actors(acts, abase, sbase, n - 1);
        assert(crate::encode::step1_rows_actors(acts, abase, sbase, n).subrange(
            28 * sb,
            28 * (sb + cnt),
        ) =~= t_pre.subrange(28 * sb, 28 * (sb + cnt)));
    }
}

proof fn lemma_step1_table_region(evs: Seq<EventV>, n: int, i: int)
    requires
        forall|q: int| 0 <= q < evs.len() ==> event_encodable(#[trigger] evs[q]),
        0 <= i < n <= evs.len(),
    ensures
        step1_table(evs, n).subrange(
            (RawStep1::SIZE as int) * tally_events(evs.take(i)).steps,
            (RawStep1::SIZE as int) * (tally_events(evs.take(i)).steps + tally_actors(
                evs[i].actors,
            ).steps),
        ) == crate::encode::step1_rows_actors(
            evs[i].actors,
            tally_events(evs.take(i)).actors,
            tally_events(evs.take(i)).steps,
            evs[i].actors.len() as int,
        ),
    decreases n,
{
    let sb = tally_events(evs.take(i)).steps;
    let cnt = tally_actors(evs[i].actors).steps;
    crate::encode::lemma_tally_actors_nonneg(evs[i].actors);
    crate::encode::lemma_tally_events_nonneg(evs.take(i));
    lemma_step1_table_len(evs, n - 1);
    assert(event_encodable(evs[n - 1]));
    crate::encode::lemma_step1_rows_actors_len(
        evs[n - 1].actors,
        tally_events(evs.take(n - 1)).actors,
        tally_events(evs.take(n - 1)).steps,
        evs[n - 1].actors.len() as int,
    );
    assert(evs[n - 1].actors.take(evs[n - 1].actors.len() as int) =~= evs[n - 1].actors);
    assert(evs[i].actors.take(evs[i].actors.len() as int) =~= evs[i].actors);
    if i == n - 1 {
        lemma_tally_events_snoc(evs, n - 1);
        assert(step1_table(evs, n).subrange(28 * sb, 28 * (sb + cnt))
            =~= crate::encode::step1_rows_actors(
            evs[i].actors,
            tally_events(evs.take(i)).actors,
            sb,
            evs[i].actors.len() as int,
        ));
    } else {
        lemma_step1_table_region(evs, n - 1, i);
        lemma_tally_events_snoc(evs, i);
        assert(evs.take(n - 1).take(i + 1) =~= evs.take(i + 1));
        crate::encode::lemma_tally_events_prefix(evs.take(n - 1), i + 1);
        assert(sb + cnt <= tally_events(evs.take(n - 1)).steps);
        let t_pre = step1_table(evs, n - 1);
        assert(step1_table(evs, n).subrange(28 * sb, 28 * (sb + cnt)) =~= t_pre.subrange(
            28 * sb,
            28 * (sb + cnt),
        ));
    }
}

/// A patch pass of one event leaves a whole step row untouched when
/// none of its edges waits at that row's global index.
proof fn lemma_event_patches_avoid_row(
    tbl: Seq<u8>,
    e: EventV,
    sbase: int,
    n: int,
    total: int,
    g: int,
)
    requires
        event_encodable(e),
        0 <= n <= e.wait_fors.len(),
        0 <= sbase,
        sbase + tally_actors(e.actors).steps <= total,
        tbl.len() == (RawStep1::SIZE as int) * total,
        0 <= g < total,
        forall|m: int|
            0 <= m < n ==> gs_of_ref(e.actors, sbase, (#[trigger] e.wait_fors[m]).waiting) != g,
    ensures
        apply_event_patches(tbl, e, sbase, n).subrange(
            (RawStep1::SIZE as int) * g,
            (RawStep1::SIZE as int) * (g + 1),
        ) == tbl.subrange((RawStep1::SIZE as int) * g, (RawStep1::SIZE as int) * (g + 1)),
        apply_event_patches(tbl, e, sbase, n).len() == tbl.len(),
    decreases n,
{
    lemma_apply_event_patches_len(tbl, e, sbase, n, total);
    if n > 0 {
        lemma_event_patches_avoid_row(tbl, e, sbase, n - 1, total, g);
        let t = apply_event_patches(tbl, e, sbase, n - 1);
        let w = e.wait_fors[n - 1];
        assert(e.edges_in_range());
        assert(e.has_coord(w.waiting.actor_idx as int, w.waiting.step_idx as int));
        let wa = w.waiting.actor_idx as int;
        lemma_tally_actors_snoc(e.actors, wa);
        crate::encode::lemma_tally_actors_prefix(e.actors, wa + 1);
        lemma_tally_steps_count(e.actors[wa].steps);
        lemma_tally_steps_nonneg(e.actors[wa].steps);
        crate::encode::lemma_tally_actors_nonneg(e.actors.take(wa));
        let gm = gs_of_ref(e.actors, sbase, w.waiting);
        assert(0 <= gm < total);
        assert(gm != g);
        crate::bytes::lemma_splice(
            t,
            gm * (RawStep1::SIZE as int) + 16,
            crate::bytes::u16_bytes(gs_of_ref(e.actors, sbase, w.waiting_on) as u16),
        );
        assert(apply_event_patches(tbl, e, sbase, n).subrange(28 * g, 28 * (g + 1))
            =~= t.subrange(28 * g, 28 * (g + 1)));
    }
}

/// No patch pass touches a step row that no edge of any event waits at.
proof fn lemma_apply_patches_avoid_row(
    tbl: Seq<u8>,
    evs: Seq<EventV>,
    n: int,
    total: int,
    i: int,
    g: int,
)
    requires
        forall|q: int| 0 <= q < evs.len() ==> event_encodable(#[trigger] evs[q]),
        0 <= i < evs.len(),
        0 <= n <= evs.len(),
        tally_events(evs).steps <= total,
        tbl.len() == (RawStep1::SIZE as int) * total,
        tally_events(evs.take(i)).steps <= g,
        g < tally_events(evs.take(i + 1)).steps,
        forall|m: int|
            0 <= m < evs[i].wait_fors.len() ==> gs_of_ref(
                evs[i].actors,
                tally_events(evs.take(i)).steps,
                (#[trigger] evs[i].wait_fors[m]).waiting,
            ) != g,
    ensures
        apply_patches(tbl, evs, n).subrange(
            (RawStep1::SIZE as int) * g,
            (RawStep1::SIZE as int) * (g + 1),
        ) == tbl.subrange((RawStep1::SIZE as int) * g, (RawStep1::SIZE as int) * (g + 1)),
    decreases n,
{
    crate::encode::lemma_tally_events_nonneg(evs.take(i));
    crate::encode::lemma_tally_events_prefix(evs, i + 1);
    assert(0 <= g < total);
    if n > 0 {
        lemma_apply_patches_avoid_row(tbl, evs, n - 1, total, i, g);
        lemma_apply_patches_len(tbl, evs, n - 1, total);
        let t = apply_patches(tbl, evs, n - 1);
        let sbl = tally_events(evs.take(n - 1)).steps;
        crate::encode::lemma_tally_events_nonneg(evs.take(n - 1));
        assert(event_encodable(evs[n - 1]));
        lemma_tally_events_snoc(evs, n - 1);
        crate::encode::lemma_tally_events_prefix(evs, n);
        assert forall|m: int|
            0 <= m < evs[n - 1].wait_fors.len() implies gs_of_ref(
            evs[n - 1].actors,
            sbl,
            (#[trigger] evs[n - 1].wait_fors[m]).waiting,
        ) != g by {
            let wm = evs[n - 1].wait_fors[m];
            assert(evs[n - 1].edges_in_range());
            assert(evs[n - 1].has_coord(wm.waiting.actor_idx as int, wm.waiting.step_idx as int));
            let wa = wm.waiting.actor_idx as int;
            lemma_tally_actors_snoc(evs[n - 1].actors, wa);
            crate::encode::lemma_tally_actors_prefix(evs[n - 1].actors, wa + 1);
            lemma_tally_steps_count(evs[n - 1].actors[wa].steps);
            lemma_tally_steps_nonneg(evs[n - 1].actors[wa].steps);
            crate::encode::lemma_tally_actors_nonneg(evs[n - 1].actors.take(wa));
            if n - 1 < i {
                assert(evs.take(i).take(n) =~= evs.take(n));
                crate::encode::lemma_tally_events_prefix(evs.take(i), n);
                assert(gs_of_ref(evs[n - 1].actors, sbl, wm.waiting) < tally_events(
                    evs.take(n),
                ).steps);
            } else if n - 1 > i {
                assert(evs.take(n - 1).take(i + 1) =~= evs.take(i + 1));
                crate::encode::lemma_tally_events_prefix(evs.take(n - 1), i + 1);
                assert(gs_of_ref(evs[n - 1].actors, sbl, wm.waiting) >= sbl);
            }
        }
        lemma_event_patches_avoid_row(
            t,
            evs[n - 1],
            sbl,
            evs[n - 1].wait_fors.len() as int,
            total,
            g,
        );
    }
}

/// Every long name of the event's steps is well formed for its field.
pub open spec fn long_names_wf(e: EventV) -> bool {
    forall|j: int, k: int|
        0 <= j < e.actors.len() && 0 <= k < e.actors[j].steps.len() ==> name_wf(
            (#[trigger] e.actors[j].steps[k]).long_name,
            16,
        )
}

/// A step that no edge waits at keeps its whole step-part-one record
/// through encoding, the "no dependency" sentinel included: reading it
/// back from the encoded buffer gives exactly the row the construction
/// order dictates.
#[verifier::rlimit(100)]
#[verifier::spinoff_prover]
pub proof fn lemma_unwaited_step1_record_roundtrip(evs: Seq<EventV>, i: int, j: int, k: int)
    requires
        graph_encodable(evs),
        forall|q: int| 0 <= q < evs.len() ==> long_names_wf(#[trigger] evs[q]),
        0 <= i < evs.len(),
        0 <= j < evs[i].actors.len(),
        0 <= k < evs[i].actors[j].steps.len(),
        forall|m: int|
            0 <= m < evs[i].wait_fors.len() ==> (#[trigger] evs[i].wait_fors[m]).waiting != (
            crate::model::StepRef { actor_idx: j as u16, step_idx: k as u16 }),
    ensures
        ({
            let sb = tally_events(evs.take(i)).steps;
            let asb = tally_actors(evs[i].actors.take(j)).steps;
            let gs = sb + asb + k;
            spec_read_raw_step1(
                spec_write_bytes(evs),
                crate::layout::step1_off(header_of(evs)) + gs * (RawStep1::SIZE as int),
            ) == Ok::<RawStep1V, crate::errors::ZevParseError>(
                crate::encode::raw_step1_of(
                    evs[i].actors[j].steps[k],
                    tally_events(evs.take(i)).actors + j,
                    gs,
                ),
            )
        }),
{
    let n = evs.len() as int;
    let swb = spec_write_bytes(evs);
    let h = header_of(evs);
    let sb = tally_events(evs.take(i)).steps;
    let ab = tally_events(evs.take(i)).actors;
    let asb = tally_actors(evs[i].actors.take(j)).steps;
    let gs = sb + asb + k;
    assert(evs.take(n) =~= evs);
    lemma_count_consistency(evs);
    crate::encode::lemma_tally_events_nonneg(evs.take(i));
    crate::encode::lemma_tally_events_prefix(evs, i);
    lemma_tally_events_snoc(evs, i);
    crate::encode::lemma_tally_events_prefix(evs, i + 1);
    lemma_tally_actors_snoc(evs[i].actors, j);
    crate::encode::lemma_tally_actors_prefix(evs[i].actors, j + 1);
    crate::encode::lemma_tally_actors_nonneg(evs[i].actors.take(j));
    lemma_tally_steps_count(evs[i].actors[j].steps);
    lemma_tally_steps_nonneg(evs[i].actors[j].steps);
    lemma_raw_events_of_len(evs, n);
    lemma_sort_by_name_len(raw_events_of(evs, n));
    lemma_raw_events_of_fit(evs, n);
    lemma_sort_by_name_fit(raw_events_of(evs, n));
    lemma_raw_event_rows_len(sort_events_by_name(raw_events_of(evs, n)), n);
    lemma_actor_table_len(evs, n);
    lemma_step1_table_len(evs, n);
    lemma_apply_patches_len(step1_table(evs, n), evs, n, tally_events(evs).steps);
    assert(gs < tally_events(evs.take(i + 1)).steps);
    crate::encode::lemma_tally_events_item(evs, i);
    lemma_tally_actors_count(evs[i].actors);
    crate::encode::lemma_tally_actors_item(evs[i].actors, j);
    let here = crate::model::StepRef { actor_idx: j as u16, step_idx: k as u16 };
    assert(coord_valid(evs[i].actors, here));
    assert(gs == gs_of_ref(evs[i].actors, sb, here));
    assert forall|m: int|
        0 <= m < evs[i].wait_fors.len() implies gs_of_ref(
        evs[i].actors,
        sb,
        (#[trigger] evs[i].wait_fors[m]).waiting,
    ) != gs by {
        let wm = evs[i].wait_fors[m];
        assert(evs[i].edges_in_range());
        assert(evs[i].has_coord(wm.waiting.actor_idx as int, wm.waiting.step_idx as int));
        assert(wm.waiting != here);
        lemma_gs_of_ref_inj(evs[i].actors, sb, wm.waiting, here);
    }
    lemma_apply_patches_avoid_row(
        step1_table(evs, n),
        evs,
        n,
        tally_events(evs).steps,
        i,
        gs,
    );
    lemma_step1_table_region(evs, n, i);
    lemma_step1_rows_actors_region(evs[i].actors, ab, sb, evs[i].actors.len() as int, j);
    lemma_step1_rows_steps_index(
        evs[i].actors[j].steps,
        ab + j,
        sb + asb,
        evs[i].actors[j].steps.len() as int,
        k,
    );
    let spos = crate::layout::step1_off(h) + 28 * gs;
    assert(swb.subrange(spos, spos + 28) =~= step1_section(evs).subrange(
        28 * gs,
        28 * (gs + 1),
    ));
    assert(step1_section(evs).subrange(28 * gs, 28 * (gs + 1)) == step1_table(evs, n).subrange(
        28 * gs,
        28 * (gs + 1),
    ));
    assert(step1_table(evs, n).subrange(28 * gs, 28 * (gs + 1)) =~= step1_table(evs, n).subrange(
        28 * sb,
        28 * (sb + tally_actors(evs[i].actors).steps),
    ).subrange(28 * (asb + k), 28 * (asb + k + 1)));
    assert(crate::encode::step1_rows_actors(
        evs[i].actors,
        ab,
        sb,
        evs[i].actors.len() as int,
    ).subrange(28 * (asb + k), 28 * (asb + k + 1)) =~= crate::encode::step1_rows_actors(
        evs[i].actors,
        ab,
        sb,
        evs[i].actors.len() as int,
    ).subrange(28 * asb, 28 * (asb + evs[i].actors[j].steps.len())).subrange(
        28 * k,
        28 * (k + 1),
    ));
    assert(name_wf(evs[i].actors[j].steps[k].long_name, 16));
    lemma_raw_step1_roundtrip(
        swb,
        spos,
        crate::encode::raw_step1_of(evs[i].actors[j].steps[k], ab + j, gs),
    );
}

proof fn lemma_datadef_rows_datas_index(
    ds: Seq<StepDataV>,
    ib: int,
    fb: int,
    tb: int,
    n: int,
    m: int,
)
    requires
        forall|q: int| 0 <= q < ds.len() ==> data_encodable(#[trigger] ds[q]),
        0 <= m < n <= ds.len(),
    ensures
        datadef_rows_datas(ds, ib, fb, tb, n).subrange(
            (RawDataDef::SIZE as int) * m,
            (RawDataDef::SIZE as int) * (m + 1),
        ) == raw_datadef_bytes(
            crate::encode::raw_datadef_of(
                ds[m],
                ib + tally_datas(ds.take(m)).ints,
                fb + tally_datas(ds.take(m)).floats,
                tb + tally_datas(ds.take(m)).strbytes,
            ),
        ),
    decreases n,
{
    lemma_datadef_rows_datas_len(ds, ib, fb, tb, n - 1);
    assert(data_encodable(ds[n - 1]));
    if m == n - 1 {
        assert(datadef_rows_datas(ds, ib, fb, tb, n).subrange(12 * m, 12 * (m + 1))
            =~= raw_datadef_bytes(
            crate::encode::raw_datadef_of(
                ds[m],
                ib + tally_datas(ds.take(m)).ints,
                fb + tally_datas(ds.take(m)).floats,
                tb + tally_datas(ds.take(m)).strbytes,
            ),
        ));
    } else {
        lemma_datadef_rows_datas_index(ds, ib, fb, tb, n - 1, m);
        assert(datadef_rows_datas(ds, ib, fb, tb, n).subrange(12 * m, 12 * (m + 1))
            =~= datadef_rows_datas(ds, ib, fb, tb, n - 1).subrange(12 * m, 12 * (m + 1)));
    }
}

proof fn lemma_datadef_rows_steps_region(ss: Seq<StepV>, ib: int, fb: int, tb: int, n: int, k: int)
    requires
        forall|q: int| 0 <= q < ss.len() ==> step_encodable(#[trigger] ss[q]),
        0 <= k < n <= ss.len(),
    ensures
        datadef_rows_steps(ss, ib, fb, tb, n).subrange(
            (RawDataDef::SIZE as int) * tally_steps(ss.take(k)).datadefs,
            (RawDataDef::SIZE as int) * (tally_steps(ss.take(k)).datadefs + ss[k].data.len()),
        ) == datadef_rows_datas(
            ss[k].data,
            ib + tally_steps(ss.take(k)).ints,
            fb + tally_steps(ss.take(k)).floats,
            tb + tally_steps(ss.take(k)).strbytes,
            ss[k].data.len() as int,
        ),
    decreases n,
{
    let db = tally_steps(ss.take(k)).datadefs;
    let cnt = ss[k].data.len() as int;
    lemma_tally_steps_nonneg(ss.take(k));
    lemma_datadef_rows_steps_len(ss, ib, fb, tb, n - 1);
    assert(step_encodable(ss[n - 1]));
    let tl = tally_steps(ss.take(n - 1));
    lemma_datadef_rows_datas_len(
        ss[n - 1].data,
        ib + tl.ints,
        fb + tl.floats,
        tb + tl.strbytes,
        ss[n - 1].data.len() as int,
    );
    if k == n - 1 {
        lemma_tally_steps_snoc(ss, n - 1);
        crate::encode::lemma_tally_datas_count(ss[k].data);
        assert(datadef_rows_steps(ss, ib, fb, tb, n).subrange(12 * db, 12 * (db + cnt))
            =~= datadef_rows_datas(
            ss[k].data,
            ib + tally_steps(ss.take(k)).ints,
            fb + tally_steps(ss.take(k)).floats,
            tb + tally_steps(ss.take(k)).strbytes,
            cnt,
        ));
    } else {
        lemma_datadef_rows_steps_region(ss, ib, fb, tb, n - 1, k);
        lemma_tally_steps_snoc(ss, k);
        crate::encode::lemma_tally_datas_count(ss[k].data);
        assert(ss.take(n - 1).take(k + 1) =~= ss.take(k + 1));
        crate::encode::lemma_tally_steps_prefix(ss.take(n - 1), k + 1);
        assert(db + cnt <= tl.datadefs);
        let t_pre = datadef_rows_steps(ss, ib, fb, tb, n - 1);
        assert(datadef_rows_steps(ss, ib, fb, tb, n).subrange(12 * db, 12 * (db + cnt))
            =~= t_pre.subrange(12 * db, 12 * (db + cnt)));
    }
}

proof fn lemma_datadef_rows_actors_region(
    acts: Seq<ActorV>,
    ib: int,
    fb: int,
    tb: int,
    n: int,
    j: int,
)
    requires
        forall|q: int| 0 <= q < acts.len() ==> actor_encodable(#[trigger] acts[q]),
        0 <= j < n <= acts.len(),
    ensures
        datadef_rows_actors(acts, ib, fb, tb, n).subrange(
            (RawDataDef::SIZE as int) * tally_actors(acts.take(j)).datadefs,
            (RawDataDef::SIZE as int) * (tally_actors(acts.take(j)).datadefs + tally_steps(
                acts[j].steps,
            ).datadefs),
        ) == datadef_rows_steps(
            acts[j].steps,
            ib + tally_actors(acts.take(j)).ints,
            fb + tally_actors(acts.take(j)).floats,
            tb + tally_actors(acts.take(j)).strbytes,
            acts[j].steps.len() as int,
        ),
    decreases n,
{
    let db = tally_actors(acts.take(j)).datadefs;
    let cnt = tally_steps(acts[j].steps).datadefs;
    crate::encode::lemma_tally_actors_nonneg(acts.take(j));
    lemma_tally_steps_nonneg(acts[j].steps);
    lemma_datadef_rows_actors_len(acts, ib, fb, tb, n - 1);
    assert(actor_encodable(acts[n - 1]));
    let tl = tally_actors(acts.take(n - 1));
    lemma_datadef_rows_steps_len(
        acts[n - 1].steps,
        ib + tl.ints,
        fb + tl.floats,
        tb + tl.strbytes,
        acts[n - 1].steps.len() as int,
    );
    assert(acts[n - 1].steps.take(acts[n - 1].steps.len() as int) =~= acts[n - 1].steps);
    assert(acts[j].steps.take(acts[j].steps.len() as int) =~= acts[j].steps);
    if j == n - 1 {
        lemma_tally_actors_snoc(acts, n - 1);
        assert(datadef_rows_actors(acts, ib, fb, tb, n).subrange(12 * db, 12 * (db + cnt))
            =~= datadef_rows_steps(
            acts[j].steps,
            ib + tally_actors(acts.take(j)).ints,
            fb + tally_actors(acts.take(j)).floats,
            tb + tally_actors(acts.take(j)).strbytes,
            acts[j].steps.len() as int,
        ));
    } else {
        lemma_datadef_rows_actors_region(acts, ib, fb, tb, n - 1, j);
        lemma_tally_actors_snoc(acts, j);
        assert(acts.take(n - 1).take(j + 1) =~= acts.take(j + 1));
        crate::encode::lemma_tally_actors_prefix(acts.take(n - 1), j + 1);
        assert(db + cnt <= tl.datadefs);
        let t_pre = datadef_rows_actors(acts, ib, fb, tb, n - 1);
        assert(datadef_rows_actors(acts, ib, fb, tb, n).subrange(12 * db, 12 * (db + cnt))
            =~= t_pre.subrange(12 * db, 12 * (db + cnt)));
    }
}

proof fn lemma_datadef_table_region(evs: Seq<EventV>, n: int, i: int)
    requires
        forall|q: int| 0 <= q < evs.len() ==> event_encodable(#[trigger] evs[q]),
        0 <= i < n <= evs.len(),
    ensures
        crate::encode::datadef_table(evs, n).subrange(
            (RawDataDef::SIZE as int) * tally_events(evs.take(i)).datadefs,
            (RawDataDef::SIZE as int) * (tally_events(evs.take(i)).datadefs + tally_actors(
                evs[i].actors,
            ).datadefs),
        ) == datadef_rows_actors(
            evs[i].actors,
            tally_events(evs.take(i)).ints,
            tally_events(evs.take(i)).floats,
            tally_events(evs.take(i)).strbytes,
            evs[i].actors.len() as int,
        ),
    decreases n,
{
    let db = tally_events(evs.take(i)).datadefs;
    let cnt = tally_actors(evs[i].actors).datadefs;
    crate::encode::lemma_tally_events_nonneg(evs.take(i));
    crate::encode::lemma_tally_actors_nonneg(evs[i].actors);
    lemma_datadef_table_len(evs, n - 1);
    assert(event_encodable(evs[n - 1]));
    let tl = tally_events(evs.take(n - 1));
    lemma_datadef_rows_actors_len(
        evs[n - 1].actors,
        tl.ints,
        tl.floats,
        tl.strbytes,
        evs[n - 1].actors.len() as int,
    );
    assert(evs[n - 1].actors.take(evs[n - 1].actors.len() as int) =~= evs[n - 1].actors);
    assert(evs[i].actors.take(evs[i].actors.len() as int) =~= evs[i].actors);
    if i == n - 1 {
        lemma_tally_events_snoc(evs, n - 1);
        assert(crate::encode::datadef_table(evs, n).subrange(12 * db, 12 * (db + cnt))
            =~= datadef_rows_actors(
            evs[i].actors,
            tally_events(evs.take(i)).ints,
            tally_events(evs.take(i)).floats,
            tally_events(evs.take(i)).strbytes,
            evs[i].actors.len() as int,
        ));
    } else {
        lemma_datadef_table_region(evs, n - 1, i);
        lemma_tally_events_snoc(evs, i);
        assert(evs.take(n - 1).take(i + 1) =~= evs.take(i + 1));
        crate::encode::lemma_tally_events_prefix(evs.take(n - 1), i + 1);
        assert(db + cnt <= tl.datadefs);
        let t_pre = crate::encode::datadef_table(evs, n - 1);
        assert(crate::encode::datadef_table(evs, n).subrange(12 * db, 12 * (db + cnt))
            =~= t_pre.subrange(12 * db, 12 * (db + cnt)));
    }
}

/// Every parameter name of the event is well formed for its field.
pub open spec fn data_names_wf(e: EventV) -> bool {
    forall|j: int, k: int, m: int|
        0 <= j < e.actors.len() && 0 <= k < e.actors[j].steps.len() && 0 <= m
            < e.actors[j].steps[k].data.len() ==> name_wf(
            (#[trigger] e.actors[j].steps[k].data[m]).name,
            4,
        )
}

/// A window of a larger window of a buffer is a window of the buffer.
proof fn lemma_subrange_of_subrange(s: Seq<u8>, a: int, b: int, c: int, d: int)
    requires
        0 <= a <= c <= d <= b <= s.len(),
    ensures
        s.subrange(c, d) == s.subrange(a, b).subrange(c - a, d - a),
{
    assert(s.subrange(c, d) =~= s.subrange(a, b).subrange(c - a, d - a));
}

/// The data-definition table occupies its own region of the encoded
/// buffer.
#[verifier::rlimit(100)]
#[verifier::spinoff_prover]
proof fn lemma_swb_datadef_region(evs: Seq<EventV>, lo: int, hi: int)
    requires
        graph_encodable(evs),
        0 <= lo <= hi <= (RawDataDef::SIZE as int) * tally_events(evs).datadefs,
    ensures
        spec_write_bytes(evs).subrange(
            crate::layout::datadef_off(header_of(evs)) + lo,
            crate::layout::datadef_off(header_of(evs)) + hi,
        ) == crate::encode::datadef_table(evs, evs.len() as int).subrange(lo, hi),
{
    let n = evs.len() as int;
    assert(evs.take(n) =~= evs);
    lemma_count_consistency(evs);
    lemma_raw_events_of_len(evs, n);
    lemma_sort_by_name_len(raw_events_of(evs, n));
    lemma_raw_events_of_fit(evs, n);
    lemma_sort_by_name_fit(raw_events_of(evs, n));
    lemma_raw_event_rows_len(sort_events_by_name(raw_events_of(evs, n)), n);
    lemma_actor_table_len(evs, n);
    lemma_step1_table_len(evs, n);
    lemma_apply_patches_len(step1_table(evs, n), evs, n, tally_events(evs).steps);
    lemma_step2_table_len(evs, n);
    lemma_datadef_table_len(evs, n);
    assert(spec_write_bytes(evs).subrange(
        crate::layout::datadef_off(header_of(evs)) + lo,
        crate::layout::datadef_off(header_of(evs)) + hi,
    ) =~= crate::encode::datadef_table(evs, n).subrange(lo, hi));
}

/// Every data-definition record of an encoded buffer reads back
/// exactly: parameter `m` of step (i, j, k) sits at the table position
/// the construction order dictates and points into the blob its type
/// tag selects at the running cursor the earlier values left behind.
#[verifier::rlimit(100)]
#[verifier::spinoff_prover]
pub proof fn lemma_datadef_records_roundtrip(evs: Seq<EventV>, i: int, j: int, k: int, m: int)
    requires
        graph_encodable(evs),
        forall|q: int| 0 <= q < evs.len() ==> data_names_wf(#[trigger] evs[q]),
        0 <= i < evs.len(),
        0 <= j < evs[i].actors.len(),
        0 <= k < evs[i].actors[j].steps.len(),
        0 <= m < evs[i].actors[j].steps[k].data.len(),
    ensures
        ({
            let te = tally_events(evs.take(i));
            let ta = tally_actors(evs[i].actors.take(j));
            let ts = tally_steps(evs[i].actors[j].steps.take(k));
            let td = tally_datas(evs[i].actors[j].steps[k].data.take(m));
            let gd = te.datadefs + ta.datadefs + ts.datadefs + m;
            spec_read_raw_datadef(
                spec_write_bytes(evs),
                crate::layout::datadef_off(header_of(evs)) + gd * (RawDataDef::SIZE as int),
            ) == Ok::<RawDataDefV, crate::errors::ZevParseError>(
                crate::encode::raw_datadef_of(
                    evs[i].actors[j].steps[k].data[m],
                    te.ints + ta.ints + ts.ints + td.ints,
                    te.floats + ta.floats + ts.floats + td.floats,
                    te.strbytes + ta.strbytes + ts.strbytes + td.strbytes,
                ),
            )
        }),
{
    let n = evs.len() as int;
    let swb = spec_write_bytes(evs);
    let h = header_of(evs);
    let acts = evs[i].actors;
    let ss = acts[j].steps;
    let ds = ss[k].data;
    let te = tally_events(evs.take(i));
    let ta = tally_actors(acts.take(j));
    let ts = tally_steps(ss.take(k));
    let td = tally_datas(ds.take(m));
    let gd = te.datadefs + ta.datadefs + ts.datadefs + m;
    assert(evs.take(n) =~= evs);
    lemma_count_consistency(evs);
    crate::encode::lemma_tally_events_nonneg(evs.take(i));
    crate::encode::lemma_tally_events_prefix(evs, i);
    lemma_tally_events_snoc(evs, i);
    crate::encode::lemma_tally_events_prefix(evs, i + 1);
    lemma_tally_actors_snoc(acts, j);
    crate::encode::lemma_tally_actors_prefix(acts, j + 1);
    crate::encode::lemma_tally_actors_nonneg(acts.take(j));
    lemma_tally_steps_snoc(ss, k);
    crate::encode::lemma_tally_steps_prefix(ss, k + 1);
    lemma_tally_steps_nonneg(ss.take(k));
    lemma_tally_datas_snoc(ds, m);
    crate::encode::lemma_tally_datas_prefix(ds, m + 1);
    crate::encode::lemma_tally_datas_nonneg(ds.take(m));
    crate::encode::lemma_tally_datas_count(ds.take(m));
    crate::encode::lemma_tally_datas_count(ds);
    lemma_tally_steps_count(ss);
    lemma_tally_actors_count(acts);
    lemma_datadef_table_len(evs, n);
    let dtab = crate::encode::datadef_table(evs, n);
    lemma_datadef_table_region(evs, n, i);
    lemma_datadef_rows_actors_region(acts, te.ints, te.floats, te.strbytes, acts.len() as int, j);
    lemma_datadef_rows_steps_region(
        ss,
        te.ints + ta.ints,
        te.floats + ta.floats,
        te.strbytes + ta.strbytes,
        ss.len() as int,
        k,
    );
    lemma_datadef_rows_datas_index(
        ds,
        te.ints + ta.ints + ts.ints,
        te.floats + ta.floats + ts.floats,
        te.strbytes + ta.strbytes + ts.strbytes,
        ds.len() as int,
        m,
    );
    let dpos = crate::layout::datadef_off(h) + 12 * gd;
    let rec_bytes = raw_datadef_bytes(
        crate::encode::raw_datadef_of(
            ds[m],
            te.ints + ta.ints + ts.ints + td.ints,
            te.floats + ta.floats + ts.floats + td.floats,
            te.strbytes + ta.strbytes + ts.strbytes + td.strbytes,
        ),
    );
    let arows = datadef_rows_actors(acts, te.ints, te.floats, te.strbytes, acts.len() as int);
    let srows = datadef_rows_steps(
        ss,
        te.ints + ta.ints,
        te.floats + ta.floats,
        te.strbytes + ta.strbytes,
        ss.len() as int,
    );
    let drows = datadef_rows_datas(
        ds,
        te.ints + ta.ints + ts.ints,
        te.floats + ta.floats + ts.floats,
        te.strbytes + ta.strbytes + ts.strbytes,
        ds.len() as int,
    );
    lemma_datadef_rows_actors_len(acts, te.ints, te.floats, te.strbytes, acts.len() as int);
    lemma_datadef_rows_steps_len(
        ss,
        te.ints + ta.ints,
        te.floats + ta.floats,
        te.strbytes + ta.strbytes,
        ss.len() as int,
    );
    lemma_datadef_rows_datas_len(
        ds,
        te.ints + ta.ints + ts.ints,
        te.floats + ta.floats + ts.floats,
        te.strbytes + ta.strbytes + ts.strbytes,
        ds.len() as int,
    );
    assert(ss.take(ss.len() as int) =~= ss);
    assert(acts.take(acts.len() as int) =~= acts);
    assert(drows.subrange(12 * m, 12 * (m + 1)) == rec_bytes);
    lemma_subrange_of_subrange(
        srows,
        12 * ts.datadefs,
        12 * (ts.datadefs + ds.len()),
        12 * (ts.datadefs + m),
        12 * (ts.datadefs + m + 1),
    );
    assert(srows.subrange(12 * (ts.datadefs + m), 12 * (ts.datadefs + m + 1)) == rec_bytes);
    lemma_subrange_of_subrange(
        arows,
        12 * ta.datadefs,
        12 * (ta.datadefs + tally_steps(ss).datadefs),
        12 * (ta.datadefs + ts.datadefs + m),
        12 * (ta.datadefs + ts.datadefs + m + 1),
    );
    assert(arows.subrange(
        12 * (ta.datadefs + ts.datadefs + m),
        12 * (ta.datadefs + ts.datadefs + m + 1),
    ) == rec_bytes);
    lemma_subrange_of_subrange(
        dtab,
        12 * te.datadefs,
        12 * (te.datadefs + tally_actors(acts).datadefs),
        12 * gd,
        12 * (gd + 1),
    );
    assert(dtab.subrange(12 * gd, 12 * (gd + 1)) == rec_bytes);
    lemma_swb_datadef_region(evs, 12 * gd, 12 * (gd + 1));
    assert(swb.subrange(dpos, dpos + 12) == rec_bytes);
    assert(name_wf(ds[m].name, 4));
    lemma_raw_datadef_roundtrip(
        swb,
        dpos,
        crate::encode::raw_datadef_of(
            ds[m],
            te.ints + ta.ints + ts.ints + td.ints,
            te.floats + ta.floats + ts.floats + td.floats,
            te.strbytes + ta.strbytes + ts.strbytes + td.strbytes,
        ),
    );
}

} // verus!






