use zev::{
    parse_zev, write_zev, Actor, Event, FileReason, HeaderReason, Step, StepData, StepDataValues,
    StepRef, WaitFor, ZevParseError,
};

fn step(long: &[u8], short: &[u8], data: Vec<StepData>) -> Step {
    Step { long_name: long.to_vec(), unk1: 7, name: short.to_vec(), unk2: 9, data }
}

// Two events, constructed as "B" then "Aa": one actor with three steps
// carrying all three value kinds and one dependency edge, then a single
// one-step actor.
fn sample() -> Vec<Event> {
    let s0 = step(b"Intro", b"intr", vec![StepData {
        name: b"cnts".to_vec(),
        unk1: 1,
        values: StepDataValues::Ints(vec![1, 2]),
    }]);
    let s1 = step(b"Second", b"seco", vec![StepData {
        name: b"fltt".to_vec(),
        unk1: 2,
        values: StepDataValues::Floats(vec![0x3F800000]),
    }]);
    let s2 = step(b"Third", b"thrd", vec![StepData {
        name: b"text".to_vec(),
        unk1: 3,
        values: StepDataValues::String(b"hi".to_vec()),
    }]);
    let ev_b = Event {
        name: b"B".to_vec(),
        unk1: 5,
        actors: vec![Actor { name: b"one".to_vec(), unk1: 11, unk2: 12, steps: vec![s0, s1, s2] }],
        wait_fors: vec![WaitFor {
            waiting: StepRef { actor_idx: 0, step_idx: 2 },
            waiting_on: StepRef { actor_idx: 0, step_idx: 0 },
        }],
    };
    let ev_a = Event {
        name: b"Aa".to_vec(),
        unk1: 6,
        actors: vec![Actor {
            name: b"two".to_vec(),
            unk1: 21,
            unk2: 22,
            steps: vec![step(b"Solo", b"solo", vec![])],
        }],
        wait_fors: vec![],
    };
    vec![ev_b, ev_a]
}

#[test]
fn roundtrip_fixed_point() {
    let evs = sample();
    let enc = write_zev(&evs).unwrap();
    let dec = parse_zev(&enc).unwrap();
    let enc2 = write_zev(&dec).unwrap();
    assert_eq!(enc, enc2);
}

#[test]
fn idempotent_redecode() {
    let evs = sample();
    let enc = write_zev(&evs).unwrap();
    let dec = parse_zev(&enc).unwrap();
    assert_eq!(dec, evs);
    let enc2 = write_zev(&dec).unwrap();
    let dec2 = parse_zev(&enc2).unwrap();
    assert_eq!(dec, dec2);
}

#[test]
fn count_consistency() {
    let evs = sample();
    let enc = write_zev(&evs).unwrap();
    // header: magic, events, actors, steps, steps2, datadefs, sentinel,
    // ints, floats, string bytes -- all big-endian
    let fields: Vec<u16> = (0..10).map(|k| u16::from_be_bytes([enc[2 * k], enc[2 * k + 1]])).collect();
    assert_eq!(fields, vec![0x775A, 2, 2, 4, 4, 3, 0x4576, 2, 1, 3]);
    let expected_len = 20 + 2 * 40 + 2 * 40 + 4 * 28 + 4 * 12 + 3 * 12 + 2 * 4 + 1 * 4 + 3;
    assert_eq!(enc.len(), expected_len);
}

#[test]
fn name_ordering_on_disk() {
    // events constructed as "B" then "Aa" must be written "Aa" then "B"
    let evs = sample();
    let enc = write_zev(&evs).unwrap();
    assert_eq!(&enc[20..23], b"Aa\x00");
    assert_eq!(&enc[60..62], b"B\x00");
}

#[test]
fn unterminated_long_name_field() {
    // a long-name field fully occupied by sixteen non-zero ASCII bytes
    // decodes to the sixteen-character name
    let mut evs = sample();
    evs[0].actors[0].steps[0].long_name = b"ABCDEFGHIJKLMNOP".to_vec();
    let enc = write_zev(&evs).unwrap();
    let dec = parse_zev(&enc).unwrap();
    assert_eq!(dec[0].actors[0].steps[0].long_name, b"ABCDEFGHIJKLMNOP".to_vec());

    let raw = b"QRSTUVWXYZabcdef\xff\xff\x00\x00\x00\x00\x00\x00\x00\x01\x00\x00";
    let s1 = zev::raw::RawStep1::read(raw, 0).unwrap();
    assert_eq!(s1.name, b"QRSTUVWXYZabcdef".to_vec());
}

#[test]
fn unknown_data_type_rejected() {
    let evs = sample();
    let mut enc = write_zev(&evs).unwrap();
    // first data-definition record sits at 340; its type tag at +6
    enc[346] = 0;
    enc[347] = 3;
    let err = parse_zev(&enc).unwrap_err();
    assert_eq!(err, ZevParseError::InvalidFile(FileReason::UnknownDataType { tag: 3 }));
}

#[test]
fn header_rejections() {
    let evs = sample();
    let enc = write_zev(&evs).unwrap();

    let mut bad = enc.clone();
    bad[0] = 0;
    assert_eq!(
        parse_zev(&bad).unwrap_err(),
        ZevParseError::InvalidHeader(HeaderReason::WrongMagic { expected: 0x775A, actual: 0x5A }),
    );

    let mut bad = enc.clone();
    bad[9] = 5;
    assert_eq!(
        parse_zev(&bad).unwrap_err(),
        ZevParseError::InvalidHeader(HeaderReason::StepCountMismatch { steps1: 4, steps2: 5 }),
    );

    let mut bad = enc.clone();
    bad[13] = 0;
    assert_eq!(
        parse_zev(&bad).unwrap_err(),
        ZevParseError::InvalidHeader(
            HeaderReason::WrongSentinel { expected: 0x4576, actual: 0x4500 },
        ),
    );

    let mut bad = enc.clone();
    bad.pop();
    assert_eq!(
        parse_zev(&bad).unwrap_err(),
        ZevParseError::InvalidFile(FileReason::WrongLength { expected: 391, actual: 390 }),
    );
}

#[test]
fn string_value_must_terminate() {
    let evs = sample();
    let mut enc = write_zev(&evs).unwrap();
    // string blob at 388 holds "hi\0"; spoil the terminator
    assert_eq!(enc[390], 0);
    enc[390] = b'X';
    assert_eq!(
        parse_zev(&enc).unwrap_err(),
        ZevParseError::InvalidFile(FileReason::StringNotTerminated),
    );
}

#[test]
fn non_ascii_name_rejected() {
    let evs = sample();
    let mut enc = write_zev(&evs).unwrap();
    enc[20] = 0x80;
    assert_eq!(parse_zev(&enc).unwrap_err(), ZevParseError::InvalidFile(FileReason::NameNotAscii));
}

#[test]
fn empty_graph_roundtrip() {
    let evs: Vec<Event> = vec![];
    let enc = write_zev(&evs).unwrap();
    assert_eq!(enc.len(), 20);
    let dec = parse_zev(&enc).unwrap();
    assert!(dec.is_empty());
}

#[test]
fn resolved_edges_survive_roundtrip() {
    let evs = sample();
    let enc = write_zev(&evs).unwrap();
    let dec = parse_zev(&enc).unwrap();
    assert_eq!(dec[0].wait_fors.len(), 1);
    assert_eq!(dec[0].wait_fors[0].waiting, StepRef { actor_idx: 0, step_idx: 2 });
    assert_eq!(dec[0].wait_fors[0].waiting_on, StepRef { actor_idx: 0, step_idx: 0 });
    assert_eq!(dec[1].wait_fors.len(), 0);
}

#[test]
fn float_bits_survive_roundtrip() {
    let evs = sample();
    let enc = write_zev(&evs).unwrap();
    let dec = parse_zev(&enc).unwrap();
    match &dec[0].actors[0].steps[1].data[0].values {
        StepDataValues::Floats(bits) => {
            assert_eq!(bits, &vec![0x3F800000u32]);
            assert_eq!(f32::from_bits(bits[0]), 1.0f32);
        },
        other => panic!("wrong variant: {:?}", other),
    }
}

#[test]
fn backward_wait_pointer_rejected() {
    // a dependency pointer of the second event that resolves into the
    // first event's range is not representable in local coordinates
    let evs = sample();
    let mut enc = write_zev(&evs).unwrap();
    // the fourth step record starts at 180 + 3 * 28; its pointer at +16
    enc[280] = 0;
    enc[281] = 0;
    assert_eq!(
        parse_zev(&enc).unwrap_err(),
        ZevParseError::InvalidFile(FileReason::WaitNotResolvable),
    );
}

#[test]
fn int_values_survive_roundtrip() {
    let evs = sample();
    let enc = write_zev(&evs).unwrap();
    let dec = parse_zev(&enc).unwrap();
    match &dec[0].actors[0].steps[0].data[0].values {
        StepDataValues::Ints(v) => assert_eq!(v, &vec![1u32, 2u32]),
        other => panic!("wrong variant: {:?}", other),
    }
    match &dec[0].actors[0].steps[2].data[0].values {
        StepDataValues::String(s) => assert_eq!(s, &b"hi".to_vec()),
        other => panic!("wrong variant: {:?}", other),
    }
}
