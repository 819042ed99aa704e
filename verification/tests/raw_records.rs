use zev::raw::{RawActor, RawDataDef, RawEvent, RawHeader, RawStep1, RawStep2};

#[test]
fn test_raw_header() {
    let bytes = b"wZ\x00\x1d\x00i\x01Z\x01Z\x01\xefEv\x00\xf3\x027\x00\xf7";
    assert_eq!(RawHeader::SIZE, bytes.len());
    let header = RawHeader::read(bytes, 0).unwrap();
    let mut out = vec![0u8; RawHeader::SIZE];
    header.write(&mut out, 0);
    assert_eq!(bytes, out.as_slice());
}

#[test]
fn test_raw_event() {
    let bytes = b"BackstairsGossip\x00\x00\x00\x00\x00\x00\x00\x00\x00\x00\x00\x00\x00\x00\x00\x00\x00\x00\x00\x00\x00R\x00\x03";
    assert_eq!(RawEvent::SIZE, bytes.len());
    let event = RawEvent::read(bytes, 0).unwrap();
    let mut out = vec![0u8; RawEvent::SIZE];
    event.write(&mut out, 0);
    assert_eq!(bytes, out.as_slice());
    assert_eq!(event.name, b"BackstairsGossip");
}

#[test]
fn test_raw_actor() {
    let bytes = b"@player\x00\x00\x00\x00\x00\x00\x00\x00\x00\x00\x00\x00\x00\x00\x00\x00\x00\x00\x00\x00\x00\x00\x00\x00\x00\x00\x02\x00\x16\x01\x0c\x00\x01";
    assert_eq!(RawActor::SIZE, bytes.len());
    let actor = RawActor::read(bytes, 0).unwrap();
    let mut out = vec![0u8; RawActor::SIZE];
    actor.write(&mut out, 0);
    assert_eq!(bytes, out.as_slice());
    assert_eq!(actor.name, b"@player");
}

#[test]
fn test_raw_step1() {
    let bytes = b"Cast\x00\x00\x00\x00\x00\x00\x00\x00\x00\x00\x00\x00\xff\xff\x00B\x00\x00\x00\x00\x00\xcd\x00\x01";
    assert_eq!(RawStep1::SIZE, bytes.len());
    let step = RawStep1::read(bytes, 0).unwrap();
    let mut out = vec![0u8; RawStep1::SIZE];
    step.write(&mut out, 0);
    assert_eq!(bytes, out.as_slice());
    assert_eq!(step.name, b"Cast");
}

#[test]
fn test_raw_step2() {
    let bytes = b"cast\x00\x05\x00\xcd\x01\x17\x00\x01";
    assert_eq!(RawStep2::SIZE, bytes.len());
    let step = RawStep2::read(bytes, 0).unwrap();
    let mut out = vec![0u8; RawStep2::SIZE];
    step.write(&mut out, 0);
    assert_eq!(bytes, out.as_slice());
    assert_eq!(step.name, b"cast");
}

#[test]
fn test_raw_datadef() {
    let bytes = b"parm\x00\x02\x00\x01\x00\x07\x00\x03";
    assert_eq!(RawDataDef::SIZE, bytes.len());
    let def = RawDataDef::read(bytes, 0).unwrap();
    let mut out = vec![0u8; RawDataDef::SIZE];
    def.write(&mut out, 0);
    assert_eq!(bytes, out.as_slice());
    assert_eq!(def.name, b"parm");
    assert_eq!(def.datatype, 1);
    assert_eq!(def.dataindex, 7);
    assert_eq!(def.datalen, 3);
}

#[test]
fn test_raw_read_out_of_bounds() {
    let bytes = [0u8; 10];
    assert!(RawHeader::read(&bytes, 0).is_err());
    assert!(RawEvent::read(&bytes, 0).is_err());
    assert!(RawActor::read(&bytes, 0).is_err());
    assert!(RawStep1::read(&bytes, 0).is_err());
}
