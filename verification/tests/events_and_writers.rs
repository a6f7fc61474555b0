use dse::codec::DataReader;
use dse::dtype::{DSEError, ReadWrite};
use dse::smdl::events::{FixedDurationPause, Other, PlayNote};
use dse::smdl::midi::{ProgramUsed, TrkChunkWriter};
use dse::smdl::DSEEvent;

fn other(code: u8, params: [u8; 5]) -> DSEEvent {
    DSEEvent::Other(Other { code, parameters: params })
}

fn is_other(e: &DSEEvent, code: u8, params: [u8; 5]) -> bool {
    match e {
        DSEEvent::Other(o) => o.code == code && o.parameters == params,
        _ => false,
    }
}

#[test]
fn every_event_name_gives_its_code_back() {
    for v in 0x90u16..=0xFF {
        let (name, info) = Other::lookup(v as u8).unwrap();
        assert_eq!(info.1, v as u8);
        assert_eq!(Other::name_to_code(name).unwrap(), v as u8, "name {}", name);
    }
}

#[test]
fn event_names_read_as_numbers() {
    assert_eq!(Other::name_to_code("12").unwrap(), 12);
    assert_eq!(Other::name_to_code("+5").unwrap(), 5);
    assert_eq!(Other::name_to_code("0x1F").unwrap(), 0x1F);
    assert_eq!(Other::name_to_code("0x0x1f").unwrap(), 0x1F);
    assert_eq!(Other::name_to_code("ff").unwrap(), 0xFF);
    assert_eq!(Other::name_to_code("SetTempo").unwrap(), 0xA4);
    match Other::name_to_code("Nope") {
        Err(DSEError::DSEEventNameLookupError(n)) => assert_eq!(n, "Nope"),
        other => panic!("unexpected {:?}", other),
    }
    match Other::name_to_code("256") {
        Err(DSEError::DSEEventNameLookupError(n)) => assert_eq!(n, "256"),
        other => panic!("unexpected {:?}", other),
    }
}

#[test]
fn lookup_below_the_table_fails() {
    match Other::lookup(0x10) {
        Err(DSEError::DSEEventLookupError(c)) => assert_eq!(c, 0x10),
        other => panic!("unexpected {:?}", other),
    }
    let (name, info) = Other::lookup(0x98).unwrap();
    assert_eq!(name, "EndOfTrack");
    assert_eq!(info, (false, 0x98, 0));
}

#[test]
fn play_note_encoding() {
    let n = PlayNote { velocity: 100, _nbparambytes: 0, octavemod: 2, note: 5, keydownduration: 0x1234 };
    let mut out = Vec::new();
    assert_eq!(n.write_to_file(&mut out).unwrap(), 4);
    assert_eq!(out, vec![100, 0xA5, 0x12, 0x34]);
    let mut back = PlayNote::fresh();
    let mut r = DataReader::new(&out);
    back.read_from_file(&mut r).unwrap();
    assert_eq!(r.pos, 4);
    assert_eq!((back.velocity, back._nbparambytes, back.octavemod, back.note, back.keydownduration), (100, 2, 2, 5, 0x1234));
}

#[test]
fn play_note_without_duration() {
    let n = PlayNote { velocity: 1, _nbparambytes: 0, octavemod: 0, note: 11, keydownduration: 0 };
    let mut out = Vec::new();
    assert_eq!(n.write_to_file(&mut out).unwrap(), 2);
    assert_eq!(out, vec![1, 11]);
}

#[test]
fn play_note_too_long() {
    let n = PlayNote { velocity: 1, _nbparambytes: 0, octavemod: 0, note: 0, keydownduration: 0x0100_0000 };
    let mut out = Vec::new();
    match n.write_to_file(&mut out) {
        Err(DSEError::Invalid(m)) => assert_eq!(m, "Keydown duration needs to be within the range 0 to 0xFFFFFF"),
        other => panic!("unexpected {:?}", other),
    }
}

#[test]
fn events_by_first_byte() {
    let data = vec![0x10u8, 0x05, 0x85, 0xA4, 120, 0x98];
    let mut r = DataReader::new(&data);
    let mut e = DSEEvent::fresh();
    e.read_from_file(&mut r).unwrap();
    assert!(matches!(e, DSEEvent::PlayNote(PlayNote { velocity: 0x10, note: 5, .. })));
    let mut e = DSEEvent::fresh();
    e.read_from_file(&mut r).unwrap();
    assert!(matches!(e, DSEEvent::FixedDurationPause(FixedDurationPause { duration: 0x85 })));
    let mut e = DSEEvent::fresh();
    e.read_from_file(&mut r).unwrap();
    assert!(is_other(&e, 0xA4, [120, 0, 0, 0, 0]));
    let mut e = DSEEvent::fresh();
    e.read_from_file(&mut r).unwrap();
    assert!(e.is_eot_event());
    assert_eq!(r.pos, 6);
}

#[test]
fn other_event_writes_its_parameter_bytes() {
    let mut out = Vec::new();
    let n = other(0xA4, [120, 9, 9, 9, 9]).write_to_file(&mut out).unwrap();
    assert_eq!(n, 2);
    assert_eq!(out, vec![0xA4, 120]);
}

#[test]
fn program_ids_take_apart_and_back() {
    let p = ProgramUsed::from_dse(130, true);
    assert_eq!((p.bank, p.program, p.is_default()), (1, 2, true));
    assert_eq!(p.to_dse(), 130);
    let q = ProgramUsed::new(0, 127, false);
    assert_eq!(q.to_dse(), 127);
    assert!(q.notes.is_empty());
}

#[test]
fn writer_starts_with_its_standard_events() {
    let w = TrkChunkWriter::create(0, 0, (3, 4)).unwrap();
    assert_eq!(w.trk_events.len(), 1);
    assert!(is_other(&w.trk_events[0], 0xE3, [100, 0, 0, 0, 0]));
    let w = TrkChunkWriter::create(2, 1, (3, 4)).unwrap();
    assert_eq!(w.trk_events.len(), 3);
    assert!(is_other(&w.trk_events[1], 0xA9, [4, 0, 0, 0, 0]));
    assert!(is_other(&w.trk_events[2], 0xAA, [3, 0, 0, 0, 0]));
}

#[test]
fn writer_notes_get_their_durations() {
    let mut w = TrkChunkWriter::create(1, 0, (0, 0)).unwrap();
    w.note_on(61, 90).unwrap();
    w.fix_current_global_tick(300).unwrap();
    w.note_off(61).unwrap();
    assert_eq!(w.trk_events.len(), 3 + 2 + 1);
    assert!(is_other(&w.trk_events[3], 0xA0, [5, 0, 0, 0, 0]));
    match &w.trk_events[4] {
        DSEEvent::PlayNote(n) => {
            assert_eq!((n.velocity, n.octavemod, n.note, n.keydownduration), (90, 2, 1, 300));
        },
        e => panic!("unexpected {:?}", e),
    }
    assert!(is_other(&w.trk_events[5], 0x93, [0x2C, 0x01, 0, 0, 0]));
    // a note off for a key not held does nothing
    w.note_off(3).unwrap();
    assert_eq!(w.trk_events.len(), 6);
}

#[test]
fn writer_refuses_notes_held_too_long() {
    let mut w = TrkChunkWriter::create(1, 0, (0, 0)).unwrap();
    w.note_on(60, 90).unwrap();
    w.fix_current_global_tick(0x0100_0000).unwrap();
    match w.note_off(60) {
        Err(DSEError::DSESmfNotesTooLong()) => {},
        other => panic!("unexpected {:?}", other),
    }
}

#[test]
fn writer_pauses_add_up() {
    let mut w = TrkChunkWriter::create(0, 0, (0, 0)).unwrap();
    w.fix_current_global_tick(0x0100_0005).unwrap();
    assert_eq!(w.current_global_tick, 0x0100_0005);
    assert_eq!(w.trk_events.len(), 3);
    assert!(is_other(&w.trk_events[1], 0x94, [0xFF, 0xFF, 0xFF, 0, 0]));
    assert!(is_other(&w.trk_events[2], 0x92, [6, 0, 0, 0, 0]));
    let mut total: u64 = 0;
    for e in &w.trk_events {
        if let DSEEvent::Other(o) = e {
            total += match o.code {
                0x92 => o.parameters[0] as u64,
                0x93 => o.parameters[0] as u64 + 256 * o.parameters[1] as u64,
                0x94 => o.parameters[0] as u64 + 256 * o.parameters[1] as u64 + 65536 * o.parameters[2] as u64,
                _ => 0,
            };
        }
    }
    assert_eq!(total, 0x0100_0005);
}

#[test]
fn writer_program_changes_at_one_tick_keep_the_last() {
    let mut w = TrkChunkWriter::create(1, 0, (0, 0)).unwrap();
    let (i1, same1) = w.bank_select(2, false, Some(0)).unwrap();
    assert_eq!((i1, same1), (Some(3), false));
    let (i2, same2) = w.program_change(7, false, Some(9)).unwrap();
    assert_eq!((i2, same2), (Some(3), true));
    assert_eq!(w.trk_events.len(), 4);
    assert!(is_other(&w.trk_events[3], 0xAC, [9, 0, 0, 0, 0]));
    assert_eq!(w.programs_used().len(), 1);
    assert_eq!((w.programs_used()[0].bank, w.programs_used()[0].program), (2, 7));
    w.fix_current_global_tick(10).unwrap();
    let (i3, same3) = w.program_change(8, false, None).unwrap();
    assert_eq!((i3, same3), (None, false));
    assert_eq!(w.programs_used().len(), 2);
}

#[test]
fn writer_records_notes_per_program() {
    let mut w = TrkChunkWriter::create(1, 0, (0, 0)).unwrap();
    w.program_change(4, true, Some(0)).unwrap();
    w.note_on(60, 100).unwrap();
    w.note_on(60, 100).unwrap();
    w.note_on(62, 50).unwrap();
    let p = &w.programs_used()[0];
    assert_eq!(p.notes.len(), 2);
    assert!(p.notes.contains(&(60, 100)));
    assert!(p.notes.contains(&(62, 50)));
}

#[test]
fn writer_closes_with_end_of_track() {
    let mut w = TrkChunkWriter::create(3, 2, (0, 0)).unwrap();
    w.add_other_with_params_i16("PitchBend", -2, true).unwrap();
    w.add_other_with_params_u16("Pause16Bits", 0x1234, false).unwrap();
    let t = w.close_track();
    assert_eq!(t.preamble.trkid, 3);
    assert_eq!(t.preamble.chanid, 2);
    let n = t.events.events.len();
    assert!(is_other(&t.events.events[n - 3], 0xD7, [0xFF, 0xFE, 0, 0, 0]));
    assert!(is_other(&t.events.events[n - 2], 0x93, [0x34, 0x12, 0, 0, 0]));
    assert!(t.events.events[n - 1].is_eot_event());
}

#[test]
fn writer_refuses_unknown_event_names() {
    let mut w = TrkChunkWriter::create(0, 0, (0, 0)).unwrap();
    match w.add_other_no_params("NoSuchEvent") {
        Err(DSEError::DSEEventNameLookupError(n)) => assert_eq!(n, "NoSuchEvent"),
        other => panic!("unexpected {:?}", other),
    }
    assert_eq!(w.trk_events.len(), 1);
}

#[test]
fn set_other_with_params_needs_an_other_event() {
    let mut e = DSEEvent::FixedDurationPause(FixedDurationPause { duration: 3 });
    match TrkChunkWriter::set_other_with_params_u8(&mut e, 5) {
        Err(DSEError::_InvalidEventTypePassedToSetOtherWithParamsU8()) => {},
        other => panic!("unexpected {:?}", other),
    }
    let mut e = other(0xAC, [0, 1, 2, 3, 4]);
    TrkChunkWriter::set_other_with_params_u8(&mut e, 5).unwrap();
    assert!(is_other(&e, 0xAC, [5, 1, 2, 3, 4]));
}

#[test]
fn xml_booleans_read_as_words_or_digits() {
    assert_eq!(dse::codec::xml_bool("true"), Some(true));
    assert_eq!(dse::codec::xml_bool("1"), Some(true));
    assert_eq!(dse::codec::xml_bool("false"), Some(false));
    assert_eq!(dse::codec::xml_bool("0"), Some(false));
    assert_eq!(dse::codec::xml_bool(" true"), None);
    assert_eq!(dse::codec::xml_bool("yes"), None);
}

#[test]
fn xml_booleans_that_are_no_boolean_are_named_in_the_message() {
    assert_eq!(dse::codec::parse_xml_bool("true"), Ok(true));
    assert_eq!(dse::codec::parse_xml_bool("1"), Ok(true));
    assert_eq!(dse::codec::parse_xml_bool("false"), Ok(false));
    assert_eq!(dse::codec::parse_xml_bool("0"), Ok(false));
    assert_eq!(dse::codec::parse_xml_bool("True"), Err("\"True\" is not a valid bool".to_string()));
    assert!(dse::codec::parse_xml_bool("yes").is_err());
}
