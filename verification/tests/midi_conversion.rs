use dse::dtype::{DSEError, DSELinkBytes};
use dse::smdl::create_smdl_shell;
use dse::smdl::events::Other;
use dse::smdl::midi::TrkChunkWriter;
use dse::smdl::sequence::{
    assign_program_ids_by_bank, bank_ids_fit, closed_tracks, get_midi_messages_flattened, get_midi_tpb, marker_action, midi_conversion_halts, midi_pairs_fit,
    tool_writers, try_copy_midi_messages, used_ids_fit, used_program_ids, midi_to_tracks, MarkerAction, MidiEvent, MidiEventKind,
    MidiFormat, MidiMessage, MidiTiming,
};
use dse::smdl::DSEEvent;
use dse::smdl::smf::open_midi;

fn ev(delta: u32, kind: MidiEventKind) -> MidiEvent {
    MidiEvent { delta, kind }
}

fn midi(delta: u32, channel: u8, message: MidiMessage) -> MidiEvent {
    ev(delta, MidiEventKind::Midi { channel, message })
}

fn marker(delta: u32, text: &str) -> MidiEvent {
    ev(delta, MidiEventKind::Marker(text.as_bytes().to_vec()))
}

fn is_other(e: &DSEEvent, code: u8, params: [u8; 5]) -> bool {
    match e {
        DSEEvent::Other(o) => o.code == code && o.parameters == params,
        _ => false,
    }
}

fn others(w: &TrkChunkWriter) -> Vec<(u8, [u8; 5])> {
    w.trk_events
        .iter()
        .filter_map(|e| match e {
            DSEEvent::Other(Other { code, parameters }) => Some((*code, *parameters)),
            _ => None,
        })
        .collect()
}

#[test]
fn tpb_of_timing() {
    assert_eq!(get_midi_tpb(MidiTiming::Metrical(480)).unwrap(), 480);
    assert!(matches!(get_midi_tpb(MidiTiming::Timecode), Err(DSEError::DSESmfUnsupportedTimingSpecifier())));
}

#[test]
fn markers_ask_for_actions() {
    assert!(matches!(marker_action(b"  LoopStart "), MarkerAction::LoopStart));
    assert!(matches!(marker_action(b"loopend"), MarkerAction::LoopEnd));
    assert!(matches!(marker_action(b"LOOPENDNORESET"), MarkerAction::LoopEndNoReset));
    assert!(matches!(marker_action(b"Signal(12)"), MarkerAction::Signal(Some(12))));
    assert!(matches!(marker_action(b"signal ( 7 )"), MarkerAction::Signal(Some(7))));
    assert!(matches!(marker_action(b"signal(300)"), MarkerAction::Signal(None)));
    match marker_action(b" dsec  trk 2; SetTempo(100)") {
        MarkerAction::Dsec(c) => assert_eq!(c.iter().collect::<String>(), "trk 2; SetTempo(100)"),
        _ => panic!("expected dsec"),
    }
    // "dsec" is read as written, not in lower case
    assert!(matches!(marker_action(b"DSEC trk 1"), MarkerAction::Ignore));
    assert!(matches!(marker_action(b"verse"), MarkerAction::Ignore));
    assert!(matches!(marker_action(&[0xFF, 0xFE]), MarkerAction::Ignore));
}

#[test]
fn one_note_song() {
    let evs = vec![
        midi(0, 0, MidiMessage::NoteOn { key: 60, vel: 100 }),
        midi(48, 0, MidiMessage::NoteOff { key: 60, vel: 0 }),
    ];
    let (trks, ids) = midi_to_tracks(&evs, (7, 9)).unwrap();
    assert_eq!(trks.len(), 17);
    // track 1 has program 0:0 (id 0), track 10 the drums 128:0 (id 1)
    assert_eq!(ids, vec![(0, 0), (128, 0)]);
    let t1 = &trks[1];
    assert_eq!((t1.trkid, t1.chanid), (1, 0));
    assert!(is_other(&t1.trk_events[0], 0xE3, [100, 0, 0, 0, 0]));
    assert!(is_other(&t1.trk_events[1], 0xA9, [9, 0, 0, 0, 0]));
    assert!(is_other(&t1.trk_events[2], 0xAA, [7, 0, 0, 0, 0]));
    assert!(is_other(&t1.trk_events[3], 0xAC, [0, 0, 0, 0, 0]));
    assert!(is_other(&t1.trk_events[4], 0xA0, [5, 0, 0, 0, 0]));
    match &t1.trk_events[5] {
        DSEEvent::PlayNote(n) => assert_eq!((n.velocity, n.octavemod, n.note, n.keydownduration), (100, 2, 0, 48)),
        e => panic!("unexpected {:?}", e),
    }
    assert!(is_other(&t1.trk_events[6], 0x92, [48, 0, 0, 0, 0]));
    assert_eq!(t1.trk_events.len(), 7);
    // every track ends at the last tick
    for t in &trks {
        assert_eq!(t.current_global_tick, 48);
    }
    assert!(is_other(&trks[10].trk_events[3], 0xAC, [1, 0, 0, 0, 0]));
    assert_eq!(others(&trks[0]), vec![(0xE3, [100, 0, 0, 0, 0]), (0x92, [48, 0, 0, 0, 0])]);
}

#[test]
fn drums_keep_their_bank_when_selected() {
    let evs = vec![midi(0, 9, MidiMessage::ProgramChange { program: 3 })];
    let (trks, ids) = midi_to_tracks(&evs, (0, 0)).unwrap();
    // the default selection of track 10 is 0:0, then the change at the
    // same tick takes it back
    assert_eq!(ids, vec![(0, 0), (0, 3)]);
    assert!(is_other(&trks[10].trk_events[3], 0xAC, [1, 0, 0, 0, 0]));
    assert_eq!(trks[10].programs_used().len(), 1);
    assert_eq!(trks[10].programs_used()[0].program, 3);
}

#[test]
fn controllers_tempo_and_bend() {
    let evs = vec![
        midi(0, 2, MidiMessage::Controller { controller: 7, value: 90 }),
        midi(0, 2, MidiMessage::Controller { controller: 10, value: 64 }),
        midi(0, 2, MidiMessage::Controller { controller: 11, value: 80 }),
        midi(0, 2, MidiMessage::Controller { controller: 64, value: 127 }),
        midi(0, 2, MidiMessage::PitchBend { bend: -2 }),
        midi(0, 2, MidiMessage::Aftertouch { key: 1, vel: 2 }),
        ev(0, MidiEventKind::Tempo(500_000)),
        ev(0, MidiEventKind::Tempo(0)),
        ev(0, MidiEventKind::Tempo(700_000)),
    ];
    let (trks, _) = midi_to_tracks(&evs, (0, 0)).unwrap();
    let t3 = others(&trks[3]);
    assert_eq!(&t3[4..], &[(0xE0, [90, 0, 0, 0, 0]), (0xE8, [64, 0, 0, 0, 0]), (0xE3, [80, 0, 0, 0, 0]), (0xD7, [0xFF, 0xFE, 0, 0, 0])]);
    let t0 = others(&trks[0]);
    // 60e6 / 700000 = 85.71 rounds to 86
    assert_eq!(&t0[1..], &[(0xA4, [120, 0, 0, 0, 0]), (0xA4, [255, 0, 0, 0, 0]), (0xA4, [86, 0, 0, 0, 0])]);
}

#[test]
fn loop_markers() {
    let evs = vec![
        marker(10, "LoopStart"),
        midi(5, 0, MidiMessage::NoteOn { key: 12, vel: 1 }),
        marker(20, "loopend"),
        midi(5, 0, MidiMessage::NoteOn { key: 13, vel: 1 }),
    ];
    let (trks, _) = midi_to_tracks(&evs, (0, 0)).unwrap();
    for t in &trks {
        assert_eq!(t.current_global_tick, 35);
        assert_eq!(others(t).iter().filter(|(c, _)| *c == 0x99).count(), 1);
    }
    match &trks[1].trk_events[8] {
        DSEEvent::PlayNote(n) => assert_eq!((n.note, n.keydownduration), (0, 20)),
        e => panic!("unexpected {:?}", e),
    }
    // nothing after the loop end was copied
    assert_eq!(trks[1].trk_events.iter().filter(|e| matches!(e, DSEEvent::PlayNote(_))).count(), 1);
}

#[test]
fn signal_markers_fail() {
    let evs = vec![marker(0, "Signal(x)")];
    match midi_to_tracks(&evs, (0, 0)) {
        Err(DSEError::Invalid(m)) => assert_eq!(m, "MIDI Marker 'Signal(n)' must have a uint8 as its parameter!"),
        other => panic!("unexpected {:?}", other.err()),
    }
    let evs = vec![marker(0, "Signal(4)")];
    match midi_to_tracks(&evs, (0, 0)) {
        Err(DSEError::DSEEventNameLookupError(n)) => assert_eq!(n, "Signal"),
        other => panic!("unexpected {:?}", other.err()),
    }
}

#[test]
fn dsec_commands_add_events() {
    let evs = vec![marker(3, "dsec trk 2; SetTrackVolume(100); evttrk; SetTempo(0x78); trk 5; 0xA9(7_u8)")];
    let (trks, _) = midi_to_tracks(&evs, (0, 0)).unwrap();
    let t2 = others(&trks[2]);
    assert!(t2.contains(&(0xE0, [100, 0, 0, 0, 0])));
    let t0 = others(&trks[0]);
    assert!(t0.contains(&(0xA4, [0x78, 0, 0, 0, 0])));
    let t5 = others(&trks[5]);
    assert!(t5.contains(&(0xA9, [7, 0, 0, 0, 0])));
}

#[test]
fn dsec_typed_arguments() {
    let evs = vec![marker(0, "dsec trk 1; PitchBend(-2_i16be)")];
    let (trks, _) = midi_to_tracks(&evs, (0, 0)).unwrap();
    assert!(others(&trks[1]).contains(&(0xD7, [0xFF, 0xFE, 0, 0, 0])));
    let evs = vec![marker(0, "dsec trk 1; PitchBend(0x10_u16le)")];
    let (trks, _) = midi_to_tracks(&evs, (0, 0)).unwrap();
    assert!(others(&trks[1]).contains(&(0xD7, [0x10, 0, 0, 0, 0])));
}

#[test]
fn dsec_command_errors() {
    match midi_to_tracks(&vec![marker(0, "dsec SetTempo(1, 2)")], (0, 0)) {
        Err(DSEError::InvalidDSECommandArguments(c, n, name, m)) => {
            assert_eq!((c.as_str(), n, name.as_str(), m), ("SetTempo(1, 2)", 2, "SetTempo", 1));
        },
        other => panic!("unexpected {:?}", other.err()),
    }
    match midi_to_tracks(&vec![marker(0, "dsec SetTempo(1")], (0, 0)) {
        Err(DSEError::InvalidDSECommand(c, m)) => {
            assert_eq!((c.as_str(), m.as_str()), ("SetTempo(1", "Opening parentheses must be closed!!"));
        },
        other => panic!("unexpected {:?}", other.err()),
    }
    match midi_to_tracks(&vec![marker(0, "dsec SetTempo(zz)")], (0, 0)) {
        Err(DSEError::InvalidDSECommand(c, m)) => {
            assert_eq!((c.as_str(), m.as_str()), ("SetTempo(zz)", "Value 'zz' could not be parsed!"));
        },
        other => panic!("unexpected {:?}", other.err()),
    }
    match midi_to_tracks(&vec![marker(0, "dsec SetTempo(300_u8)")], (0, 0)) {
        Err(DSEError::InvalidDSECommandTypedArgument(c, a, t)) => {
            assert_eq!((c.as_str(), a.as_str(), t.as_str()), ("SetTempo(300_u8)", "300_u8", "u8"));
        },
        other => panic!("unexpected {:?}", other.err()),
    }
    match midi_to_tracks(&vec![marker(0, "dsec trk x")], (0, 0)) {
        Err(DSEError::InvalidDSECommandFailedToParseTrkChange(c)) => assert_eq!(c, "trk x"),
        other => panic!("unexpected {:?}", other.err()),
    }
    match midi_to_tracks(&vec![marker(0, "dsec 5")], (0, 0)) {
        Err(DSEError::DSEEventLookupError(c)) => assert_eq!(c, 5),
        other => panic!("unexpected {:?}", other.err()),
    }
    match midi_to_tracks(&vec![marker(0, "dsec Frobnicate")], (0, 0)) {
        Err(DSEError::DSEEventNameLookupError(n)) => assert_eq!(n, "Frobnicate"),
        other => panic!("unexpected {:?}", other.err()),
    }
}

#[test]
fn notes_held_too_long_fail_the_song() {
    let evs = vec![
        midi(0, 0, MidiMessage::NoteOn { key: 60, vel: 100 }),
        midi(0x0100_0000, 0, MidiMessage::NoteOff { key: 60, vel: 0 }),
    ];
    assert!(matches!(midi_to_tracks(&evs, (0, 0)), Err(DSEError::DSESmfNotesTooLong())));
}

#[test]
fn flatten_single_track() {
    let t = vec![vec![midi(5, 3, MidiMessage::NoteOn { key: 1, vel: 1 })]];
    let f = get_midi_messages_flattened(MidiFormat::SingleTrack, &t).unwrap();
    assert_eq!(f.len(), 1);
    assert_eq!(f[0].delta, 5);
    assert!(matches!(f[0].kind, MidiEventKind::Midi { channel: 3, .. }));
    assert!(matches!(get_midi_messages_flattened(MidiFormat::Sequential, &t), Err(DSEError::DSESequencialSmfUnsupported())));
}

#[test]
fn flatten_parallel_tracks() {
    let tracks = vec![
        vec![ev(0, MidiEventKind::Tempo(500_000)), marker(30, "x")],
        vec![midi(10, 7, MidiMessage::NoteOn { key: 1, vel: 1 }), midi(20, 7, MidiMessage::NoteOff { key: 1, vel: 0 })],
        vec![midi(15, 0, MidiMessage::NoteOn { key: 2, vel: 1 })],
    ];
    let f = get_midi_messages_flattened(MidiFormat::Parallel, &tracks).unwrap();
    let ticks_and_channels: Vec<(u32, Option<u8>)> = f
        .iter()
        .map(|e| (e.delta, match e.kind {
            MidiEventKind::Midi { channel, .. } => Some(channel),
            _ => None,
        }))
        .collect();
    // the first track holds meta events only, so track 1 is channel 0
    // the note off at tick 30 goes before the marker of the same tick
    assert_eq!(ticks_and_channels, vec![(0, None), (10, Some(0)), (5, Some(1)), (15, Some(0)), (0, None)]);
}

#[test]
fn flatten_too_many_tracks() {
    let mut tracks = Vec::new();
    for _ in 0..17 {
        tracks.push(vec![midi(0, 0, MidiMessage::NoteOn { key: 1, vel: 1 })]);
    }
    assert!(matches!(get_midi_messages_flattened(MidiFormat::Parallel, &tracks), Err(DSEError::DSESmf0TooManyTracks())));
}

#[test]
fn flatten_messages_too_far_apart() {
    let tracks = vec![vec![ev(0, MidiEventKind::OtherMeta)], vec![ev(0x0FFF_FFFF, MidiEventKind::OtherMeta), ev(1, MidiEventKind::OtherMeta)]];
    let f = get_midi_messages_flattened(MidiFormat::Parallel, &tracks).unwrap();
    assert_eq!(f.iter().map(|e| e.delta).collect::<Vec<_>>(), vec![0, 0x0FFF_FFFF, 1]);
    let tracks = vec![vec![ev(0, MidiEventKind::OtherMeta)], vec![ev(0x0FFF_FFFF, MidiEventKind::OtherMeta), ev(0x0FFF_FFFF, MidiEventKind::OtherMeta)], vec![ev(0x1000_0000, MidiEventKind::SysEx)]];
    let f = get_midi_messages_flattened(MidiFormat::Parallel, &tracks).unwrap();
    assert_eq!(f.len(), 4);
    let tracks = vec![vec![ev(0, MidiEventKind::OtherMeta)], vec![ev(0x1000_0000, MidiEventKind::OtherMeta)]];
    assert!(matches!(get_midi_messages_flattened(MidiFormat::Parallel, &tracks), Err(DSEError::DSESmf0MessagesTooFarApart())));
}

#[test]
fn song_from_midi() {
    let mut smdl = create_smdl_shell((2024, 1, 2, 3, 4, 5, 6), "song.SMD".to_string()).unwrap();
    let evs = vec![
        midi(0, 0, MidiMessage::NoteOn { key: 60, vel: 100 }),
        midi(48, 0, MidiMessage::NoteOff { key: 60, vel: 0 }),
    ];
    let (ids, used) = smdl.from_midi_once(MidiTiming::Metrical(96), &evs, (1, 2)).unwrap();
    assert_eq!(ids, vec![(0, 0), (128, 0)]);
    assert_eq!(used.len(), 17);
    assert_eq!(used[1].len(), 1);
    assert_eq!(used[1][0].notes, vec![(60, 100)]);
    assert_eq!(smdl.song.tpqn, 96);
    assert_eq!(smdl.get_link_bytes(), (1, 2));
    assert_eq!(smdl.trks.objects.len(), 17);
    assert_eq!(smdl.song.nbtrks, 17);
    assert_eq!(smdl.song.nbchans, 16);
    assert!(smdl.trks.objects[1].events.events.last().unwrap().is_eot_event());
    let mut other = create_smdl_shell((2024, 1, 2, 3, 4, 5, 6), "song.SMD".to_string()).unwrap();
    assert!(matches!(other.from_midi_once(MidiTiming::Timecode, &evs, (1, 2)), Err(DSEError::DSESmfUnsupportedTimingSpecifier())));
}

#[test]
fn few_program_pairs_fit_in_a_byte() {
    let evs = vec![midi(0, 0, MidiMessage::ProgramChange { program: 5 }), midi(10, 1, MidiMessage::ProgramChange { program: 6 })];
    assert!(midi_pairs_fit(&evs, (0, 0)));
    let (_, ids) = midi_to_tracks(&evs, (0, 0)).unwrap();
    assert!(ids.len() <= 255);
}

#[test]
fn too_many_program_pairs_do_not_fit_in_a_byte() {
    let mut evs = Vec::new();
    for bank in 0u8..3 {
        evs.push(midi(0, 0, MidiMessage::Controller { controller: 0, value: bank }));
        for program in 0u8..128 {
            evs.push(midi(1, 0, MidiMessage::ProgramChange { program }));
        }
    }
    assert!(!midi_pairs_fit(&evs, (0, 0)));
}

fn small_midi_file() -> Vec<u8> {
    let mut b = b"MThd".to_vec();
    b.extend_from_slice(&[0, 0, 0, 6, 0, 0, 0, 1, 0, 96]);
    b.extend_from_slice(b"MTrk");
    b.extend_from_slice(&[0, 0, 0, 12]);
    b.extend_from_slice(&[0x00, 0x90, 0x3C, 0x64, 0x60, 0x80, 0x3C, 0x00, 0x00, 0xFF, 0x2F, 0x00]);
    b
}

#[test]
fn midi_bytes_are_parsed_into_events() {
    let m = open_midi(&small_midi_file()).unwrap();
    assert_eq!(m.format, MidiFormat::SingleTrack);
    assert_eq!(m.timing, MidiTiming::Metrical(96));
    assert_eq!(m.tracks.len(), 1);
    let t = &m.tracks[0];
    assert_eq!(t.len(), 3);
    assert_eq!(t[0].delta, 0);
    assert!(matches!(t[0].kind, MidiEventKind::Midi { channel: 0, message: MidiMessage::NoteOn { key: 60, vel: 100 } }));
    assert_eq!(t[1].delta, 96);
    assert!(matches!(t[1].kind, MidiEventKind::Midi { channel: 0, message: MidiMessage::NoteOff { key: 60, vel: 0 } }));
    assert!(matches!(t[2].kind, MidiEventKind::OtherMeta));
}

#[test]
fn bytes_that_are_no_midi_file_are_refused() {
    assert!(matches!(open_midi(b"not a midi file"), Err(DSEError::SmfParseError(_))));
}

#[test]
fn conversions_that_halt_are_told_apart() {
    let notes = vec![
        midi(0, 0, MidiMessage::NoteOn { key: 60, vel: 100 }),
        midi(48, 0, MidiMessage::NoteOff { key: 60, vel: 0 }),
    ];
    assert!(!midi_conversion_halts(&notes, (0, 0)));
    // a dsec event sent to track 17, past the 17 tracks 0 to 16
    assert!(midi_conversion_halts(&vec![marker(0, "dsec trk 17; SetTrackVolume(1)")], (0, 0)));
    // selecting track 17 alone adds no event there
    assert!(!midi_conversion_halts(&vec![marker(0, "dsec trk 17")], (0, 0)));
    assert!(!midi_conversion_halts(&vec![marker(0, "dsec trk 16; SetTrackVolume(1)")], (0, 0)));
    // channel 16 goes to track 17
    assert!(midi_conversion_halts(&vec![midi(0, 16, MidiMessage::Controller { controller: 7, value: 1 })], (0, 0)));
    // the command is cut at byte 3, inside the second character
    assert!(midi_conversion_halts(&vec![marker(0, "dsec \u{e9}\u{e9}(1)")], (0, 0)));
    // a failure before the halting event ends the conversion first
    assert!(!midi_conversion_halts(&vec![marker(0, "dsec Frobnicate"), marker(0, "dsec trk 17; SetTrackVolume(1)")], (0, 0)));
}

#[test]
fn merged_stream_holds_every_event_once_in_tick_order() {
    let tracks = vec![
        vec![midi(5, 3, MidiMessage::NoteOn { key: 10, vel: 2 }), midi(5, 3, MidiMessage::NoteOff { key: 10, vel: 0 })],
        vec![midi(7, 9, MidiMessage::NoteOn { key: 20, vel: 3 }), midi(1, 9, MidiMessage::NoteOff { key: 20, vel: 0 })],
        vec![midi(0, 4, MidiMessage::NoteOn { key: 30, vel: 4 })],
    ];
    let f = get_midi_messages_flattened(MidiFormat::Parallel, &tracks).unwrap();
    let mut tick = 0u32;
    let mut seen: Vec<(u32, u8, u8)> = Vec::new();
    for e in &f {
        tick += e.delta;
        match e.kind {
            MidiEventKind::Midi { channel, message: MidiMessage::NoteOn { key, .. } } => seen.push((tick, channel, key)),
            MidiEventKind::Midi { channel, message: MidiMessage::NoteOff { key, .. } } => seen.push((tick, channel, key + 100)),
            _ => panic!("unexpected event"),
        }
    }
    // every note at its own tick, on the channel of its track, each once
    let mut expected = vec![(5, 0, 10), (10, 0, 110), (7, 1, 20), (8, 1, 120), (0, 2, 30)];
    let mut sorted_seen = seen.clone();
    sorted_seen.sort();
    expected.sort();
    assert_eq!(sorted_seen, expected);
    // and the ticks never go down
    assert!(seen.windows(2).all(|w| w[0].0 <= w[1].0));
}

#[test]
fn copy_ends_at_the_first_loop_end() {
    let evs = vec![
        midi(4, 0, MidiMessage::NoteOn { key: 12, vel: 1 }),
        marker(6, "LoopEndNoReset"),
        marker(9, "loopend"),
    ];
    let (trks, _) = midi_to_tracks(&evs, (0, 0)).unwrap();
    for t in &trks {
        assert_eq!(t.current_global_tick, 10);
    }
    let evs = vec![midi(4, 0, MidiMessage::NoteOn { key: 12, vel: 1 }), midi(7, 0, MidiMessage::NoteOff { key: 12, vel: 0 })];
    let (trks, _) = midi_to_tracks(&evs, (0, 0)).unwrap();
    for t in &trks {
        assert_eq!(t.current_global_tick, 11);
    }
}

#[test]
fn program_changes_mapped_by_bank_keep_their_numbers() {
    let evs = vec![
        midi(0, 0, MidiMessage::ProgramChange { program: 5 }),
        midi(0, 1, MidiMessage::Controller { controller: 0, value: 1 }),
        midi(10, 1, MidiMessage::ProgramChange { program: 3 }),
    ];
    let (mut trks, mut reqs) = tool_writers((4, 6));
    assert_eq!(trks.len(), 17);
    assert_eq!(try_copy_midi_messages(&evs, &mut trks, &mut reqs).unwrap().unwrap(), 10);
    // before the mapping every SetProgram event waits with 0
    assert_eq!(others(&trks[1]).iter().filter(|(c, _)| *c == 0xAC).count(), 1);
    assert!(bank_ids_fit(&reqs));
    assert_eq!(reqs[1].len() + reqs[2].len(), 3);
    assign_program_ids_by_bank(&mut trks, &reqs);
    let set_programs = |t: usize| -> Vec<u8> { others(&trks[t]).iter().filter(|(c, _)| *c == 0xAC).map(|(_, p)| p[0]).collect() };
    assert_eq!(set_programs(1), vec![5]);
    assert_eq!(set_programs(2), vec![128, 131]);
    assert!(used_ids_fit(&trks));
    assert_eq!(used_program_ids(&trks), vec![5, 128, 131]);
    let chunks = closed_tracks(trks);
    assert_eq!(chunks.len(), 17);
    for (k, c) in chunks.iter().enumerate() {
        assert_eq!((c.preamble.trkid as usize, c.preamble.chanid as usize), (k, k));
    }
}

#[test]
fn program_pairs_past_a_byte_have_no_bank_number() {
    let evs = vec![midi(0, 0, MidiMessage::Controller { controller: 0, value: 2 })];
    let (mut trks, mut reqs) = tool_writers((0, 0));
    assert_eq!(try_copy_midi_messages(&evs, &mut trks, &mut reqs).unwrap().unwrap(), 0);
    assert!(!bank_ids_fit(&reqs));
    assert!(!used_ids_fit(&trks));
}
