use dse::codec::DataReader;
use dse::dtype::ReadWrite;
use dse::smdl::events::{FixedDurationPause, Other, PlayNote};
use dse::smdl::{create_smdl_shell, DSEEvent, TrkChunk, SMDL};
use dse::swdl::{
    create_swdl_shell, KGRPChunk, Keygroup, LFOEntry, PCMDChunk, PRGIChunk, ProgramInfo, SampleInfo, SplitEntry, SWDL,
};

fn note(velocity: u8, nb: u8, octavemod: u8, key: u8, duration: u32) -> PlayNote {
    PlayNote { velocity, _nbparambytes: nb, octavemod, note: key, keydownduration: duration }
}

#[test]
fn note_reads_back_with_fewest_duration_bytes() {
    let n = note(0x40, 3, 2, 5, 10);
    let mut out = Vec::new();
    assert_eq!(n.write_to_file(&mut out).unwrap(), 3);
    assert_eq!(out, vec![0x40, 0x65, 0x0A]);
    let mut back = PlayNote::default();
    let mut r = DataReader::new(&out);
    back.read_from_file(&mut r).unwrap();
    assert_eq!(back, note(0x40, 1, 2, 5, 10));
    assert_eq!(r.pos, 3);
}

#[test]
fn note_without_duration_takes_two_bytes() {
    let n = note(0x7F, 0, 3, 15, 0);
    let mut out = Vec::new();
    n.write_to_file(&mut out).unwrap();
    assert_eq!(out, vec![0x7F, 0x3F]);
    let mut back = PlayNote::default();
    back.read_from_file(&mut DataReader::new(&out)).unwrap();
    assert_eq!(back, n);
}

#[test]
fn other_event_reads_back_the_parameters_its_code_takes() {
    let e = Other { code: 0xE0, parameters: [7, 8, 9, 1, 2] };
    let mut out = Vec::new();
    e.write_to_file(&mut out).unwrap();
    assert_eq!(out, vec![0xE0, 7]);
    let mut back = Other::default();
    back.read_from_file(&mut DataReader::new(&out)).unwrap();
    assert_eq!(back, Other { code: 0xE0, parameters: [7, 0, 0, 0, 0] });
}

#[test]
fn song_reads_back_after_its_markers_are_regenerated() {
    let mut s = create_smdl_shell((2021, 6, 7, 8, 9, 10, 11), "tune.smd".to_string()).unwrap();
    let tracks: Vec<Vec<DSEEvent>> = vec![
        vec![
            DSEEvent::Other(Other { code: 0xE0, parameters: [100, 0, 0, 0, 0] }),
            DSEEvent::PlayNote(note(0x50, 2, 1, 4, 48)),
            DSEEvent::FixedDurationPause(FixedDurationPause { duration: 0x85 }),
            DSEEvent::PlayNote(note(0x60, 0, 2, 7, 0x1234)),
            DSEEvent::Other(Other { code: 0x98, parameters: [0; 5] }),
        ],
        vec![
            DSEEvent::Other(Other { code: 0xA4, parameters: [120, 0, 0, 0, 0] }),
            DSEEvent::Other(Other { code: 0x98, parameters: [0; 5] }),
        ],
    ];
    for (i, evs) in tracks.iter().enumerate() {
        let mut t = TrkChunk::default();
        t.preamble.trkid = i as u8;
        t.preamble.chanid = i as u8;
        t.events.events = evs.clone();
        s.trks.objects.push(t);
    }
    s.regenerate_read_markers().unwrap();
    let mut out = Vec::new();
    s.write_to_file(&mut out).unwrap();
    out.extend_from_slice(&[1, 2, 3]);
    let mut back = SMDL::default();
    back.read_from_file(&mut DataReader::new(&out)).unwrap();
    assert_eq!(back.header, s.header);
    assert_eq!(back.song, s.song);
    assert_eq!(back.eoc, s.eoc);
    assert_eq!(back.trks.objects.len(), 2);
    for i in 0..2 {
        let (a, b) = (&s.trks.objects[i], &back.trks.objects[i]);
        assert_eq!(a.header, b.header);
        assert_eq!(a.preamble, b.preamble);
        assert_eq!(b.events._read_n, a.header.chunklen as u64);
    }
    let mut first = tracks[0].clone();
    first[1] = DSEEvent::PlayNote(note(0x50, 1, 1, 4, 48));
    first[3] = DSEEvent::PlayNote(note(0x60, 2, 2, 7, 0x1234));
    assert_eq!(back.trks.objects[0].events.events, first);
    assert_eq!(back.trks.objects[1].events.events, tracks[1]);
    assert_eq!(back.trks.objects[0]._padding, vec![0x98]);
    assert_eq!(back.trks.objects[1]._padding, vec![0x98]);
}

#[test]
fn bank_reads_back_after_its_markers_are_regenerated() {
    let mut s = create_swdl_shell((2024, 2, 3, 4, 5, 6, 7), "bank.swd".to_string()).unwrap();
    for (id, beg) in [(0u16, 4u32), (2, 9)] {
        let mut x = SampleInfo::default();
        x.id = id;
        x.loopbeg = beg;
        x.looplen = 3;
        s.wavi.data.objects.push(x);
    }
    let mut prgi = PRGIChunk::new(0);
    for id in [1u16, 3] {
        let mut p = ProgramInfo::default();
        p.header.id = id;
        p.header.PadByte = 0xAA;
        let mut l = LFOEntry::default();
        l.rate = 5 + id;
        p.lfo_table.objects.push(l);
        let mut sp = SplitEntry::default();
        sp.lowkey = 10;
        sp.hikey = 20 + id as i8;
        p.splits_table.objects.push(sp);
        prgi.data.objects.push(p);
    }
    s.prgi = Some(prgi);
    let mut kgrp = KGRPChunk::default();
    for id in 0u16..3 {
        let mut k = Keygroup::default();
        k.id = id;
        kgrp.data.objects.push(k);
    }
    s.kgrp = Some(kgrp);
    let mut pcmd = PCMDChunk::default();
    pcmd.data = vec![1, 2, 3, 4, 5];
    s.pcmd = Some(pcmd);
    s.regenerate_read_markers::<u16, u16>().unwrap();
    let mut out = Vec::new();
    s.write_to_file::<u16, u16>(&mut out).unwrap();
    assert_eq!(out.len(), s.header.flen as usize);
    let mut back = SWDL::default();
    back.read_from_file::<u16, u16>(&mut DataReader::new(&out)).unwrap();
    assert_eq!(back.header, s.header);
    assert_eq!(back.wavi.header, s.wavi.header);
    assert_eq!(back.wavi.data.objects, s.wavi.data.objects);
    let (p, q) = (s.prgi.as_ref().unwrap(), back.prgi.as_ref().unwrap());
    assert_eq!(q.header, p.header);
    assert_eq!(q.data.objects.len(), 2);
    for i in 0..2 {
        assert_eq!(q.data.objects[i].header, p.data.objects[i].header);
        assert_eq!(q.data.objects[i].header.nbsplits, 1);
        assert_eq!(q.data.objects[i].lfo_table.objects, p.data.objects[i].lfo_table.objects);
        assert_eq!(q.data.objects[i].splits_table.objects, p.data.objects[i].splits_table.objects);
        assert_eq!(q.data.objects[i]._delimiter.delimiter, [0xAA; 16]);
    }
    let (k, kb) = (s.kgrp.as_ref().unwrap(), back.kgrp.as_ref().unwrap());
    assert_eq!(kb.header, k.header);
    assert_eq!(kb.data.objects, k.data.objects);
    assert_eq!(kb._padding.as_ref().unwrap().delimiter, [0x67, 0xC0, 0x40, 0x00, 0x88, 0x00, 0xFF, 0x04]);
    let (c, cb) = (s.pcmd.as_ref().unwrap(), back.pcmd.as_ref().unwrap());
    assert_eq!(cb.header, c.header);
    assert_eq!(cb.data, vec![1, 2, 3, 4, 5]);
    assert_eq!(cb._padding, vec![0; 11]);
    assert_eq!(back._eod.label, 0x20646F65);
}

#[test]
fn note_read_and_written_keeps_its_bytes_when_shortest() {
    let bytes = vec![0x40, 0x45, 0x0A];
    let mut n = PlayNote::default();
    n.read_from_file(&mut DataReader::new(&bytes)).unwrap();
    let mut out = Vec::new();
    n.write_to_file(&mut out).unwrap();
    assert_eq!(out, bytes);
}

#[test]
fn note_read_with_extra_duration_bytes_is_written_shorter() {
    let bytes = vec![0x40, 0xC5, 0x00, 0x00, 0x0A];
    let mut n = PlayNote::default();
    n.read_from_file(&mut DataReader::new(&bytes)).unwrap();
    assert_eq!(n, note(0x40, 3, 0, 5, 10));
    let mut out = Vec::new();
    n.write_to_file(&mut out).unwrap();
    assert_eq!(out, vec![0x40, 0x45, 0x0A]);
}

#[test]
fn song_bytes_read_and_written_are_unchanged() {
    let mut s = create_smdl_shell((2020, 1, 2, 3, 4, 5, 6), "again.smd".to_string()).unwrap();
    let mut t = TrkChunk::default();
    t.preamble.chanid = 2;
    t.events.events = vec![
        DSEEvent::PlayNote(note(0x30, 0, 1, 2, 300)),
        DSEEvent::FixedDurationPause(FixedDurationPause { duration: 0x8A }),
        DSEEvent::Other(Other { code: 0x98, parameters: [0; 5] }),
    ];
    s.trks.objects.push(t);
    s.regenerate_read_markers().unwrap();
    let mut first = Vec::new();
    s.write_to_file(&mut first).unwrap();
    let mut back = SMDL::default();
    back.read_from_file(&mut DataReader::new(&first)).unwrap();
    let mut second = Vec::new();
    back.write_to_file(&mut second).unwrap();
    assert_eq!(first, second);
}

#[test]
fn automatic_parameters_regenerated_twice_are_those_of_once() {
    let mut s = create_swdl_shell((2024, 1, 1, 0, 0, 0, 0), "auto.swd".to_string()).unwrap();
    let mut x = SampleInfo::default();
    x.rootkey = 48;
    s.wavi.data.objects.push(x);
    let mut prgi = PRGIChunk::new(0);
    let mut p = ProgramInfo::default();
    p.header.PadByte = 0x11;
    let mut sp = SplitEntry::default();
    sp.lowkey = 3;
    sp.hikey = 90;
    sp.rootkey = 72;
    p.splits_table.objects.push(sp);
    prgi.data.objects.push(p);
    s.prgi = Some(prgi);
    s.regenerate_automatic_parameters().unwrap();
    let once_samples = s.wavi.data.objects.clone();
    let once_splits = s.prgi.as_ref().unwrap().data.objects[0].splits_table.objects.clone();
    assert_eq!(once_samples[0].ktps, 12);
    assert_eq!(once_splits[0].ktps, -12);
    assert_eq!(once_splits[0].lowkey2, 3);
    assert_eq!(once_splits[0].unk17, 0x1111);
    s.regenerate_automatic_parameters().unwrap();
    assert_eq!(s.wavi.data.objects, once_samples);
    assert_eq!(s.prgi.as_ref().unwrap().data.objects[0].splits_table.objects, once_splits);
}

#[test]
fn bank_bytes_read_and_written_are_unchanged() {
    let mut s = create_swdl_shell((2024, 2, 3, 4, 5, 6, 7), "again.swd".to_string()).unwrap();
    for (id, beg) in [(1u16, 4u32), (4, 9)] {
        let mut x = SampleInfo::default();
        x.id = id;
        x.loopbeg = beg;
        x.looplen = 3;
        s.wavi.data.objects.push(x);
    }
    let mut prgi = PRGIChunk::new(0);
    let mut p = ProgramInfo::default();
    p.header.id = 2;
    p.header.PadByte = 0x55;
    let mut sp = SplitEntry::default();
    sp.lowkey = 10;
    sp.hikey = 40;
    p.splits_table.objects.push(sp);
    prgi.data.objects.push(p);
    s.prgi = Some(prgi);
    let mut kgrp = KGRPChunk::default();
    kgrp.data.objects.push(Keygroup::default());
    s.kgrp = Some(kgrp);
    let mut pcmd = PCMDChunk::default();
    pcmd.data = vec![9, 8, 7];
    s.pcmd = Some(pcmd);
    s.regenerate_read_markers::<u32, u16>().unwrap();
    let mut first = Vec::new();
    s.write_to_file::<u32, u16>(&mut first).unwrap();
    let mut back = SWDL::default();
    back.read_from_file::<u32, u16>(&mut DataReader::new(&first)).unwrap();
    let mut second = Vec::new();
    back.write_to_file::<u32, u16>(&mut second).unwrap();
    assert_eq!(first, second);
}

#[test]
fn bank_markers_regenerated_twice_are_those_of_once() {
    let mut s = create_swdl_shell((2023, 5, 6, 7, 8, 9, 10), "twice.swd".to_string()).unwrap();
    let mut x = SampleInfo::default();
    x.id = 3;
    x.loopbeg = 2;
    x.looplen = 6;
    s.wavi.data.objects.push(x);
    let mut prgi = PRGIChunk::new(0);
    let mut p = ProgramInfo::default();
    p.header.id = 7;
    let mut sp = SplitEntry::default();
    sp.lowkey = 1;
    sp.hikey = 99;
    p.splits_table.objects.push(sp);
    prgi.data.objects.push(p);
    s.prgi = Some(prgi);
    let mut pcmd = PCMDChunk::default();
    pcmd.data = vec![4, 4, 4, 4];
    s.pcmd = Some(pcmd);
    s.regenerate_read_markers::<u16, u16>().unwrap();
    let header_once = s.header.clone();
    let mut once = Vec::new();
    s.write_to_file::<u16, u16>(&mut once).unwrap();
    s.regenerate_read_markers::<u16, u16>().unwrap();
    assert_eq!(s.header, header_once);
    let mut twice = Vec::new();
    s.write_to_file::<u16, u16>(&mut twice).unwrap();
    assert_eq!(once, twice);
}

#[test]
fn banks_whose_samples_or_programs_share_an_id_are_told_apart() {
    let mut s = create_swdl_shell((2024, 1, 1, 0, 0, 0, 0), "ids.swd".to_string()).unwrap();
    for id in [1u16, 3] {
        let mut x = SampleInfo::default();
        x.id = id;
        s.wavi.data.objects.push(x);
    }
    let mut prgi = PRGIChunk::new(0);
    for id in [0u16, 2] {
        let mut p = ProgramInfo::default();
        p.header.id = id;
        prgi.data.objects.push(p);
    }
    s.prgi = Some(prgi);
    assert!(s.slots_ok());
    s.prgi.as_mut().unwrap().data.objects[1].header.id = 0;
    assert!(!s.slots_ok());
    s.prgi.as_mut().unwrap().data.objects[1].header.id = 2;
    s.wavi.data.objects[0].id = 3;
    assert!(!s.slots_ok());
}
