use dse::codec::DataReader;
use dse::dtype::{DSEError, DSELinkBytes, ReadWrite, SongBuilderFlags};
use dse::sf2midi::{check_vcrange_valid, fix_sample_positions, prune_bank_to_ids, template_keygroups, vchigh, vclow};
use dse::smdl::{create_smdl_shell, SMDL};
use dse::swdl::{create_swdl_shell, PRGIChunk, ProgramInfo, SampleInfo, SplitEntry, SWDL};

#[test]
fn voice_channel_ranges() {
    assert!(check_vcrange_valid((0, 15)).is_ok());
    assert!(check_vcrange_valid((3, -1)).is_ok());
    assert!(matches!(check_vcrange_valid((-1, 5)), Err(DSEError::DSEUsedVoiceChannelsRangeOutOfBounds(-1, 5))));
    assert!(matches!(check_vcrange_valid((16, 5)), Err(DSEError::DSEUsedVoiceChannelsRangeOutOfBounds(16, 5))));
    assert!(matches!(check_vcrange_valid((0, 16)), Err(DSEError::DSEUsedVoiceChannelsRangeOutOfBounds(0, 16))));
    assert!(matches!(check_vcrange_valid((5, 4)), Err(DSEError::DSEUsedVoiceChannelsRangeFlipped(5, 4))));
    assert_eq!(vclow((2, -1)).unwrap(), 2);
    assert_eq!(vchigh((2, -1)).unwrap(), 15);
    assert_eq!(vchigh((2, 9)).unwrap(), 9);
    assert!(vchigh((9, 2)).is_err());
}

#[test]
fn template_keygroups_over_channels() {
    let k = template_keygroups((1, -1)).unwrap();
    assert_eq!(k.len(), 12);
    let polys: Vec<i8> = k.iter().map(|g| g.poly).collect();
    assert_eq!(polys, vec![-1, 2, 1, 1, 1, 1, 2, 1, 2, -1, -1, -1]);
    assert_eq!(k[5].priority, 1);
    for (i, g) in k.iter().enumerate() {
        assert_eq!(g.id as usize, i);
        assert_eq!((g.vclow, g.vchigh), (1, 15));
        assert_eq!((g.unk50, g.unk51), (0, 0));
    }
    assert!(matches!(template_keygroups((3, 1)), Err(DSEError::DSEUsedVoiceChannelsRangeFlipped(3, 1))));
}

#[test]
fn samples_placed_one_after_another() {
    let mut v = Vec::new();
    for (b, l) in [(10u32, 5u32), (0, 7), (3, 0)] {
        let mut s = SampleInfo::default();
        s.loopbeg = b;
        s.looplen = l;
        s.smplpos = 999;
        v.push(s);
    }
    fix_sample_positions(&mut v);
    assert_eq!(v.iter().map(|s| s.smplpos).collect::<Vec<_>>(), vec![0, 60, 88]);
}

#[test]
fn bank_shell_names() {
    let s = create_swdl_shell((2023, 4, 5, 6, 7, 8, 9), "bank.swd".to_string()).unwrap();
    assert_eq!(s.header.year, 2023);
    assert_eq!(s.header.version, 0x415);
    assert_eq!(&s.header.fname.inner[..8], b"bank.swd");
    assert!(matches!(
        create_swdl_shell((2023, 4, 5, 6, 7, 8, 9), "bänk".to_string()),
        Err(DSEError::DSEFileNameConversionNonASCII(..))
    ));
}

#[test]
fn bank_from_sound_font_parts() {
    let mut s = SWDL::default();
    let mut samples = Vec::new();
    for (b, l) in [(1u32, 1u32), (2, 2)] {
        let mut x = SampleInfo::default();
        x.loopbeg = b;
        x.looplen = l;
        samples.push(x);
    }
    s.from_sf2_once((2020, 1, 1, 0, 0, 0, 0), "song.SWD".to_string(), (5, 6), (0, -1), PRGIChunk::new(0), samples).unwrap();
    assert_eq!(s.get_link_bytes(), (5, 6));
    assert_eq!(s.wavi.data.objects.iter().map(|o| o.smplpos).collect::<Vec<_>>(), vec![0, 8]);
    assert_eq!(s.kgrp.as_ref().unwrap().data.objects.len(), 12);
    assert!(s.prgi.is_some());
    let mut t = SWDL::default();
    match t.from_sf2_once((2020, 1, 1, 0, 0, 0, 0), "song.SWD".to_string(), (5, 6), (0, 16), PRGIChunk::new(0), Vec::new()) {
        Err(DSEError::DSEUsedVoiceChannelsRangeOutOfBounds(0, 16)) => {},
        other => panic!("unexpected {:?}", other),
    }
    assert!(t.kgrp.is_none());
}

#[test]
fn bank_saves_and_loads() {
    let mut s = create_swdl_shell((2023, 4, 5, 6, 7, 8, 9), "bank.swd".to_string()).unwrap();
    let mut x = SampleInfo::default();
    x.loopbeg = 4;
    x.looplen = 8;
    s.wavi.data.objects.push(x);
    let mut out = Vec::new();
    s.save(&mut out, SongBuilderFlags::empty()).unwrap();
    assert_eq!(s.header.flen as usize, out.len());
    let mut r = DataReader::new(&out);
    let back = SWDL::load(&mut r).unwrap();
    assert_eq!(back.header.year, 2023);
    assert_eq!(back.wavi.data.objects.len(), 1);
    assert_eq!(back.wavi.data.objects[0].loopbeg, 4);
    assert_eq!(back.wavi.data.objects[0].looplen, 8);
    assert_eq!(&back.header.fname.inner[..8], b"bank.swd");
}

#[test]
fn song_writes_and_reads() {
    let mut s = create_smdl_shell((2022, 12, 31, 23, 59, 59, 99), "song.smd".to_string()).unwrap();
    s.set_link_bytes((3, 4));
    match s.regenerate_read_markers() {
        Err(DSEError::Invalid(m)) => assert_eq!(m, "SMDL file contains zero tracks! Unable to automatically determine number of channels used!!"),
        other => panic!("unexpected {:?}", other),
    }
    let mut t = dse::smdl::TrkChunk::default();
    t.preamble.trkid = 0;
    t.preamble.chanid = 3;
    t.events.events.push(dse::smdl::DSEEvent::Other(dse::smdl::events::Other { code: 0x98, parameters: [0; 5] }));
    s.trks.objects.push(t);
    s.regenerate_read_markers().unwrap();
    assert_eq!(s.song.nbtrks, 1);
    assert_eq!(s.song.nbchans, 4);
    let mut out = Vec::new();
    let n = s.write_to_file(&mut out).unwrap();
    assert_eq!(n, out.len());
    assert_eq!(s.header.flen as usize, out.len());
    let mut back = SMDL::default();
    let mut r = DataReader::new(&out);
    back.read_from_file(&mut r).unwrap();
    assert_eq!(back.trks.objects.len(), 1);
    assert_eq!(back.get_link_bytes(), (3, 4));
    assert_eq!(back.header.year, 2022);
    assert_eq!(back.trks.objects[0].preamble.chanid, 3);
    assert_eq!(back.trks.objects[0].events.events.len(), 1);
    assert!(back.trks.objects[0].events.events[0].is_eot_event());
}

#[test]
fn song_shell_refuses_names_that_are_not_ascii() {
    match create_smdl_shell((2022, 1, 1, 0, 0, 0, 0), "sóng".to_string()) {
        Err(DSEError::DSEFileNameConversionNonASCII(k, n)) => assert_eq!((k.as_str(), n.as_str()), ("MIDI", "sóng")),
        other => panic!("unexpected {:?}", other.err()),
    }
}

#[test]
fn bank_from_its_text_form_gets_markers_and_parameters() {
    let mut s = create_swdl_shell((2023, 4, 5, 6, 7, 8, 9), "text.swd".to_string()).unwrap();
    let mut x = SampleInfo::default();
    x.rootkey = 48;
    x.loopbeg = 4;
    x.looplen = 8;
    s.wavi.data.objects.push(x);
    s.header.flen = 0;
    let loaded = SWDL::load_xml(s).unwrap();
    assert_eq!(loaded.wavi.data.objects[0].ktps, 12);
    let mut out = Vec::new();
    loaded.write_to_file::<u16, u16>(&mut out).unwrap();
    assert_eq!(loaded.header.flen as usize, out.len());
    assert_eq!(loaded.header.nbwavislots, 1);
}

#[test]
fn song_bank_keeps_the_programs_and_samples_it_plays() {
    let mut bank = SWDL::default();
    for id in [0u16, 1, 2] {
        let mut x = SampleInfo::default();
        x.id = id;
        bank.wavi.data.objects.push(x);
    }
    let mut prgi = PRGIChunk::new(0);
    for (id, smpl) in [(130u16, 2u16), (5, 0), (0, 1)] {
        let mut p = ProgramInfo::default();
        p.header.id = id;
        let mut sp = SplitEntry::default();
        sp.SmplID = smpl;
        p.splits_table.objects.push(sp);
        prgi.data.objects.push(p);
    }
    bank.prgi = Some(prgi);
    // ids 0 and 130 (bank 1, program 2) are used; 7 names no program
    prune_bank_to_ids(&mut bank, &vec![0, 130, 7, 0]).unwrap();
    let progs = &bank.prgi.as_ref().unwrap().data.objects;
    assert_eq!(progs.len(), 2);
    // kept in the bank's order, with their ids
    assert_eq!(progs[0].header.id, 130);
    assert_eq!(progs[0].splits_table.objects[0].SmplID, 2);
    assert_eq!(progs[1].header.id, 0);
    let ids: Vec<u16> = bank.wavi.data.objects.iter().map(|s| s.id).collect();
    assert_eq!(ids, vec![1, 2]);
}

#[test]
fn song_bank_of_a_bank_without_programs_is_refused() {
    let mut bank = SWDL::default();
    let before = bank.clone();
    assert!(matches!(prune_bank_to_ids(&mut bank, &vec![0]), Err(DSEError::DSESmdConverterSwdEmpty())));
    assert_eq!(bank.header, before.header);
    assert_eq!(bank.wavi.data.objects, before.wavi.data.objects);
}
