use dse::dtype::DSEError;
use dse::smdl::midi::ProgramUsed;
use dse::swdl::sf2::{GenAmount, Generator, Instrument, Preset, Zone, GEN_INSTRUMENT, GEN_KEY_RANGE, GEN_SAMPLE_ID};
use dse::swdl::SampleInfo;
use dse::usage::{select_samples, select_zones, soundfont_usage, SoundFont};

fn range(kind: u16, lo: u8, hi: u8) -> Generator {
    Generator { kind, amount: GenAmount::Range(lo, hi) }
}

fn unsigned(kind: u16, v: u16) -> Generator {
    Generator { kind, amount: GenAmount::Unsigned(v) }
}

fn instrument() -> Instrument {
    Instrument {
        zones: vec![
            Zone { gens: vec![range(GEN_KEY_RANGE, 0, 60), unsigned(GEN_SAMPLE_ID, 0)] },
            Zone { gens: vec![range(GEN_KEY_RANGE, 61, 127), unsigned(GEN_SAMPLE_ID, 1)] },
        ],
    }
}

fn fonts() -> Vec<SoundFont> {
    vec![
        SoundFont {
            presets: vec![
                Preset { bank: 0, preset: 0, zones: vec![Zone { gens: vec![unsigned(GEN_INSTRUMENT, 0)] }] },
                Preset { bank: 0, preset: 1, zones: vec![Zone { gens: vec![range(GEN_KEY_RANGE, 70, 80), unsigned(GEN_INSTRUMENT, 0)] }] },
            ],
            instruments: vec![instrument()],
            sample_count: 2,
        },
        SoundFont {
            presets: vec![Preset { bank: 1, preset: 0, zones: vec![Zone { gens: vec![unsigned(GEN_INSTRUMENT, 0)] }] }],
            instruments: vec![instrument()],
            sample_count: 2,
        },
    ]
}

fn played(bank: u8, program: u8, is_default: bool, notes: Vec<(u8, u8)>) -> ProgramUsed {
    let mut p = ProgramUsed::new(bank, program, is_default);
    p.notes = notes;
    p
}

#[test]
fn a_song_uses_the_zones_and_samples_its_notes_reach() {
    let used = vec![vec![played(0, 0, false, vec![(40, 100)])], vec![played(0, 1, false, vec![(65, 10)]), played(1, 0, false, vec![(100, 1)])]];
    let u = soundfont_usage(&fonts(), &used, "song").unwrap();
    assert_eq!(u.presets, vec![(0, 0), (0, 1), (1, 0)]);
    assert_eq!(u.mappings, vec![(0, 0, 0), (1, 0, 0)]);
    assert_eq!(u.samples, vec![(0, 0), (1, 1)]);
}

#[test]
fn a_program_no_font_holds_fails_unless_selected_by_default() {
    let used = vec![vec![played(5, 5, true, vec![(40, 100)])]];
    let u = soundfont_usage(&fonts(), &used, "song").unwrap();
    assert!(u.presets.is_empty());
    let used = vec![vec![played(5, 5, false, vec![(40, 100)])]];
    match soundfont_usage(&fonts(), &used, "song") {
        Err(DSEError::Invalid(m)) => assert_eq!(m, "Preset 005:005 not found in any of the specified soundfonts for song 'song'!"),
        _ => panic!("expected an error"),
    }
}

#[test]
fn a_song_keeps_only_the_zones_it_uses() {
    let f = fonts();
    let r = select_zones(&f[0].presets, 0, &vec![(0, 1, 0)]);
    assert_eq!(r.len(), 2);
    assert!(r[0].zones.is_empty());
    assert_eq!(r[1].zones.len(), 1);
    assert_eq!(r[1].zones[0].gens, f[0].presets[1].zones[0].gens);
}

#[test]
fn a_song_keeps_only_the_samples_it_plays() {
    let mut infos = Vec::new();
    for id in 0u16..3 {
        let mut x = SampleInfo::default();
        x.id = id;
        infos.push(x);
    }
    let r = select_samples(&infos, 0, &vec![(0, 2), (1, 0)]);
    assert_eq!(r.len(), 1);
    assert_eq!(r[0].id, 2);
}
