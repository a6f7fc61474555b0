use dse::swdl::sf2::{
    copy_presets, copy_raw_sample_data, sources_fit, EnvPlan, ProcessedSample, SampleSource, GenAmount, Generator, Instrument, Preset, TunePlan, Zone, GEN_ATTACK_VOL_ENV, GEN_COARSE_TUNE,
    GEN_INSTRUMENT, GEN_KEY_RANGE, GEN_OVERRIDING_ROOT_KEY, GEN_PAN, GEN_SAMPLE_ID, GEN_SAMPLE_MODES, GEN_VEL_RANGE,
};
use dse::swdl::{SampleInfo, Tuning, SWDL};

fn signed(kind: u16, v: i16) -> Generator {
    Generator { kind, amount: GenAmount::Signed(v) }
}

fn unsigned(kind: u16, v: u16) -> Generator {
    Generator { kind, amount: GenAmount::Unsigned(v) }
}

fn range(kind: u16, lo: u8, hi: u8) -> Generator {
    Generator { kind, amount: GenAmount::Range(lo, hi) }
}

fn font() -> (Vec<Preset>, Vec<Instrument>, Vec<SampleInfo>) {
    let instrument = Instrument {
        zones: vec![
            Zone { gens: vec![signed(GEN_ATTACK_VOL_ENV, -1200)] },
            Zone { gens: vec![range(GEN_KEY_RANGE, 10, 20), unsigned(GEN_SAMPLE_ID, 0)] },
            Zone {
                gens: vec![
                    range(GEN_VEL_RANGE, 5, 100),
                    signed(GEN_OVERRIDING_ROOT_KEY, 70),
                    unsigned(GEN_SAMPLE_ID, 1),
                    signed(GEN_SAMPLE_MODES, 1),
                ],
            },
        ],
    };
    let preset = Preset {
        bank: 1,
        preset: 2,
        zones: vec![
            Zone { gens: vec![signed(GEN_PAN, 100)] },
            Zone { gens: vec![signed(GEN_PAN, 50), signed(GEN_COARSE_TUNE, 2), unsigned(GEN_INSTRUMENT, 0)] },
        ],
    };
    let mut a = SampleInfo::default();
    a.rootkey = 50;
    let mut b = SampleInfo::default();
    b.rootkey = 51;
    (vec![preset], vec![instrument], vec![a, b])
}

#[test]
fn preset_zones_become_numbered_splits() {
    let (presets, instruments, infos) = font();
    let (plans, loops) = copy_presets(&presets, &instruments, &infos, 10);
    assert_eq!(plans.len(), 1);
    let program = &plans[0].program;
    assert_eq!(program.header.id, 130);
    assert_eq!(program.header.prgvol, 127);
    assert_eq!(program.header.prgpan, 64);
    assert_eq!(program.header.PadByte, 170);
    assert_eq!(program.lfo_table.objects.len(), 4);
    let splits = &program.splits_table.objects;
    assert_eq!(splits.len(), 2);
    assert_eq!((splits[0].id, splits[0].lowkey, splits[0].hikey, splits[0].lovel, splits[0].hivel), (0, 10, 20, 0, 127));
    assert_eq!((splits[0].SmplID, splits[0].rootkey, splits[0].smplvol, splits[0].smplpan), (10, 50, 127, 64));
    assert_eq!((splits[1].id, splits[1].lowkey, splits[1].hikey, splits[1].lovel, splits[1].hivel), (1, 0, 127, 5, 100));
    assert_eq!((splits[1].SmplID, splits[1].rootkey), (11, 70));
    assert_eq!(loops, vec![(1, true)]);
}

#[test]
fn preset_zone_amounts_are_planned() {
    let (presets, instruments, infos) = font();
    let (plans, _) = copy_presets(&presets, &instruments, &infos, 10);
    let p = &plans[0].plans;
    assert_eq!(p.len(), 2);
    assert_eq!(p[0].pan, Some(50));
    assert_eq!(p[0].tune, Some(TunePlan { sample: 0, semitones: 2, extra_semitones: 0, cents: 0, extra_cents: 0 }));
    assert_eq!(p[0].envelope, EnvPlan { attack: -1200, hold: 0, decay: 0, release: 0 });
    assert_eq!(p[1].tune, Some(TunePlan { sample: 1, semitones: 2, extra_semitones: 0, cents: 0, extra_cents: 0 }));
    assert_eq!(p[0].attenuation, None);
    assert_eq!(p[0].sustain, None);
}

#[test]
fn zone_without_sample_after_the_first_makes_no_split() {
    let instruments = vec![Instrument {
        zones: vec![
            Zone { gens: vec![range(GEN_KEY_RANGE, 1, 2), unsigned(GEN_SAMPLE_ID, 0)] },
            Zone { gens: vec![range(GEN_KEY_RANGE, 3, 4)] },
        ],
    }];
    let presets = vec![Preset { bank: 0, preset: 0, zones: vec![Zone { gens: vec![unsigned(GEN_INSTRUMENT, 0)] }] }];
    let (plans, loops) = copy_presets(&presets, &instruments, &vec![SampleInfo::default()], 0);
    assert_eq!(plans[0].program.splits_table.objects.len(), 1);
    assert_eq!(plans[0].program.splits_table.objects[0].hikey, 2);
    assert!(loops.is_empty());
}

#[test]
fn preset_numbers_wrap_in_sixteen_bits() {
    let presets = vec![Preset { bank: 512, preset: 3, zones: vec![] }];
    let (plans, _) = copy_presets(&presets, &vec![], &vec![], 0);
    assert_eq!(plans[0].program.header.id, 3);
    assert!(plans[0].program.splits_table.objects.is_empty());
}

fn sources() -> Vec<SampleSource> {
    vec![
        SampleSource {
            sample_rate: 22050,
            origpitch: 200,
            start: 0,
            end: 10,
            loop_start: 4,
            processed: Some(ProcessedSample { rate: 22050, format: 0x0100, tuning: Tuning::new(5, -1), data: vec![1, 2, 3, 4, 5, 6], loop_start: 4 }),
        },
        SampleSource { sample_rate: 8000, origpitch: 50, start: 10, end: 20, loop_start: 14, processed: None },
    ]
}

fn bank_with_one_sample() -> SWDL {
    let mut bank = SWDL::default();
    let mut x = SampleInfo::default();
    x.loopbeg = 2;
    x.looplen = 3;
    bank.wavi.data.objects.push(x);
    bank
}

#[test]
fn samples_are_placed_after_the_bank_samples() {
    let mut bank = bank_with_one_sample();
    let srcs = sources();
    assert!(sources_fit(&bank, &srcs));
    let (first_id, track) = copy_raw_sample_data(&srcs, &mut bank);
    assert_eq!(first_id, 1);
    let objs = &bank.wavi.data.objects;
    assert_eq!(objs.len(), 3);
    assert_eq!((objs[1].id, objs[1].smplpos, objs[1].loopbeg, objs[1].looplen), (1, 20, 0, 1));
    assert_eq!((objs[1].rootkey, objs[1].smplfmt, objs[1].smplrate, objs[1].tuning.clone()), (60, 0x0100, 22050, Tuning::new(5, -1)));
    assert_eq!((objs[2].id, objs[2].smplpos, objs[2].loopbeg, objs[2].looplen), (2, 24, 2, 3));
    assert_eq!((objs[2].rootkey, objs[2].smplfmt, objs[2].volume, objs[2].pan), (50, 0x0200, 127, 64));
    assert!(objs[2].volume_envelope.envon);
    assert_eq!(objs[2].volume_envelope.sustain, 127);
    assert_eq!(track.len(), 2);
    assert_eq!((track[0].smplpos, track[1].smplpos), (0, 4));
    assert_eq!(bank.pcmd.as_ref().unwrap().data, vec![1, 2, 3, 4, 5, 6, 0, 0]);
}

#[test]
fn samples_with_a_loop_before_their_start_do_not_fit() {
    let bank = bank_with_one_sample();
    let mut srcs = sources();
    srcs[1].loop_start = 9;
    assert!(!sources_fit(&bank, &srcs));
}

#[test]
fn samples_past_32_bits_do_not_fit() {
    let mut bank = bank_with_one_sample();
    bank.wavi.data.objects[0].smplpos = u32::MAX - 20;
    assert!(!sources_fit(&bank, &sources()));
}
