//! Turning the presets of a SoundFont 2 file into programs: which zones
//! become splits, and what the generators of each zone set on a split.
//!
//! The pan, volume, pitch and duration conversions are floating-point
//! formulas, which stand outside this library: for each split, a plan
//! records the amounts that go into them (`SplitPlan`), and the split
//! carries every value that integers decide.
use vstd::prelude::*;
use crate::dtype::TableView;
use crate::dtype::{lemma_max_index_increasing, spec_ids_increasing, spec_slots, spec_slots_defined, IsSelfIndexed, ReadWrite};
use super::{
    ADSRVolumeEnvelope, LFOEntry, PCMDChunk, PCMDChunkView, ProgramInfo, ProgramInfoHeader, ProgramInfoView, SWDL, SampleInfo,
    SplitEntry, Tuning, _ProgramInfoDelimiter,
};

verus! {

// ---------------------------------------------------------------------------
// Generators and zones
// ---------------------------------------------------------------------------

/// Generator kind: stereo pan.
pub const GEN_PAN: u16 = 17;
/// Generator kind: attack of the volume envelope, in timecents.
pub const GEN_ATTACK_VOL_ENV: u16 = 34;
/// Generator kind: hold of the volume envelope, in timecents.
pub const GEN_HOLD_VOL_ENV: u16 = 35;
/// Generator kind: decay of the volume envelope, in timecents.
pub const GEN_DECAY_VOL_ENV: u16 = 36;
/// Generator kind: sustain level of the volume envelope, in centibels.
pub const GEN_SUSTAIN_VOL_ENV: u16 = 37;
/// Generator kind: release of the volume envelope, in timecents.
pub const GEN_RELEASE_VOL_ENV: u16 = 38;
/// Generator kind: the instrument of a preset zone.
pub const GEN_INSTRUMENT: u16 = 41;
/// Generator kind: key range.
pub const GEN_KEY_RANGE: u16 = 43;
/// Generator kind: velocity range.
pub const GEN_VEL_RANGE: u16 = 44;
/// Generator kind: initial attenuation, in centibels.
pub const GEN_INITIAL_ATTENUATION: u16 = 48;
/// Generator kind: coarse tuning, in semitones.
pub const GEN_COARSE_TUNE: u16 = 51;
/// Generator kind: fine tuning, in cents.
pub const GEN_FINE_TUNE: u16 = 52;
/// Generator kind: the sample of an instrument zone.
pub const GEN_SAMPLE_ID: u16 = 53;
/// Generator kind: sample looping flags.
pub const GEN_SAMPLE_MODES: u16 = 54;
/// Generator kind: root key overriding the sample's.
pub const GEN_OVERRIDING_ROOT_KEY: u16 = 58;

/// The amount of a generator, in the form the format gives its kind: a
/// range for key and velocity ranges, an unsigned index for instruments and
/// samples, a signed value for every other kind.
#[derive(Clone, Copy, Debug, PartialEq, Eq)]
pub enum GenAmount {
    Signed(i16),
    Unsigned(u16),
    Range(u8, u8),
}

/// A generator: its kind's number in the format and its amount.
#[derive(Clone, Copy, Debug, PartialEq, Eq)]
pub struct Generator {
    pub kind: u16,
    pub amount: GenAmount,
}

/// A zone of a preset or of an instrument: its generators in order.
#[derive(Clone, Debug)]
pub struct Zone {
    pub gens: Vec<Generator>,
}

/// A preset: its bank and number, and its zones.
#[derive(Clone, Debug)]
pub struct Preset {
    pub bank: u16,
    pub preset: u16,
    pub zones: Vec<Zone>,
}

/// An instrument: its zones.
#[derive(Clone, Debug)]
pub struct Instrument {
    pub zones: Vec<Zone>,
}

/// Whether a generator's amount has the form that its kind takes.
pub open spec fn spec_kind_ok(g: Generator) -> bool {
    if g.kind == GEN_KEY_RANGE || g.kind == GEN_VEL_RANGE {
        g.amount is Range
    } else if g.kind == GEN_INSTRUMENT || g.kind == GEN_SAMPLE_ID {
        g.amount is Unsigned
    } else {
        g.amount is Signed
    }
}

/// The amount of the first generator of kind `kind`.
pub open spec fn spec_first_gen(gens: Seq<Generator>, kind: u16) -> Option<GenAmount>
    decreases gens.len(),
{
    if gens.len() == 0 {
        None
    } else if gens[0].kind == kind {
        Some(gens[0].amount)
    } else {
        spec_first_gen(gens.drop_first(), kind)
    }
}

/// The amount of the first generator of kind `kind` in the zones, taken in
/// order.
pub open spec fn spec_find_in_zones(zones: Seq<Zone>, kind: u16) -> Option<GenAmount>
    decreases zones.len(),
{
    if zones.len() == 0 {
        None
    } else {
        match spec_first_gen(zones[0].gens@, kind) {
            Some(a) => Some(a),
            None => spec_find_in_zones(zones.drop_first(), kind),
        }
    }
}

/// A signed amount, or 0 where there is none.
pub open spec fn spec_signed_or_zero(a: Option<GenAmount>) -> i16 {
    match a {
        Some(GenAmount::Signed(v)) => v,
        _ => 0i16,
    }
}

/// An unsigned amount, where there is one.
pub open spec fn spec_unsigned(a: Option<GenAmount>) -> Option<u16> {
    match a {
        Some(GenAmount::Unsigned(v)) => Some(v),
        _ => None,
    }
}

/// The sample of a zone: its first sample generator's amount.
pub open spec fn spec_zone_sample(z: Zone) -> Option<u16> {
    spec_unsigned(spec_first_gen(z.gens@, GEN_SAMPLE_ID))
}

/// The instrument of a zone: its first instrument generator's amount.
pub open spec fn spec_zone_instrument(z: Zone) -> Option<u16> {
    spec_unsigned(spec_first_gen(z.gens@, GEN_INSTRUMENT))
}

/// The zone, where there is one, as a sequence.
pub open spec fn spec_opt_zone(o: Option<&Zone>) -> Seq<Zone> {
    match o {
        Some(z) => seq![*z],
        None => Seq::empty(),
    }
}

/// The zones that are given, in order.
pub open spec fn spec_zone_list(a: Option<&Zone>, b: Option<&Zone>, c: Option<&Zone>) -> Seq<Zone> {
    spec_opt_zone(a) + spec_opt_zone(b) + spec_opt_zone(c)
}

proof fn lemma_first_gen_skip(gens: Seq<Generator>, i: int, kind: u16)
    requires
        0 <= i < gens.len(),
    ensures
        spec_first_gen(gens.skip(i), kind) == if gens[i].kind == kind {
            Some(gens[i].amount)
        } else {
            spec_first_gen(gens.skip(i + 1), kind)
        },
{
    assert(gens.skip(i)[0] == gens[i]);
    assert(gens.skip(i).drop_first() =~= gens.skip(i + 1));
}

/// The amount of the first generator of kind `kind`.
pub(crate) fn first_gen(gens: &Vec<Generator>, kind: u16) -> (r: Option<GenAmount>)
    ensures
        r == spec_first_gen(gens@, kind),
{
    let mut i: usize = 0;
    assert(gens@.skip(0) =~= gens@);
    while i < gens.len()
        invariant
            i <= gens@.len(),
            spec_first_gen(gens@, kind) == spec_first_gen(gens@.skip(i as int), kind),
        decreases gens.len() - i,
    {
        proof { lemma_first_gen_skip(gens@, i as int, kind); }
        if gens[i].kind == kind {
            return Some(gens[i].amount);
        }
        i = i + 1;
    }
    assert(gens@.skip(i as int).len() == 0);
    None
}

/// Looking in a zone, then in the rest.
proof fn lemma_find_cons(o: Option<&Zone>, rest: Seq<Zone>, kind: u16)
    ensures
        spec_find_in_zones(spec_opt_zone(o) + rest, kind) == match o {
            Some(z) => match spec_first_gen(z.gens@, kind) {
                Some(a) => Some(a),
                None => spec_find_in_zones(rest, kind),
            },
            None => spec_find_in_zones(rest, kind),
        },
{
    let s = spec_opt_zone(o) + rest;
    match o {
        Some(z) => {
            assert(s[0] == *z);
            assert(s.drop_first() =~= rest);
        },
        None => {
            assert(s =~= rest);
        },
    }
}

/// The amount of the first generator of kind `kind` in the given zones.
pub(crate) fn find_in_zones(a: Option<&Zone>, b: Option<&Zone>, c: Option<&Zone>, kind: u16) -> (r: Option<GenAmount>)
    ensures
        r == spec_find_in_zones(spec_zone_list(a, b, c), kind),
{
    proof {
        assert(spec_zone_list(a, b, c) =~= spec_opt_zone(a) + (spec_opt_zone(b) + (spec_opt_zone(c) + Seq::<Zone>::empty())));
        lemma_find_cons(a, spec_opt_zone(b) + (spec_opt_zone(c) + Seq::<Zone>::empty()), kind);
        lemma_find_cons(b, spec_opt_zone(c) + Seq::<Zone>::empty(), kind);
        lemma_find_cons(c, Seq::<Zone>::empty(), kind);
    }
    if let Some(z) = a {
        let r = first_gen(&z.gens, kind);
        if r.is_some() {
            return r;
        }
    }
    if let Some(z) = b {
        let r = first_gen(&z.gens, kind);
        if r.is_some() {
            return r;
        }
    }
    if let Some(z) = c {
        let r = first_gen(&z.gens, kind);
        if r.is_some() {
            return r;
        }
    }
    None
}

/// The signed amount of the first generator of kind `kind` in the given
/// zones, or 0.
fn signed_in_zones(a: Option<&Zone>, b: Option<&Zone>, c: Option<&Zone>, kind: u16) -> (r: i16)
    ensures
        r == spec_signed_or_zero(spec_find_in_zones(spec_zone_list(a, b, c), kind)),
{
    match find_in_zones(a, b, c, kind) {
        Some(GenAmount::Signed(v)) => v,
        _ => 0,
    }
}

/// The sample of a zone, or of the first of the given zones that has one.
fn sample_in_zones(zone: &Zone, a: Option<&Zone>, b: Option<&Zone>, c: Option<&Zone>) -> (r: Option<u16>)
    ensures
        r == spec_unsigned(spec_find_in_zones(seq![*zone] + spec_zone_list(a, b, c), GEN_SAMPLE_ID)),
{
    proof {
        lemma_find_cons(Some(zone), spec_zone_list(a, b, c), GEN_SAMPLE_ID);
        assert(spec_opt_zone(Some(zone)) == seq![*zone]);
    }
    let r = match first_gen(&zone.gens, GEN_SAMPLE_ID) {
        Some(x) => Some(x),
        None => find_in_zones(a, b, c, GEN_SAMPLE_ID),
    };
    match r {
        Some(GenAmount::Unsigned(v)) => Some(v),
        _ => None,
    }
}

// ---------------------------------------------------------------------------
// What the generators of a zone set
// ---------------------------------------------------------------------------

/// Durations of the volume envelope, in timecents.
#[derive(Clone, Copy, Debug, PartialEq, Eq)]
pub struct EnvPlan {
    pub attack: i16,
    pub hold: i16,
    pub decay: i16,
    pub release: i16,
}

/// A split's tuning: that of its sample's rate, moved by `semitones` and
/// `extra_semitones` semitones, then by `cents` and `extra_cents` cents.
#[derive(Clone, Copy, Debug, PartialEq, Eq)]
pub struct TunePlan {
    pub sample: u16,
    pub semitones: i16,
    pub extra_semitones: i16,
    pub cents: i16,
    pub extra_cents: i16,
}

/// The amounts that go into the floating-point conversions of a split: its
/// pan (in tenths of a percent), its attack volume and sustain level (as
/// attenuations in centibels), its tuning, and the durations of its volume
/// envelope. `None` leaves the split's value as it is.
#[derive(Clone, Copy, Debug, PartialEq, Eq)]
pub struct SplitPlan {
    pub pan: Option<i16>,
    pub attenuation: Option<i16>,
    pub sustain: Option<i16>,
    pub tune: Option<TunePlan>,
    pub envelope: EnvPlan,
}

/// A split being made: the split, its plan, and whether the zone applied
/// last may be a global zone (it names no instrument and no sample).
#[derive(Debug)]
pub struct SplitWork {
    pub split: SplitEntry,
    pub plan: SplitPlan,
    pub possibly_global: bool,
}

/// A signed amount of kind `kind` from the other zones when `additive`, else 0.
pub open spec fn spec_other(additive: bool, others: Seq<Zone>, kind: u16) -> i16 {
    if additive {
        spec_signed_or_zero(spec_find_in_zones(others, kind))
    } else {
        0i16
    }
}

/// A duration that a generator's value `v` sets, or adds to when `additive`.
pub open spec fn spec_accumulate(additive: bool, cur: i16, v: i16) -> i16 {
    if additive {
        cur.wrapping_add(v)
    } else {
        v
    }
}

/// What one generator of `zone` does to the split being made and to the
/// sample loop settings; `others` are the zones that amounts are added
/// from when `additive`, and where a sample is looked for after `zone`.
pub open spec fn spec_gen_step(
    w: SplitWork,
    loops: Seq<(u16, bool)>,
    g: Generator,
    additive: bool,
    zone: Zone,
    others: Seq<Zone>,
    first_id: usize,
) -> (SplitWork, Seq<(u16, bool)>) {
    let v = spec_signed_or_zero(Some(g.amount));
    let p = w.plan;
    let s = w.split;
    let e = w.plan.envelope;
    let smpl = spec_unsigned(spec_find_in_zones(seq![zone] + others, GEN_SAMPLE_ID));
    if g.kind == GEN_PAN {
        (SplitWork { plan: SplitPlan { pan: Some(v.wrapping_add(spec_other(additive, others, GEN_PAN))), ..p }, ..w }, loops)
    } else if g.kind == GEN_ATTACK_VOL_ENV {
        (SplitWork { plan: SplitPlan { envelope: EnvPlan { attack: spec_accumulate(additive, e.attack, v), ..e }, ..p }, ..w }, loops)
    } else if g.kind == GEN_HOLD_VOL_ENV {
        (SplitWork { plan: SplitPlan { envelope: EnvPlan { hold: spec_accumulate(additive, e.hold, v), ..e }, ..p }, ..w }, loops)
    } else if g.kind == GEN_DECAY_VOL_ENV {
        (SplitWork { plan: SplitPlan { envelope: EnvPlan { decay: spec_accumulate(additive, e.decay, v), ..e }, ..p }, ..w }, loops)
    } else if g.kind == GEN_SUSTAIN_VOL_ENV {
        (SplitWork { plan: SplitPlan { sustain: Some(v.wrapping_add(spec_other(additive, others, GEN_SUSTAIN_VOL_ENV))), ..p }, ..w }, loops)
    } else if g.kind == GEN_RELEASE_VOL_ENV {
        (SplitWork { plan: SplitPlan { envelope: EnvPlan { release: spec_accumulate(additive, e.release, v), ..e }, ..p }, ..w }, loops)
    } else if g.kind == GEN_INSTRUMENT {
        (SplitWork { possibly_global: false, ..w }, loops)
    } else if g.kind == GEN_KEY_RANGE {
        match g.amount {
            GenAmount::Range(lo, hi) => if additive {
                (w, loops)
            } else {
                (SplitWork { split: SplitEntry { lowkey: lo as i8, hikey: hi as i8, ..s }, ..w }, loops)
            },
            _ => (w, loops),
        }
    } else if g.kind == GEN_VEL_RANGE {
        match g.amount {
            GenAmount::Range(lo, hi) => if additive {
                (w, loops)
            } else {
                (SplitWork { split: SplitEntry { lovel: lo as i8, hivel: hi as i8, ..s }, ..w }, loops)
            },
            _ => (w, loops),
        }
    } else if g.kind == GEN_INITIAL_ATTENUATION {
        (SplitWork { plan: SplitPlan { attenuation: Some(v.wrapping_add(spec_other(additive, others, GEN_INITIAL_ATTENUATION))), ..p }, ..w }, loops)
    } else if g.kind == GEN_COARSE_TUNE {
        match smpl {
            Some(si) => (SplitWork { plan: SplitPlan { tune: Some(TunePlan {
                sample: si,
                semitones: v,
                extra_semitones: spec_other(additive, others, GEN_COARSE_TUNE),
                cents: spec_signed_or_zero(spec_first_gen(zone.gens@, GEN_FINE_TUNE)),
                extra_cents: spec_other(additive, others, GEN_FINE_TUNE),
            }), ..p }, ..w }, loops),
            None => (w, loops),
        }
    } else if g.kind == GEN_FINE_TUNE {
        match smpl {
            Some(si) => (SplitWork { plan: SplitPlan { tune: Some(TunePlan {
                sample: si,
                semitones: spec_signed_or_zero(spec_first_gen(zone.gens@, GEN_COARSE_TUNE)),
                extra_semitones: spec_other(additive, others, GEN_COARSE_TUNE),
                cents: v,
                extra_cents: spec_other(additive, others, GEN_FINE_TUNE),
            }), ..p }, ..w }, loops),
            None => (w, loops),
        }
    } else if g.kind == GEN_SAMPLE_ID {
        match g.amount {
            GenAmount::Unsigned(u) => (SplitWork {
                split: SplitEntry { SmplID: (first_id as u16).wrapping_add(u), ..s },
                possibly_global: false,
                ..w
            }, loops),
            _ => (SplitWork { possibly_global: false, ..w }, loops),
        }
    } else if g.kind == GEN_SAMPLE_MODES {
        match smpl {
            Some(si) => (w, loops.push((si, ((v as u16) & 3u16) % 2 == 1))),
            None => (w, loops),
        }
    } else if g.kind == GEN_OVERRIDING_ROOT_KEY {
        if v != -1 && !additive {
            (SplitWork { split: SplitEntry { rootkey: v as i8, ..s }, ..w }, loops)
        } else {
            (w, loops)
        }
    } else {
        (w, loops)
    }
}

/// An envelope generator (SoundFont 2 generators 34, 35, 36 and 38) with
/// amount `a` changes only its own duration of the split's envelope: attack, hold, decay or release becomes `a`, or has
/// `a` added when amounts add up (within 16 bits); the other three
/// durations, the split itself and the loop settings stay.
pub proof fn lemma_envelope_generator(
    w: SplitWork,
    loops: Seq<(u16, bool)>,
    g: Generator,
    a: i16,
    additive: bool,
    zone: Zone,
    others: Seq<Zone>,
    first_id: usize,
)
    requires
        g.amount == GenAmount::Signed(a),
        g.kind == 34 || g.kind == 35 || g.kind == 36 || g.kind == 38,
    ensures
        ({
            let (w2, l2) = spec_gen_step(w, loops, g, additive, zone, others, first_id);
            let e = w.plan.envelope;
            let e2 = w2.plan.envelope;
            &&& l2 == loops
            &&& w2.split == w.split
            &&& (g.kind == 34 ==> e2.hold == e.hold && e2.decay == e.decay && e2.release == e.release
                && (!additive ==> e2.attack == a) && (additive && -0x8000 <= e.attack + a < 0x8000 ==> e2.attack == e.attack + a))
            &&& (g.kind == 35 ==> e2.attack == e.attack && e2.decay == e.decay && e2.release == e.release
                && (!additive ==> e2.hold == a) && (additive && -0x8000 <= e.hold + a < 0x8000 ==> e2.hold == e.hold + a))
            &&& (g.kind == 36 ==> e2.attack == e.attack && e2.hold == e.hold && e2.release == e.release
                && (!additive ==> e2.decay == a) && (additive && -0x8000 <= e.decay + a < 0x8000 ==> e2.decay == e.decay + a))
            &&& (g.kind == 38 ==> e2.attack == e.attack && e2.hold == e.hold && e2.decay == e.decay
                && (!additive ==> e2.release == a) && (additive && -0x8000 <= e.release + a < 0x8000 ==> e2.release == e.release + a))
        }),
{
    let e = w.plan.envelope;
    assert(additive && -0x8000 <= e.attack + a < 0x8000 ==> e.attack.wrapping_add(a) == e.attack + a);
    assert(additive && -0x8000 <= e.hold + a < 0x8000 ==> e.hold.wrapping_add(a) == e.hold + a);
    assert(additive && -0x8000 <= e.decay + a < 0x8000 ==> e.decay.wrapping_add(a) == e.decay + a);
    assert(additive && -0x8000 <= e.release + a < 0x8000 ==> e.release.wrapping_add(a) == e.release + a);
}

/// A key or velocity range generator (SoundFont 2 generators 43 and 44) of
/// a zone whose amounts do not add up sets the split's key or velocity
/// range to its own and leaves the other; where amounts add up it changes
/// nothing. The envelope and the loop
/// settings stay.
pub proof fn lemma_range_generator(
    w: SplitWork,
    loops: Seq<(u16, bool)>,
    g: Generator,
    lo: u8,
    hi: u8,
    additive: bool,
    zone: Zone,
    others: Seq<Zone>,
    first_id: usize,
)
    requires
        g.amount == GenAmount::Range(lo, hi),
        g.kind == 43 || g.kind == 44,
    ensures
        ({
            let (w2, l2) = spec_gen_step(w, loops, g, additive, zone, others, first_id);
            &&& l2 == loops
            &&& w2.plan == w.plan
            &&& (additive ==> w2.split == w.split)
            &&& (!additive && g.kind == 43 ==> w2.split.lowkey == lo as i8 && w2.split.hikey == hi as i8
                && w2.split.lovel == w.split.lovel && w2.split.hivel == w.split.hivel && w2.split.SmplID == w.split.SmplID)
            &&& (!additive && g.kind == 44 ==> w2.split.lovel == lo as i8 && w2.split.hivel == hi as i8
                && w2.split.lowkey == w.split.lowkey && w2.split.hikey == w.split.hikey && w2.split.SmplID == w.split.SmplID)
        }),
{
}

/// The amount found for a kind is that of the first generator of that kind:
/// none where no generator has it.
pub proof fn lemma_first_gen_is_first(gens: Seq<Generator>, kind: u16)
    ensures
        spec_first_gen(gens, kind) is None <==> forall|i: int| 0 <= i < gens.len() ==> (#[trigger] gens[i]).kind != kind,
        forall|i: int| 0 <= i < gens.len() && (#[trigger] gens[i]).kind == kind && (forall|j: int| 0 <= j < i ==> (#[trigger] gens[j]).kind != kind)
            ==> spec_first_gen(gens, kind) == Some(gens[i].amount),
    decreases gens.len(),
{
    if gens.len() > 0 {
        let d = gens.drop_first();
        lemma_first_gen_is_first(d, kind);
        assert forall|i: int| 0 <= i < d.len() implies #[trigger] d[i] == gens[i + 1] by {}
        if gens[0].kind != kind {
            assert((forall|i: int| 0 <= i < d.len() ==> (#[trigger] d[i]).kind != kind) <==> (forall|i: int| 0 <= i < gens.len() ==> (#[trigger] gens[i]).kind != kind)) by {
                if forall|i: int| 0 <= i < d.len() ==> (#[trigger] d[i]).kind != kind {
                    assert forall|i: int| 0 <= i < gens.len() implies (#[trigger] gens[i]).kind != kind by {
                        if i > 0 {
                            assert(d[i - 1] == gens[i]);
                        }
                    }
                }
            }
            assert forall|i: int| 0 <= i < gens.len() && (#[trigger] gens[i]).kind == kind && (forall|j: int| 0 <= j < i ==> (#[trigger] gens[j]).kind != kind)
                implies spec_first_gen(gens, kind) == Some(gens[i].amount) by {
                assert(i > 0);
                assert(d[i - 1] == gens[i]);
                assert forall|j: int| 0 <= j < i - 1 implies (#[trigger] d[j]).kind != kind by {
                    assert(d[j] == gens[j + 1]);
                }
            }
        }
    }
}

/// The amount found for a kind in zones taken in order is that of the first
/// zone that has a generator of the kind: none where no zone has one.
pub proof fn lemma_find_in_zones_is_first(zones: Seq<Zone>, kind: u16)
    ensures
        spec_find_in_zones(zones, kind) is None <==> forall|z: int| 0 <= z < zones.len() ==> spec_first_gen((#[trigger] zones[z]).gens@, kind) is None,
        forall|z: int| 0 <= z < zones.len() && spec_first_gen((#[trigger] zones[z]).gens@, kind) is Some
            && (forall|y: int| 0 <= y < z ==> spec_first_gen((#[trigger] zones[y]).gens@, kind) is None)
            ==> spec_find_in_zones(zones, kind) == spec_first_gen(zones[z].gens@, kind),
    decreases zones.len(),
{
    if zones.len() > 0 {
        let d = zones.drop_first();
        lemma_find_in_zones_is_first(d, kind);
        assert forall|z: int| 0 <= z < d.len() implies #[trigger] d[z] == zones[z + 1] by {}
        if spec_first_gen(zones[0].gens@, kind) is None {
            if forall|z: int| 0 <= z < d.len() ==> spec_first_gen((#[trigger] d[z]).gens@, kind) is None {
                assert forall|z: int| 0 <= z < zones.len() implies spec_first_gen((#[trigger] zones[z]).gens@, kind) is None by {
                    if z > 0 {
                        assert(d[z - 1] == zones[z]);
                    }
                }
            }
            assert forall|z: int| 0 <= z < zones.len() && spec_first_gen((#[trigger] zones[z]).gens@, kind) is Some
                && (forall|y: int| 0 <= y < z ==> spec_first_gen((#[trigger] zones[y]).gens@, kind) is None)
                implies spec_find_in_zones(zones, kind) == spec_first_gen(zones[z].gens@, kind) by {
                assert(z > 0);
                assert(d[z - 1] == zones[z]);
                assert forall|y: int| 0 <= y < z - 1 implies spec_first_gen((#[trigger] d[y]).gens@, kind) is None by {
                    assert(d[y] == zones[y + 1]);
                }
            }
        }
    }
}

/// Before a zone's generators act, each envelope duration is the amount of
/// its own generator (attack 34, hold 35, decay 36, release 38) found first
/// in the other zones, or 0.
pub proof fn lemma_env_from_generators(others: Seq<Zone>)
    ensures
        spec_env_from(others).attack == spec_signed_or_zero(spec_find_in_zones(others, 34)),
        spec_env_from(others).hold == spec_signed_or_zero(spec_find_in_zones(others, 35)),
        spec_env_from(others).decay == spec_signed_or_zero(spec_find_in_zones(others, 36)),
        spec_env_from(others).release == spec_signed_or_zero(spec_find_in_zones(others, 38)),
        forall|a: Option<GenAmount>| #[trigger] spec_signed_or_zero(a) == match a {
            Some(GenAmount::Signed(v)) => v,
            _ => 0i16,
        },
{
}

/// The other generators, with a signed amount `a` or an unsigned one `u`:
/// pan (17), sustain (37) and attenuation (48) set the split's value to
/// `a`, plus the first amount of the kind in the other zones where amounts
/// add up; a sample id (53) makes the split play sample `first_id` plus
/// `u`; an overriding root key (58) other than -1 sets the split's root key
/// where amounts do not add up; the envelope stays under each of them.
pub proof fn lemma_other_generators(
    w: SplitWork,
    loops: Seq<(u16, bool)>,
    g: Generator,
    a: i16,
    u: u16,
    additive: bool,
    zone: Zone,
    others: Seq<Zone>,
    first_id: usize,
)
    ensures
        ({
            let (w2, l2) = spec_gen_step(w, loops, g, additive, zone, others, first_id);
            let o = |k: u16| if additive { spec_signed_or_zero(spec_find_in_zones(others, k)) } else { 0i16 };
            &&& (g.kind == 17 || g.kind == 37 || g.kind == 48 || g.kind == 53 || g.kind == 58) ==> w2.plan.envelope == w.plan.envelope && l2 == loops
            &&& (g.kind == 17 && g.amount == GenAmount::Signed(a) ==> w2.plan.pan == Some(a.wrapping_add(o(17))) && w2.split == w.split)
            &&& (g.kind == 37 && g.amount == GenAmount::Signed(a) ==> w2.plan.sustain == Some(a.wrapping_add(o(37))) && w2.split == w.split)
            &&& (g.kind == 48 && g.amount == GenAmount::Signed(a) ==> w2.plan.attenuation == Some(a.wrapping_add(o(48))) && w2.split == w.split)
            &&& (g.kind == 53 && g.amount == GenAmount::Unsigned(u) ==> w2.split.SmplID == (first_id as u16).wrapping_add(u)
                && w2.split.lowkey == w.split.lowkey && w2.split.hikey == w.split.hikey && w2.split.lovel == w.split.lovel
                && w2.split.hivel == w.split.hivel && !w2.possibly_global)
            &&& (g.kind == 58 && g.amount == GenAmount::Signed(a) ==> (a != -1 && !additive ==> w2.split.rootkey == a as i8)
                && ((a == -1 || additive) ==> w2.split == w.split))
        }),
{
}

/// What the generators `gens` of `zone` do, one after the other.
pub open spec fn spec_apply_gens(
    w: SplitWork,
    loops: Seq<(u16, bool)>,
    gens: Seq<Generator>,
    additive: bool,
    zone: Zone,
    others: Seq<Zone>,
    first_id: usize,
) -> (SplitWork, Seq<(u16, bool)>)
    decreases gens.len(),
{
    if gens.len() == 0 {
        (w, loops)
    } else {
        let (w1, l1) = spec_apply_gens(w, loops, gens.drop_last(), additive, zone, others, first_id);
        spec_gen_step(w1, l1, gens.last(), additive, zone, others, first_id)
    }
}

/// The envelope durations that the other zones give.
pub open spec fn spec_env_from(others: Seq<Zone>) -> EnvPlan {
    EnvPlan {
        attack: spec_signed_or_zero(spec_find_in_zones(others, GEN_ATTACK_VOL_ENV)),
        hold: spec_signed_or_zero(spec_find_in_zones(others, GEN_HOLD_VOL_ENV)),
        decay: spec_signed_or_zero(spec_find_in_zones(others, GEN_DECAY_VOL_ENV)),
        release: spec_signed_or_zero(spec_find_in_zones(others, GEN_RELEASE_VOL_ENV)),
    }
}

/// Applying a zone to the split being made: the envelope durations start
/// from those of the other zones, then each generator of the zone does its
/// part. Gives the split, the loop settings, and whether the zone is a
/// global one: the first of its list, naming no instrument and no sample.
pub open spec fn spec_apply(
    w: SplitWork,
    loops: Seq<(u16, bool)>,
    additive: bool,
    zone: Zone,
    is_first: bool,
    others: Seq<Zone>,
    first_id: usize,
) -> (SplitWork, Seq<(u16, bool)>, bool) {
    let w0 = SplitWork { plan: SplitPlan { envelope: spec_env_from(others), ..w.plan }, possibly_global: true, ..w };
    let (w1, l1) = spec_apply_gens(w0, loops, zone.gens@, additive, zone, others, first_id);
    (w1, l1, w1.possibly_global && is_first)
}

/// `v` added to the duration `cur`, or put in its place.
fn accumulate(additive: bool, cur: i16, v: i16) -> (r: i16)
    ensures
        r == spec_accumulate(additive, cur, v),
{
    if additive {
        cur.wrapping_add(v)
    } else {
        v
    }
}

fn other_amount(additive: bool, a: Option<&Zone>, b: Option<&Zone>, c: Option<&Zone>, kind: u16) -> (r: i16)
    ensures
        r == spec_other(additive, spec_zone_list(a, b, c), kind),
{
    if additive {
        signed_in_zones(a, b, c, kind)
    } else {
        0
    }
}

/// Does what one generator of `zone` does to the split being made.
#[verifier::rlimit(40)]
fn gen_step(
    w: &mut SplitWork,
    loops: &mut Vec<(u16, bool)>,
    g: Generator,
    additive: bool,
    zone: &Zone,
    a: Option<&Zone>,
    b: Option<&Zone>,
    c: Option<&Zone>,
    first_id: usize,
)
    ensures
        (*final(w), final(loops)@) == spec_gen_step(*old(w), old(loops)@, g, additive, *zone, spec_zone_list(a, b, c), first_id),
{
    let v: i16 = match g.amount {
        GenAmount::Signed(x) => x,
        _ => 0,
    };
    if g.kind == GEN_PAN {
        let o = other_amount(additive, a, b, c, GEN_PAN);
        w.plan.pan = Some(v.wrapping_add(o));
    } else if g.kind == GEN_ATTACK_VOL_ENV {
        w.plan.envelope.attack = accumulate(additive, w.plan.envelope.attack, v);
    } else if g.kind == GEN_HOLD_VOL_ENV {
        w.plan.envelope.hold = accumulate(additive, w.plan.envelope.hold, v);
    } else if g.kind == GEN_DECAY_VOL_ENV {
        w.plan.envelope.decay = accumulate(additive, w.plan.envelope.decay, v);
    } else if g.kind == GEN_SUSTAIN_VOL_ENV {
        let o = other_amount(additive, a, b, c, GEN_SUSTAIN_VOL_ENV);
        w.plan.sustain = Some(v.wrapping_add(o));
    } else if g.kind == GEN_RELEASE_VOL_ENV {
        w.plan.envelope.release = accumulate(additive, w.plan.envelope.release, v);
    } else if g.kind == GEN_INSTRUMENT {
        w.possibly_global = false;
    } else if g.kind == GEN_KEY_RANGE {
        if let GenAmount::Range(lo, hi) = g.amount {
            if !additive {
                w.split.lowkey = lo as i8;
                w.split.hikey = hi as i8;
            }
        }
    } else if g.kind == GEN_VEL_RANGE {
        if let GenAmount::Range(lo, hi) = g.amount {
            if !additive {
                w.split.lovel = lo as i8;
                w.split.hivel = hi as i8;
            }
        }
    } else if g.kind == GEN_INITIAL_ATTENUATION {
        let o = other_amount(additive, a, b, c, GEN_INITIAL_ATTENUATION);
        w.plan.attenuation = Some(v.wrapping_add(o));
    } else if g.kind == GEN_COARSE_TUNE {
        if let Some(si) = sample_in_zones(zone, a, b, c) {
            let fine: i16 = match first_gen(&zone.gens, GEN_FINE_TUNE) {
                Some(GenAmount::Signed(x)) => x,
                _ => 0,
            };
            w.plan.tune = Some(TunePlan {
                sample: si,
                semitones: v,
                extra_semitones: other_amount(additive, a, b, c, GEN_COARSE_TUNE),
                cents: fine,
                extra_cents: other_amount(additive, a, b, c, GEN_FINE_TUNE),
            });
        }
    } else if g.kind == GEN_FINE_TUNE {
        if let Some(si) = sample_in_zones(zone, a, b, c) {
            let coarse: i16 = match first_gen(&zone.gens, GEN_COARSE_TUNE) {
                Some(GenAmount::Signed(x)) => x,
                _ => 0,
            };
            w.plan.tune = Some(TunePlan {
                sample: si,
                semitones: coarse,
                extra_semitones: other_amount(additive, a, b, c, GEN_COARSE_TUNE),
                cents: v,
                extra_cents: other_amount(additive, a, b, c, GEN_FINE_TUNE),
            });
        }
    } else if g.kind == GEN_SAMPLE_ID {
        if let GenAmount::Unsigned(u) = g.amount {
            w.split.SmplID = (first_id as u16).wrapping_add(u);
        }
        w.possibly_global = false;
    } else if g.kind == GEN_SAMPLE_MODES {
        if let Some(si) = sample_in_zones(zone, a, b, c) {
            loops.push((si, ((v as u16) & 3) % 2 == 1));
        }
    } else if g.kind == GEN_OVERRIDING_ROOT_KEY {
        if v != -1 && !additive {
            w.split.rootkey = v as i8;
        }
    }
}

/// Applies a zone to the split being made, as `spec_apply` says; the zones
/// `a`, `b` and `c`, where given, are the other zones, in order.
fn apply_zone(
    w: &mut SplitWork,
    loops: &mut Vec<(u16, bool)>,
    additive: bool,
    zone: &Zone,
    is_first: bool,
    a: Option<&Zone>,
    b: Option<&Zone>,
    c: Option<&Zone>,
    first_id: usize,
) -> (r: bool)
    ensures
        (*final(w), final(loops)@, r) == spec_apply(*old(w), old(loops)@, additive, *zone, is_first, spec_zone_list(a, b, c), first_id),
{
    let ghost others = spec_zone_list(a, b, c);
    w.plan.envelope = EnvPlan {
        attack: signed_in_zones(a, b, c, GEN_ATTACK_VOL_ENV),
        hold: signed_in_zones(a, b, c, GEN_HOLD_VOL_ENV),
        decay: signed_in_zones(a, b, c, GEN_DECAY_VOL_ENV),
        release: signed_in_zones(a, b, c, GEN_RELEASE_VOL_ENV),
    };
    w.possibly_global = true;
    let ghost w0 = *w;
    let ghost l0 = loops@;
    let gens = &zone.gens;
    let mut i: usize = 0;
    assert(gens@.take(0) =~= Seq::<Generator>::empty());
    while i < gens.len()
        invariant
            i <= gens@.len(),
            gens == &zone.gens,
            (*w, loops@) == spec_apply_gens(w0, l0, gens@.take(i as int), additive, *zone, others, first_id),
            others == spec_zone_list(a, b, c),
        decreases gens.len() - i,
    {
        let g = gens[i];
        assert(gens@.take(i as int + 1).drop_last() =~= gens@.take(i as int));
        assert(gens@.take(i as int + 1).last() == gens@[i as int]);
        gen_step(w, loops, g, additive, zone, a, b, c, first_id);
        i = i + 1;
    }
    assert(gens@.take(i as int) =~= gens@);
    w.possibly_global && is_first
}

// ---------------------------------------------------------------------------
// The splits of a preset
// ---------------------------------------------------------------------------

/// A plan that leaves every value of its split as it is.
pub open spec fn spec_plan_none() -> SplitPlan {
    SplitPlan {
        pan: None,
        attenuation: None,
        sustain: None,
        tune: None,
        envelope: EnvPlan { attack: 0, hold: 0, decay: 0, release: 0 },
    }
}

/// The split that the `i`th zone of an instrument starts from: full key and
/// velocity ranges, full volume, middle pan, keygroup 0, and the tuning,
/// root key and envelope of the zone's sample. A first zone without a
/// sample starts from a neutral tuning, root key 60 and the default
/// envelope; any other zone without a sample makes no split.
pub open spec fn spec_base_split(z: Zone, i: int, infos: Seq<SampleInfo>) -> Option<SplitEntry> {
    let d = SplitEntry {
        lowkey: 0,
        hikey: 127,
        lovel: 0,
        hivel: 127,
        smplvol: 127,
        smplpan: 64,
        kgrpid: 0,
        ..SplitEntry::spec_default()
    };
    match spec_zone_sample(z) {
        Some(si) => Some(SplitEntry {
            tuning: infos[si as int].tuning,
            rootkey: infos[si as int].rootkey,
            volume_envelope: infos[si as int].volume_envelope,
            ..d
        }),
        None => if i != 0 {
            None
        } else {
            Some(SplitEntry { tuning: Tuning { ftune: 0, ctune: 0 }, rootkey: 60, volume_envelope: ADSRVolumeEnvelope::spec_default(), ..d })
        },
    }
}

/// The zone at index `o`, where there is one, as a sequence.
pub open spec fn spec_opt_at(zones: Seq<Zone>, o: Option<usize>) -> Seq<Zone> {
    match o {
        Some(k) => seq![zones[k as int]],
        None => Seq::empty(),
    }
}

/// What the `i`th zone of an instrument makes for the `j`th zone of a
/// preset, given the instrument's global zone `ginst` and the preset's
/// global zone `gpre` (by index): the split and its plan, unless the zone
/// makes none or is itself the instrument's global zone; the loop
/// settings; and the instrument's global zone after it.
///
/// The split starts as `spec_base_split` says; the instrument's global
/// zone, then the zone itself set its values; the preset's global zone,
/// then the preset zone add theirs.
pub open spec fn spec_zone_split(
    izones: Seq<Zone>,
    i: int,
    ginst: Option<usize>,
    pzones: Seq<Zone>,
    j: int,
    gpre: Option<usize>,
    infos: Seq<SampleInfo>,
    loops: Seq<(u16, bool)>,
    first_id: usize,
) -> (Option<(SplitEntry, SplitPlan)>, Seq<(u16, bool)>, Option<usize>) {
    let iz = izones[i];
    let pz = pzones[j];
    match spec_base_split(iz, i, infos) {
        None => (None, loops, ginst),
        Some(base) => {
            let w0 = SplitWork { split: base, plan: spec_plan_none(), possibly_global: true };
            let (w1, l1) = match ginst {
                Some(gi) => {
                    let (x, y, _g) = spec_apply(w0, loops, false, izones[gi as int], false, seq![pz, iz], first_id);
                    (x, y)
                },
                None => (w0, loops),
            };
            let (w2, l2, isg) = spec_apply(
                w1,
                l1,
                false,
                iz,
                i == 0,
                spec_opt_at(izones, ginst) + seq![pz] + spec_opt_at(pzones, gpre),
                first_id,
            );
            let ginst2 = if isg {
                Some(i as usize)
            } else {
                ginst
            };
            let (w3, l3) = match gpre {
                Some(gp) => {
                    let (x, y, _g) = spec_apply(w2, l2, true, pzones[gp as int], false, seq![iz] + spec_opt_at(izones, ginst2), first_id);
                    (x, y)
                },
                None => (w2, l2),
            };
            let (w4, l4, _g) = spec_apply(w3, l3, true, pz, false, seq![iz] + spec_opt_at(izones, ginst2), first_id);
            (
                if isg {
                    None
                } else {
                    Some((w4.split, w4.plan))
                },
                l4,
                ginst2,
            )
        },
    }
}

/// The splits that the first `k` zones of an instrument make for the `j`th
/// zone of a preset, with the loop settings and the instrument's global
/// zone after them.
pub open spec fn spec_zone_splits(
    izones: Seq<Zone>,
    k: int,
    pzones: Seq<Zone>,
    j: int,
    gpre: Option<usize>,
    infos: Seq<SampleInfo>,
    loops: Seq<(u16, bool)>,
    first_id: usize,
) -> (Seq<(SplitEntry, SplitPlan)>, Seq<(u16, bool)>, Option<usize>)
    decreases k,
{
    if k <= 0 {
        (Seq::empty(), loops, None)
    } else {
        let (out, l, g) = spec_zone_splits(izones, k - 1, pzones, j, gpre, infos, loops, first_id);
        let (s, l2, g2) = spec_zone_split(izones, k - 1, g, pzones, j, gpre, infos, l, first_id);
        (
            match s {
                Some(x) => out.push(x),
                None => out,
            },
            l2,
            g2,
        )
    }
}

/// The splits that the first `k` zones of a preset make, with the loop
/// settings and the preset's global zone after them: a zone that names an
/// instrument makes the splits of the instrument's zones; a first zone
/// that names none is the preset's global zone.
pub open spec fn spec_preset_splits(
    pzones: Seq<Zone>,
    k: int,
    instruments: Seq<Instrument>,
    infos: Seq<SampleInfo>,
    loops: Seq<(u16, bool)>,
    first_id: usize,
) -> (Seq<(SplitEntry, SplitPlan)>, Seq<(u16, bool)>, Option<usize>)
    decreases k,
{
    if k <= 0 {
        (Seq::empty(), loops, None)
    } else {
        let (out, l, gpre) = spec_preset_splits(pzones, k - 1, instruments, infos, loops, first_id);
        let j = k - 1;
        match spec_zone_instrument(pzones[j]) {
            Some(ii) => {
                let iz = instruments[ii as int].zones@;
                let (s, l2, _g) = spec_zone_splits(iz, iz.len() as int, pzones, j, gpre, infos, l, first_id);
                (out + s, l2, gpre)
            },
            None => (
                out,
                l,
                if j == 0 {
                    Some(0usize)
                } else {
                    gpre
                },
            ),
        }
    }
}

/// The splits, each numbered by its place.
pub open spec fn spec_numbered(splits: Seq<(SplitEntry, SplitPlan)>) -> Seq<SplitEntry> {
    Seq::new(splits.len(), |k: int| SplitEntry { id: k as u8, ..splits[k].0 })
}

/// The plans of the splits.
pub open spec fn spec_plans(splits: Seq<(SplitEntry, SplitPlan)>) -> Seq<SplitPlan> {
    Seq::new(splits.len(), |k: int| splits[k].1)
}

/// The header of a preset's program: numbered `bank * 128 + preset` (in 16
/// bits, wrapping), full volume, middle pan, pad byte 0xAA.
pub open spec fn spec_program_header(p: Preset) -> ProgramInfoHeader {
    ProgramInfoHeader {
        id: p.bank.wrapping_mul(128).wrapping_add(p.preset),
        prgvol: 127,
        prgpan: 64,
        PadByte: 170,
        ..ProgramInfoHeader::spec_default()
    }
}

/// The program that a preset makes, with four default LFOs and its splits
/// numbered in order; the plans of the splits; and the loop settings.
pub open spec fn spec_preset_plan(
    p: Preset,
    instruments: Seq<Instrument>,
    infos: Seq<SampleInfo>,
    loops: Seq<(u16, bool)>,
    first_id: usize,
) -> ((ProgramInfoView, Seq<SplitPlan>), Seq<(u16, bool)>) {
    let (splits, l, _g) = spec_preset_splits(p.zones@, p.zones@.len() as int, instruments, infos, loops, first_id);
    (
        (
            ProgramInfoView {
                header: spec_program_header(p),
                lfo_table: TableView { read_n: 4, objects: Seq::new(4, |_k: int| LFOEntry::spec_default()) },
                _delimiter: _ProgramInfoDelimiter::spec_default(),
                splits_table: TableView { read_n: 8, objects: spec_numbered(splits) },
            },
            spec_plans(splits),
        ),
        l,
    )
}

/// The programs and plans that the first `k` presets make, with the loop
/// settings after them.
pub open spec fn spec_copy_presets(
    presets: Seq<Preset>,
    k: int,
    instruments: Seq<Instrument>,
    infos: Seq<SampleInfo>,
    first_id: usize,
) -> (Seq<(ProgramInfoView, Seq<SplitPlan>)>, Seq<(u16, bool)>)
    decreases k,
{
    if k <= 0 {
        (Seq::empty(), Seq::empty())
    } else {
        let (out, l) = spec_copy_presets(presets, k - 1, instruments, infos, first_id);
        let (pp, l2) = spec_preset_plan(presets[k - 1], instruments, infos, l, first_id);
        (out.push(pp), l2)
    }
}

/// Whether each generator of a zone has the form that its kind takes.
pub open spec fn spec_zone_ok(z: Zone) -> bool {
    forall|i: int| 0 <= i < z.gens@.len() ==> spec_kind_ok(#[trigger] z.gens@[i])
}

/// Whether presets and instruments can be turned into programs: each
/// generator has the form of its kind, each preset zone's instrument is
/// one of `instruments`, and each instrument zone's sample is one of the
/// `n` sample entries.
pub open spec fn spec_presets_ok(presets: Seq<Preset>, instruments: Seq<Instrument>, n: nat) -> bool {
    &&& forall|i: int, j: int|
        0 <= i < presets.len() && 0 <= j < presets[i].zones@.len() ==> spec_zone_ok(#[trigger] presets[i].zones@[j]) && (
        spec_zone_instrument(presets[i].zones@[j]) matches Some(ii) ==> ii < instruments.len())
    &&& forall|i: int, j: int|
        0 <= i < instruments.len() && 0 <= j < instruments[i].zones@.len() ==> spec_zone_ok(#[trigger] instruments[i].zones@[j])
            && (spec_zone_sample(instruments[i].zones@[j]) matches Some(si) ==> si < n)
}

/// Whether a generator's amount has the form that its kind takes.
fn kind_ok(g: Generator) -> (r: bool)
    ensures
        r == spec_kind_ok(g),
{
    if g.kind == GEN_KEY_RANGE || g.kind == GEN_VEL_RANGE {
        matches!(g.amount, GenAmount::Range(_, _))
    } else if g.kind == GEN_INSTRUMENT || g.kind == GEN_SAMPLE_ID {
        matches!(g.amount, GenAmount::Unsigned(_))
    } else {
        matches!(g.amount, GenAmount::Signed(_))
    }
}

/// Whether each generator of a zone has the form that its kind takes.
fn zone_ok(z: &Zone) -> (r: bool)
    ensures
        r == spec_zone_ok(*z),
{
    let mut i: usize = 0;
    while i < z.gens.len()
        invariant
            i <= z.gens@.len(),
            forall|k: int| 0 <= k < i ==> spec_kind_ok(#[trigger] z.gens@[k]),
        decreases z.gens.len() - i,
    {
        if !kind_ok(z.gens[i]) {
            return false;
        }
        i = i + 1;
    }
    true
}

/// Whether presets and instruments can be turned into programs, as
/// `spec_presets_ok` says, with `n` sample entries.
pub fn presets_ok(presets: &Vec<Preset>, instruments: &Vec<Instrument>, n: usize) -> (r: bool)
    ensures
        r == spec_presets_ok(presets@, instruments@, n as nat),
{
    let mut i: usize = 0;
    while i < presets.len()
        invariant
            i <= presets@.len(),
            forall|a: int, b: int|
                0 <= a < i && 0 <= b < presets@[a].zones@.len() ==> spec_zone_ok(#[trigger] presets@[a].zones@[b]) && (
                spec_zone_instrument(presets@[a].zones@[b]) matches Some(ii) ==> ii < instruments@.len()),
        decreases presets.len() - i,
    {
        let zones = &presets[i].zones;
        let mut j: usize = 0;
        while j < zones.len()
            invariant
                i < presets@.len(),
                zones == &presets@[i as int].zones,
                j <= zones@.len(),
                forall|a: int, b: int|
                    0 <= a < i && 0 <= b < presets@[a].zones@.len() ==> spec_zone_ok(#[trigger] presets@[a].zones@[b]) && (
                    spec_zone_instrument(presets@[a].zones@[b]) matches Some(ii) ==> ii < instruments@.len()),
                forall|b: int|
                    0 <= b < j ==> spec_zone_ok(#[trigger] zones@[b]) && (spec_zone_instrument(zones@[b]) matches Some(ii) ==> ii
                        < instruments@.len()),
            decreases zones.len() - j,
        {
            let z = &zones[j];
            let inst_ok = match first_gen(&z.gens, GEN_INSTRUMENT) {
                Some(GenAmount::Unsigned(ii)) => (ii as usize) < instruments.len(),
                _ => true,
            };
            if !zone_ok(z) || !inst_ok {
                assert(presets@[i as int].zones@[j as int] == zones@[j as int]);
                return false;
            }
            j = j + 1;
        }
        assert forall|a: int, b: int|
            0 <= a < i + 1 && 0 <= b < presets@[a].zones@.len() implies spec_zone_ok(#[trigger] presets@[a].zones@[b]) && (
            spec_zone_instrument(presets@[a].zones@[b]) matches Some(ii) ==> ii < instruments@.len()) by {
            if a == i {
                assert(presets@[a].zones@[b] == zones@[b]);
            }
        }
        i = i + 1;
    }
    let mut i: usize = 0;
    while i < instruments.len()
        invariant
            i <= instruments@.len(),
            forall|a: int, b: int|
                0 <= a < presets@.len() && 0 <= b < presets@[a].zones@.len() ==> spec_zone_ok(#[trigger] presets@[a].zones@[b]) && (
                spec_zone_instrument(presets@[a].zones@[b]) matches Some(ii) ==> ii < instruments@.len()),
            forall|a: int, b: int|
                0 <= a < i && 0 <= b < instruments@[a].zones@.len() ==> spec_zone_ok(#[trigger] instruments@[a].zones@[b])
                    && (spec_zone_sample(instruments@[a].zones@[b]) matches Some(si) ==> si < n),
        decreases instruments.len() - i,
    {
        let zones = &instruments[i].zones;
        let mut j: usize = 0;
        while j < zones.len()
            invariant
                i < instruments@.len(),
                zones == &instruments@[i as int].zones,
                j <= zones@.len(),
                forall|a: int, b: int|
                    0 <= a < presets@.len() && 0 <= b < presets@[a].zones@.len() ==> spec_zone_ok(#[trigger] presets@[a].zones@[b]) && (
                    spec_zone_instrument(presets@[a].zones@[b]) matches Some(ii) ==> ii < instruments@.len()),
                forall|a: int, b: int|
                    0 <= a < i && 0 <= b < instruments@[a].zones@.len() ==> spec_zone_ok(#[trigger] instruments@[a].zones@[b])
                        && (spec_zone_sample(instruments@[a].zones@[b]) matches Some(si) ==> si < n),
                forall|b: int|
                    0 <= b < j ==> spec_zone_ok(#[trigger] zones@[b]) && (spec_zone_sample(zones@[b]) matches Some(si) ==> si < n),
            decreases zones.len() - j,
        {
            let z = &zones[j];
            let smpl_ok = match first_gen(&z.gens, GEN_SAMPLE_ID) {
                Some(GenAmount::Unsigned(si)) => (si as usize) < n,
                _ => true,
            };
            if !zone_ok(z) || !smpl_ok {
                assert(instruments@[i as int].zones@[j as int] == zones@[j as int]);
                return false;
            }
            j = j + 1;
        }
        assert forall|a: int, b: int|
            0 <= a < i + 1 && 0 <= b < instruments@[a].zones@.len() implies spec_zone_ok(#[trigger] instruments@[a].zones@[b])
                && (spec_zone_sample(instruments@[a].zones@[b]) matches Some(si) ==> si < n) by {
            if a == i {
                assert(instruments@[a].zones@[b] == zones@[b]);
            }
        }
        i = i + 1;
    }
    true
}

/// The model of a preset's program and of its splits' plans.
pub struct PresetPlan {
    pub program: ProgramInfo,
    pub plans: Vec<SplitPlan>,
}

impl View for PresetPlan {
    type V = (ProgramInfoView, Seq<SplitPlan>);

    open spec fn view(&self) -> (ProgramInfoView, Seq<SplitPlan>) {
        (self.program@, self.plans@)
    }
}

fn copy_envelope(e: &ADSRVolumeEnvelope) -> (r: ADSRVolumeEnvelope)
    ensures
        r == *e,
{
    ADSRVolumeEnvelope {
        envon: e.envon,
        envmult: e.envmult,
        unk19: e.unk19,
        unk20: e.unk20,
        unk21: e.unk21,
        unk22: e.unk22,
        atkvol: e.atkvol,
        attack: e.attack,
        decay: e.decay,
        sustain: e.sustain,
        hold: e.hold,
        decay2: e.decay2,
        release: e.release,
        unk57: e.unk57,
    }
}

/// The split that the `i`th zone of an instrument starts from.
fn base_split(z: &Zone, i: usize, infos: &Vec<SampleInfo>) -> (r: Option<SplitEntry>)
    requires
        spec_zone_sample(*z) matches Some(si) ==> si < infos@.len(),
    ensures
        r == spec_base_split(*z, i as int, infos@),
{
    let smpl = match first_gen(&z.gens, GEN_SAMPLE_ID) {
        Some(GenAmount::Unsigned(v)) => Some(v),
        _ => None,
    };
    let mut d = SplitEntry::default();
    d.lowkey = 0;
    d.hikey = 127;
    d.lovel = 0;
    d.hivel = 127;
    d.smplvol = 127;
    d.smplpan = 64;
    d.kgrpid = 0;
    match smpl {
        Some(si) => {
            let info = &infos[si as usize];
            d.tuning = Tuning::new(info.tuning.ftune, info.tuning.ctune);
            d.rootkey = info.rootkey;
            d.volume_envelope = copy_envelope(&info.volume_envelope);
            Some(d)
        },
        None => {
            if i != 0 {
                None
            } else {
                d.tuning = Tuning::new(0, 0);
                d.rootkey = 60;
                d.volume_envelope = ADSRVolumeEnvelope::default();
                Some(d)
            }
        },
    }
}

/// The zone at index `o`, where there is one.
fn zone_at(zones: &Vec<Zone>, o: Option<usize>) -> (r: Option<&Zone>)
    requires
        o matches Some(k) ==> k < zones@.len(),
    ensures
        spec_opt_zone(r) == spec_opt_at(zones@, o),
{
    match o {
        Some(k) => Some(&zones[k]),
        None => None,
    }
}

/// What the `i`th zone of an instrument makes for the `j`th zone of a
/// preset, as `spec_zone_split` says.
#[verifier::rlimit(40)]
fn zone_split(
    izones: &Vec<Zone>,
    i: usize,
    ginst: Option<usize>,
    pzones: &Vec<Zone>,
    j: usize,
    gpre: Option<usize>,
    infos: &Vec<SampleInfo>,
    loops: &mut Vec<(u16, bool)>,
    first_id: usize,
) -> (r: (Option<(SplitEntry, SplitPlan)>, Option<usize>))
    requires
        i < izones@.len(),
        j < pzones@.len(),
        ginst matches Some(k) ==> k < izones@.len(),
        gpre matches Some(k) ==> k < pzones@.len(),
        spec_zone_sample(izones@[i as int]) matches Some(si) ==> si < infos@.len(),
    ensures
        ({
            let t = spec_zone_split(izones@, i as int, ginst, pzones@, j as int, gpre, infos@, old(loops)@, first_id);
            r.0 == t.0 && final(loops)@ == t.1 && r.1 == t.2
        }),
        r.1 == ginst || r.1 == Some(i),
{
    let iz = &izones[i];
    let pz = &pzones[j];
    let base = match base_split(iz, i, infos) {
        Some(b) => b,
        None => return (None, ginst),
    };
    let mut w = SplitWork { split: base, plan: SplitPlan {
        pan: None,
        attenuation: None,
        sustain: None,
        tune: None,
        envelope: EnvPlan { attack: 0, hold: 0, decay: 0, release: 0 },
    }, possibly_global: true };
    let gi = zone_at(izones, ginst);
    let gp = zone_at(pzones, gpre);
    if let Some(g) = gi {
        assert(spec_zone_list(Some(pz), Some(iz), None) =~= seq![*pz, *iz]);
        apply_zone(&mut w, loops, false, g, false, Some(pz), Some(iz), None, first_id);
    }
    assert(spec_zone_list(gi, Some(pz), gp) =~= spec_opt_at(izones@, ginst) + seq![*pz] + spec_opt_at(pzones@, gpre));
    let isg = apply_zone(&mut w, loops, false, iz, i == 0, gi, Some(pz), gp, first_id);
    let ginst2 = if isg {
        Some(i)
    } else {
        ginst
    };
    let gi2 = zone_at(izones, ginst2);
    assert(spec_zone_list(Some(iz), gi2, None) =~= seq![*iz] + spec_opt_at(izones@, ginst2));
    if let Some(g) = gp {
        apply_zone(&mut w, loops, true, g, false, Some(iz), gi2, None, first_id);
    }
    apply_zone(&mut w, loops, true, pz, false, Some(iz), gi2, None, first_id);
    if isg {
        (None, ginst2)
    } else {
        (Some((w.split, w.plan)), ginst2)
    }
}

/// The splits that the zones of an instrument make for the `j`th zone of a
/// preset, as `spec_zone_splits` says.
pub(crate) fn zone_splits(
    izones: &Vec<Zone>,
    pzones: &Vec<Zone>,
    j: usize,
    gpre: Option<usize>,
    infos: &Vec<SampleInfo>,
    loops: &mut Vec<(u16, bool)>,
    first_id: usize,
) -> (r: Vec<(SplitEntry, SplitPlan)>)
    requires
        j < pzones@.len(),
        gpre matches Some(k) ==> k < pzones@.len(),
        forall|k: int| 0 <= k < izones@.len() ==> (spec_zone_sample(#[trigger] izones@[k]) matches Some(si) ==> si < infos@.len()),
    ensures
        ({
            let t = spec_zone_splits(izones@, izones@.len() as int, pzones@, j as int, gpre, infos@, old(loops)@, first_id);
            r@ == t.0 && final(loops)@ == t.1
        }),
{
    let ghost l0 = loops@;
    let mut out: Vec<(SplitEntry, SplitPlan)> = Vec::new();
    let mut ginst: Option<usize> = None;
    let mut i: usize = 0;
    while i < izones.len()
        invariant
            i <= izones@.len(),
            j < pzones@.len(),
            gpre matches Some(k) ==> k < pzones@.len(),
            forall|k: int| 0 <= k < izones@.len() ==> (spec_zone_sample(#[trigger] izones@[k]) matches Some(si) ==> si < infos@.len()),
            ginst matches Some(x) ==> x < i,
            ({
                let t = spec_zone_splits(izones@, i as int, pzones@, j as int, gpre, infos@, l0, first_id);
                out@ == t.0 && loops@ == t.1 && ginst == t.2
            }),
        decreases izones.len() - i,
    {
        let (s, g2) = zone_split(izones, i, ginst, pzones, j, gpre, infos, loops, first_id);
        match s {
            Some(x) => out.push(x),
            None => {},
        }
        ginst = g2;
        i = i + 1;
    }
    out
}

/// The splits that the zones of a preset make, as `spec_preset_splits` says.
pub(crate) fn preset_splits(
    pzones: &Vec<Zone>,
    instruments: &Vec<Instrument>,
    infos: &Vec<SampleInfo>,
    loops: &mut Vec<(u16, bool)>,
    first_id: usize,
) -> (r: Vec<(SplitEntry, SplitPlan)>)
    requires
        forall|j: int| 0 <= j < pzones@.len() ==> (spec_zone_instrument(#[trigger] pzones@[j]) matches Some(ii) ==> ii < instruments@.len()),
        forall|i: int, k: int|
            0 <= i < instruments@.len() && 0 <= k < instruments@[i].zones@.len() ==> (spec_zone_sample(
                #[trigger] instruments@[i].zones@[k],
            ) matches Some(si) ==> si < infos@.len()),
    ensures
        ({
            let t = spec_preset_splits(pzones@, pzones@.len() as int, instruments@, infos@, old(loops)@, first_id);
            r@ == t.0 && final(loops)@ == t.1
        }),
{
    let ghost l0 = loops@;
    let mut out: Vec<(SplitEntry, SplitPlan)> = Vec::new();
    let mut gpre: Option<usize> = None;
    let mut j: usize = 0;
    while j < pzones.len()
        invariant
            j <= pzones@.len(),
            forall|j: int| 0 <= j < pzones@.len() ==> (spec_zone_instrument(#[trigger] pzones@[j]) matches Some(ii) ==> ii < instruments@.len()),
            forall|i: int, k: int|
                0 <= i < instruments@.len() && 0 <= k < instruments@[i].zones@.len() ==> (spec_zone_sample(
                    #[trigger] instruments@[i].zones@[k],
                ) matches Some(si) ==> si < infos@.len()),
            gpre matches Some(x) ==> x < j,
            ({
                let t = spec_preset_splits(pzones@, j as int, instruments@, infos@, l0, first_id);
                out@ == t.0 && loops@ == t.1 && gpre == t.2
            }),
        decreases pzones.len() - j,
    {
        let inst = match first_gen(&pzones[j].gens, GEN_INSTRUMENT) {
            Some(GenAmount::Unsigned(v)) => Some(v),
            _ => None,
        };
        match inst {
            Some(ii) => {
                let izones = &instruments[ii as usize].zones;
                assert forall|k: int| 0 <= k < izones@.len() implies (spec_zone_sample(#[trigger] izones@[k]) matches Some(si) ==> si
                    < infos@.len()) by {
                    assert(instruments@[ii as int].zones@[k] == izones@[k]);
                }
                let mut s = zone_splits(izones, pzones, j, gpre, infos, loops, first_id);
                out.append(&mut s);
            },
            None => {
                if j == 0 {
                    gpre = Some(0);
                }
            },
        }
        j = j + 1;
    }
    out
}

/// The program that a preset makes and its splits' plans, as
/// `spec_preset_plan` says.
fn preset_plan(
    p: &Preset,
    instruments: &Vec<Instrument>,
    infos: &Vec<SampleInfo>,
    loops: &mut Vec<(u16, bool)>,
    first_id: usize,
) -> (r: PresetPlan)
    requires
        forall|j: int| 0 <= j < p.zones@.len() ==> (spec_zone_instrument(#[trigger] p.zones@[j]) matches Some(ii) ==> ii < instruments@.len()),
        forall|i: int, k: int|
            0 <= i < instruments@.len() && 0 <= k < instruments@[i].zones@.len() ==> (spec_zone_sample(
                #[trigger] instruments@[i].zones@[k],
            ) matches Some(si) ==> si < infos@.len()),
    ensures
        (r@, final(loops)@) == spec_preset_plan(*p, instruments@, infos@, old(loops)@, first_id),
{
    let mut splits = preset_splits(&p.zones, instruments, infos, loops, first_id);
    let ghost all = splits@;
    let total = splits.len();
    assert(all.len() == total);
    let mut program = ProgramInfo::default();
    program.header.id = p.bank.wrapping_mul(128).wrapping_add(p.preset);
    program.header.prgvol = 127;
    program.header.prgpan = 64;
    program.header.PadByte = 170;
    assert(program.lfo_table.objects@.len() == program.lfo_table@.objects.len());
    assert(program.splits_table.objects@.len() == program.splits_table@.objects.len());
    assert(program.lfo_table.objects@ =~= Seq::new(0, |_k: int| LFOEntry::spec_default()));
    let mut n: usize = 0;
    while n < 4
        invariant
            n <= 4,
            program.lfo_table.objects@ =~= Seq::new(n as nat, |_k: int| LFOEntry::spec_default()),
            program.lfo_table._read_n == 4,
            program.splits_table._read_n == 8,
            program.splits_table.objects@.len() == 0,
            program.header == spec_program_header(*p),
            program._delimiter == _ProgramInfoDelimiter::spec_default(),
            splits@ == all,
        decreases 4 - n,
    {
        program.lfo_table.objects.push(LFOEntry::default());
        n = n + 1;
    }
    let mut plans: Vec<SplitPlan> = Vec::new();
    let mut k: usize = 0;
    while splits.len() > 0
        invariant
            k + splits@.len() == all.len(),
            all.len() <= usize::MAX,
            splits@ =~= all.skip(k as int),
            program.splits_table.objects@ =~= spec_numbered(all).take(k as int),
            plans@ =~= spec_plans(all).take(k as int),
            program.lfo_table.objects@ =~= Seq::new(4, |_k: int| LFOEntry::spec_default()),
            program.lfo_table._read_n == 4,
            program.splits_table._read_n == 8,
            program.header == spec_program_header(*p),
            program._delimiter == _ProgramInfoDelimiter::spec_default(),
        decreases splits.len(),
    {
        assert(splits@[0] == all[k as int]);
        let (mut s, pl) = splits.remove(0);
        s.id = k as u8;
        program.splits_table.objects.push(s);
        plans.push(pl);
        k = k + 1;
    }
    assert(program.lfo_table@.objects =~= Seq::new(4, |_k: int| LFOEntry::spec_default()));
    assert(program.splits_table@.objects =~= spec_numbered(all));
    PresetPlan { program, plans }
}

/// Turns presets into programs: for each preset, its program (with its
/// header, four default LFOs and its splits) and the plans of its splits'
/// floating-point values; with the loop settings of the samples, in order.
/// Each sample entry of `sample_infos` is that of the instruments' sample of
/// the same index, and `first_available_id` is the id of the first of them.
pub fn copy_presets(
    presets: &Vec<Preset>,
    instruments: &Vec<Instrument>,
    sample_infos: &Vec<SampleInfo>,
    first_available_id: usize,
) -> (r: (Vec<PresetPlan>, Vec<(u16, bool)>))
    requires
        spec_presets_ok(presets@, instruments@, sample_infos@.len()),
    ensures
        r.0@.map_values(|x: PresetPlan| x@) == spec_copy_presets(presets@, presets@.len() as int, instruments@, sample_infos@, first_available_id).0,
        r.1@ == spec_copy_presets(presets@, presets@.len() as int, instruments@, sample_infos@, first_available_id).1,
{
    let mut out: Vec<PresetPlan> = Vec::new();
    let mut loops: Vec<(u16, bool)> = Vec::new();
    let mut k: usize = 0;
    while k < presets.len()
        invariant
            k <= presets@.len(),
            spec_presets_ok(presets@, instruments@, sample_infos@.len()),
            ({
                let t = spec_copy_presets(presets@, k as int, instruments@, sample_infos@, first_available_id);
                out@.map_values(|x: PresetPlan| x@) == t.0 && loops@ == t.1
            }),
        decreases presets.len() - k,
    {
        let p = &presets[k];
        assert forall|j: int| 0 <= j < p.zones@.len() implies (spec_zone_instrument(#[trigger] p.zones@[j]) matches Some(ii) ==> ii
            < instruments@.len()) by {
            assert(presets@[k as int].zones@[j] == p.zones@[j]);
        }
        let pp = preset_plan(p, instruments, sample_infos, &mut loops, first_available_id);
        let ghost before = out@;
        out.push(pp);
        assert(out@.map_values(|x: PresetPlan| x@) =~= before.map_values(|x: PresetPlan| x@).push(pp@));
        k = k + 1;
    }
    (out, loops)
}

// ---------------------------------------------------------------------------
// Samples
// ---------------------------------------------------------------------------

/// A sample's data after processing: its rate, the format of its bytes, its
/// tuning at that rate, its bytes, and where its loop starts among them.
pub struct ProcessedSample {
    pub rate: u32,
    pub format: u16,
    pub tuning: Tuning,
    pub data: Vec<u8>,
    pub loop_start: usize,
}

/// A sample of a sound font: its header's rate, original pitch, start, end
/// and loop start (in frames of the font's sample data), and its data after
/// processing, where the font has sample data.
pub struct SampleSource {
    pub sample_rate: u32,
    pub origpitch: u8,
    pub start: u32,
    pub end: u32,
    pub loop_start: u32,
    pub processed: Option<ProcessedSample>,
}

/// Where the loop of processed data starts: 4 counts as 0.
pub open spec fn spec_loop_start(p: ProcessedSample) -> int {
    if p.loop_start == 4 {
        0
    } else {
        p.loop_start as int
    }
}

/// The entry of a sample that was not processed keeps the header's rate
/// and takes its root key from the original pitch (60 for pitches of 128
/// and above); its loop start and length count two frames each, from the
/// sample's start to its loop start and from there to its end (rounded
/// down); it does not loop, at full volume and middle pan.
pub proof fn lemma_sample_entry_from_header(src: SampleSource, id: u16)
    requires
        src.processed is None,
        src.start <= src.loop_start <= src.end,
    ensures
        ({
            let e = spec_sample_entry(src, id);
            &&& e.id == id && e.smplrate == src.sample_rate && !e.smplloop && e.volume == 127 && e.pan == 64
            &&& (src.origpitch < 128 ==> e.rootkey == src.origpitch as i8)
            &&& (src.origpitch >= 128 ==> e.rootkey == 60)
            &&& 2 * e.loopbeg <= src.loop_start - src.start < 2 * e.loopbeg + 2
            &&& 2 * e.looplen <= src.end - src.loop_start < 2 * e.looplen + 2
        }),
{
}

/// The entry of a sample with the given id, before its position is set:
/// the header's rate, the original pitch as root key (60 for 128 and
/// above), full volume, middle pan, 4-bit ADPCM, no looping, loop start
/// and length from the header (in units of two frames), the envelope
/// `ADSRVolumeEnvelope::spec_default2`; where the sample was processed, the
/// processed rate, format and tuning, and loop start and length from the
/// processed bytes (in units of four bytes).
pub open spec fn spec_sample_entry(src: SampleSource, id: u16) -> SampleInfo {
    let base = SampleInfo {
        id,
        smplrate: src.sample_rate,
        rootkey: if src.origpitch >= 128 {
            60i8
        } else {
            src.origpitch as i8
        },
        volume: 127,
        pan: 64,
        smplfmt: 0x0200,
        smplloop: false,
        loopbeg: ((src.loop_start - src.start) / 2) as u32,
        looplen: ((src.end - src.loop_start) / 2) as u32,
        volume_envelope: ADSRVolumeEnvelope::spec_default2(),
        ..SampleInfo::spec_default()
    };
    match src.processed {
        Some(p) => SampleInfo {
            smplrate: p.rate,
            smplfmt: p.format,
            tuning: p.tuning,
            loopbeg: (spec_loop_start(p) as u32) / 4,
            looplen: ((p.data@.len() - spec_loop_start(p)) as u32) / 4,
            ..base
        },
        None => base,
    }
}

/// Bytes that a sample's entry covers: its loop start and length, in units
/// of four bytes.
pub open spec fn spec_span(e: SampleInfo) -> int {
    (e.loopbeg + e.looplen) * 4
}

/// Processed bytes, padded with zeros to a multiple of 4.
pub open spec fn spec_padded(d: Seq<u8>) -> Seq<u8> {
    d + Seq::new((((d.len() + 3) / 4) * 4 - d.len()) as nat, |_i: int| 0u8)
}

/// Padded bytes are the bytes followed by fewer than four zeros, up to a
/// multiple of four.
pub proof fn lemma_padded_to_four(d: Seq<u8>)
    ensures
        spec_padded(d).len() % 4 == 0,
        d.len() <= spec_padded(d).len() < d.len() + 4,
        spec_padded(d).subrange(0, d.len() as int) == d,
        forall|i: int| d.len() <= i < spec_padded(d).len() ==> #[trigger] spec_padded(d)[i] == 0,
{
    let p = spec_padded(d);
    assert(((d.len() + 3) / 4) * 4 >= d.len());
    assert(((d.len() + 3) / 4) * 4 < d.len() + 4);
    assert((((d.len() + 3) / 4) * 4) % 4 == 0);
    assert(p.subrange(0, d.len() as int) =~= d);
}

/// Where the samples of the entries end: the largest end of an entry, or 0.
pub open spec fn spec_end_of_samples(objs: Seq<SampleInfo>) -> int
    decreases objs.len(),
{
    if objs.len() == 0 {
        0
    } else {
        let m = spec_end_of_samples(objs.drop_last());
        let e = objs.last().smplpos + spec_span(objs.last());
        if e > m {
            e
        } else {
            m
        }
    }
}

/// Where the samples of the entries end is the largest end of an entry:
/// at least `smplpos + (loopbeg + looplen) * 4` of every entry, and that of
/// one of them (0 when there is none).
pub proof fn lemma_end_of_samples_is_largest(objs: Seq<SampleInfo>)
    ensures
        forall|i: int| 0 <= i < objs.len() ==> spec_end_of_samples(objs) >= (#[trigger] objs[i]).smplpos + (objs[i].loopbeg + objs[i].looplen) * 4,
        objs.len() == 0 ==> spec_end_of_samples(objs) == 0,
        objs.len() > 0 ==> exists|i: int| 0 <= i < objs.len()
            && spec_end_of_samples(objs) == (#[trigger] objs[i]).smplpos + (objs[i].loopbeg + objs[i].looplen) * 4,
    decreases objs.len(),
{
    if objs.len() > 0 {
        let d = objs.drop_last();
        lemma_end_of_samples_is_largest(d);
        let n = objs.len() - 1;
        assert forall|i: int| 0 <= i < objs.len() implies spec_end_of_samples(objs) >= (#[trigger] objs[i]).smplpos + (objs[i].loopbeg + objs[i].looplen) * 4 by {
            if i < n {
                assert(objs[i] == d[i]);
            }
        }
        if d.len() == 0 || objs.last().smplpos + spec_span(objs.last()) > spec_end_of_samples(d) {
            assert(spec_end_of_samples(objs) == objs[n].smplpos + (objs[n].loopbeg + objs[n].looplen) * 4);
        } else {
            let i = choose|i: int| 0 <= i < d.len() && spec_end_of_samples(d) == (#[trigger] d[i]).smplpos + (d[i].loopbeg + d[i].looplen) * 4;
            assert(objs[i] == d[i]);
        }
    }
}

/// Copying the first `k` samples: their entries in the bank (placed after
/// `first_pos`), their entries for the song (placed from 0), where the next
/// one goes, and their padded bytes. The ids count from `first_id`.
pub open spec fn spec_samples_copied(srcs: Seq<SampleSource>, k: int, first_id: int, first_pos: int) -> (
    Seq<SampleInfo>,
    Seq<SampleInfo>,
    int,
    Seq<u8>,
)
    decreases k,
{
    if k <= 0 {
        (Seq::empty(), Seq::empty(), 0, Seq::empty())
    } else {
        let (bank, track, pos, pcm) = spec_samples_copied(srcs, k - 1, first_id, first_pos);
        let e = spec_sample_entry(srcs[k - 1], (first_id + k - 1) as u16);
        (
            bank.push(SampleInfo { smplpos: (pos + first_pos) as u32, ..e }),
            track.push(SampleInfo { smplpos: pos as u32, ..e }),
            pos + spec_span(e),
            pcm + match srcs[k - 1].processed {
                Some(p) => spec_padded(p.data@),
                None => Seq::empty(),
            },
        )
    }
}

/// Copied samples follow one another: the first starts at 0 in the song's
/// entries, each next one where the one before ends (its start plus
/// `(loopbeg + looplen) * 4`), the bank's entries sit `first_pos` further on,
/// the ids count up from `first_id`, and the next free place is where the
/// last one ends.
pub proof fn lemma_copied_samples_follow(srcs: Seq<SampleSource>, k: int, first_id: int, first_pos: int)
    requires
        0 <= k <= srcs.len(),
        0 <= first_pos,
        forall|j: int| 0 <= j <= k ==> #[trigger] spec_samples_copied(srcs, j, first_id, first_pos).2 <= u32::MAX,
        forall|j: int| 0 <= j < k ==> #[trigger] spec_samples_copied(srcs, j, first_id, first_pos).2 + first_pos <= u32::MAX,
    ensures
        ({
            let (bank, track, pos, _pcm) = spec_samples_copied(srcs, k, first_id, first_pos);
            &&& bank.len() == k && track.len() == k
            &&& (k == 0 ==> pos == 0)
            &&& (k > 0 ==> track[0].smplpos == 0)
            &&& (k > 0 ==> pos == track[k - 1].smplpos + (track[k - 1].loopbeg + track[k - 1].looplen) * 4)
            &&& forall|a: int, b: int| 0 <= a && b == a + 1 && b < k ==> (#[trigger] track[b]).smplpos == (#[trigger] track[a]).smplpos + (track[a].loopbeg + track[a].looplen) * 4
            &&& forall|a: int| 0 <= a < k ==> (#[trigger] bank[a]).smplpos == track[a].smplpos + first_pos
                && bank[a].id == (first_id + a) as u16 && bank[a] == (SampleInfo { smplpos: bank[a].smplpos, ..track[a] })
        }),
    decreases k,
{
    if k > 0 {
        lemma_copied_samples_follow(srcs, k - 1, first_id, first_pos);
        let (bank0, track0, pos0, _p0) = spec_samples_copied(srcs, k - 1, first_id, first_pos);
        let (bank, track, pos, _p) = spec_samples_copied(srcs, k, first_id, first_pos);
        assert(spec_samples_copied(srcs, k - 1, first_id, first_pos).2 <= u32::MAX);
        assert(spec_samples_copied(srcs, k - 1, first_id, first_pos).2 + first_pos <= u32::MAX);
        assert(pos0 >= 0) by {
            if k - 1 > 0 {
                assert(track0[k - 2].smplpos >= 0);
            }
        }
        assert forall|a: int| 0 <= a < k - 1 implies #[trigger] track[a] == track0[a] && bank[a] == bank0[a] by {}
        assert forall|a: int, b: int| 0 <= a && b == a + 1 && b < k implies (#[trigger] track[b]).smplpos == (#[trigger] track[a]).smplpos + (track[a].loopbeg + track[a].looplen) * 4 by {
            if b < k - 1 {
                assert(track[a] == track0[a] && track[b] == track0[b]);
            } else {
                assert(track[a] == track0[a]);
            }
        }
    }
}

/// Whether samples can be copied after entries `objs`: each end of an
/// entry fits in 32 bits; so does where each sample goes, counted from the
/// end of the entries' samples, and from 0 where the samples end; each
/// sample's loop start is within its header's range; processed bytes are
/// not empty and their loop start is within them; and the ids fit.
pub open spec fn spec_sources_fit(objs: Seq<SampleInfo>, srcs: Seq<SampleSource>) -> bool {
    let first_pos = spec_end_of_samples(objs);
    let first_id = spec_slots(objs) as int;
    &&& forall|i: int| 0 <= i < objs.len() ==> #[trigger] objs[i].smplpos + spec_span(objs[i]) <= u32::MAX
    &&& forall|k: int| 0 <= k <= srcs.len() ==> #[trigger] spec_samples_copied(srcs, k, first_id, first_pos).2 <= u32::MAX
    &&& forall|k: int| 0 <= k < srcs.len() ==> #[trigger] spec_samples_copied(srcs, k, first_id, first_pos).2 + first_pos <= u32::MAX
    &&& forall|i: int|
        0 <= i < srcs.len() ==> #[trigger] srcs[i].start <= srcs[i].loop_start && srcs[i].loop_start <= srcs[i].end && (
        srcs[i].processed matches Some(p) ==> p.data@.len() > 0 && spec_loop_start(p) <= p.data@.len())
    &&& first_id + srcs.len() <= usize::MAX
}

/// The model of a bank's sample data chunk, a fresh one where it has none.
pub open spec fn spec_pcmd_or_fresh(o: Option<PCMDChunk>) -> PCMDChunkView {
    match o {
        Some(c) => c@,
        None => PCMDChunk::spec_fresh(),
    }
}

/// Where the samples of the entries end.
fn end_of_samples(objs: &Vec<SampleInfo>) -> (r: u32)
    requires
        forall|i: int| 0 <= i < objs@.len() ==> #[trigger] objs@[i].smplpos + spec_span(objs@[i]) <= u32::MAX,
    ensures
        r == spec_end_of_samples(objs@),
{
    let mut m: u32 = 0;
    let mut i: usize = 0;
    assert(objs@.take(0) =~= Seq::<SampleInfo>::empty());
    while i < objs.len()
        invariant
            i <= objs@.len(),
            forall|i: int| 0 <= i < objs@.len() ==> #[trigger] objs@[i].smplpos + spec_span(objs@[i]) <= u32::MAX,
            m == spec_end_of_samples(objs@.take(i as int)),
        decreases objs.len() - i,
    {
        assert(objs@.take(i as int + 1).drop_last() =~= objs@.take(i as int));
        assert(objs@.take(i as int + 1).last() == objs@[i as int]);
        let x = &objs[i];
        assert(x.smplpos + spec_span(*x) <= u32::MAX);
        let e = x.smplpos + (x.loopbeg + x.looplen) * 4;
        if e > m {
            m = e;
        }
        i = i + 1;
    }
    assert(objs@.take(i as int) =~= objs@);
    m
}

/// The entry of a sample with the given id, before its position is set.
fn sample_entry(src: &SampleSource, id: u16) -> (r: SampleInfo)
    requires
        src.start <= src.loop_start <= src.end,
        src.processed matches Some(p) ==> spec_loop_start(p) <= p.data@.len(),
    ensures
        r == spec_sample_entry(*src, id),
{
    let mut e = SampleInfo::default();
    e.id = id;
    e.smplrate = src.sample_rate;
    e.rootkey = if src.origpitch >= 128 {
        60
    } else {
        src.origpitch as i8
    };
    e.volume = 127;
    e.pan = 64;
    e.smplfmt = 0x0200;
    e.smplloop = false;
    e.loopbeg = (src.loop_start - src.start) / 2;
    e.looplen = (src.end - src.loop_start) / 2;
    e.volume_envelope = ADSRVolumeEnvelope::default2();
    match &src.processed {
        Some(p) => {
            let ls: usize = if p.loop_start == 4 {
                0
            } else {
                p.loop_start
            };
            e.smplrate = p.rate;
            e.smplfmt = p.format;
            e.tuning = Tuning::new(p.tuning.ftune, p.tuning.ctune);
            e.loopbeg = (ls as u32) / 4;
            e.looplen = ((p.data.len() - ls) as u32) / 4;
        },
        None => {},
    }
    e
}

/// Copies the entry with another position.
pub(crate) fn placed(e: &SampleInfo, pos: u32) -> (r: SampleInfo)
    ensures
        r == (SampleInfo { smplpos: pos, ..*e }),
{
    SampleInfo {
        unk1: e.unk1,
        id: e.id,
        tuning: Tuning::new(e.tuning.ftune, e.tuning.ctune),
        rootkey: e.rootkey,
        ktps: e.ktps,
        volume: e.volume,
        pan: e.pan,
        unk5: e.unk5,
        unk58: e.unk58,
        unk6: e.unk6,
        unk7: e.unk7,
        unk59: e.unk59,
        smplfmt: e.smplfmt,
        unk9: e.unk9,
        smplloop: e.smplloop,
        unk10: e.unk10,
        unk11: e.unk11,
        unk12: e.unk12,
        unk13: e.unk13,
        smplrate: e.smplrate,
        smplpos: pos,
        loopbeg: e.loopbeg,
        looplen: e.looplen,
        volume_envelope: copy_envelope(&e.volume_envelope),
    }
}

/// Copies samples of a sound font into a bank: their entries after the
/// bank's, with ids from the bank's first free slot and positions from the
/// end of the bank's samples, and their processed bytes, each padded with
/// zeros to a multiple of 4, at the end of the bank's sample data (a chunk
/// is added where the bank has none). Gives the first new id and the new
/// entries as a song's bank holds them: positioned from 0.
pub fn copy_raw_sample_data(sources: &Vec<SampleSource>, bank: &mut SWDL) -> (r: (usize, Vec<SampleInfo>))
    requires
        spec_sources_fit(old(bank).wavi.data.objects@, sources@),
    ensures
        r.0 == spec_slots(old(bank).wavi.data.objects@),
        ({
            let t = spec_samples_copied(
                sources@,
                sources@.len() as int,
                r.0 as int,
                spec_end_of_samples(old(bank).wavi.data.objects@),
            );
            let before = spec_pcmd_or_fresh(old(bank).pcmd);
            &&& final(bank).wavi.data.objects@ == old(bank).wavi.data.objects@ + t.0
            &&& r.1@ == t.1
            &&& final(bank).pcmd matches Some(c) && c@ == (PCMDChunkView { data: before.data + t.3, ..before })
        }),
        final(bank).header == old(bank).header,
        final(bank).wavi.header == old(bank).wavi.header,
        final(bank).wavi._read_n == old(bank).wavi._read_n,
        final(bank).wavi.data._read_n == old(bank).wavi.data._read_n,
        final(bank).wavi.data._chunk_len == old(bank).wavi.data._chunk_len,
        final(bank).prgi == old(bank).prgi,
        final(bank).kgrp == old(bank).kgrp,
        final(bank)._eod == old(bank)._eod,
{
    let ghost objs0 = bank.wavi.data.objects@;
    let first_pos = end_of_samples(&bank.wavi.data.objects);
    assert(spec_slots_defined(bank.wavi.data.objects@)) by {
        assert forall|i: int| 0 <= i < objs0.len() implies ((#[trigger] objs0[i].spec_self_index()) is Some
            == objs0[0].spec_self_index() is Some) && (objs0[i].spec_self_index() is Some ==> objs0[i].spec_self_index().unwrap()
            < usize::MAX) by {}
    }
    let first_id = bank.wavi.data.slots();
    let mut pcmd = match bank.pcmd.take() {
        Some(c) => c,
        None => PCMDChunk::default(),
    };
    let ghost before = pcmd@;
    let ghost data0 = pcmd.data@;
    let mut track: Vec<SampleInfo> = Vec::new();
    let mut pos: u32 = 0;
    let mut i: usize = 0;
    while i < sources.len()
        invariant
            i <= sources@.len(),
            spec_sources_fit(objs0, sources@),
            first_pos == spec_end_of_samples(objs0),
            first_id == spec_slots(objs0),
            pcmd.header == before.header,
            pcmd._padding@ == before._padding,
            ({
                let t = spec_samples_copied(sources@, i as int, first_id as int, first_pos as int);
                &&& bank.wavi.data.objects@ == objs0 + t.0
                &&& track@ == t.1
                &&& pos == t.2
                &&& pcmd.data@ == data0 + t.3
            }),
            bank.header == old(bank).header,
            bank.wavi.header == old(bank).wavi.header,
            bank.wavi._read_n == old(bank).wavi._read_n,
            bank.wavi.data._read_n == old(bank).wavi.data._read_n,
            bank.wavi.data._chunk_len == old(bank).wavi.data._chunk_len,
            bank.prgi == old(bank).prgi,
            bank.kgrp == old(bank).kgrp,
            bank._eod == old(bank)._eod,
        decreases sources.len() - i,
    {
        let src = &sources[i];
        assert(src.start <= src.loop_start && src.loop_start <= src.end);
        let e = sample_entry(src, (first_id + i) as u16);
        assert(spec_samples_copied(sources@, i as int, first_id as int, first_pos as int).2 + first_pos <= u32::MAX);
        assert(spec_samples_copied(sources@, i as int + 1, first_id as int, first_pos as int).2 <= u32::MAX);
        let ghost old_pcm = pcmd.data@;
        match &src.processed {
            Some(p) => {
                let n = p.data.len();
                let mut b: usize = 0;
                while b < n
                    invariant
                        b <= n,
                        n == p.data@.len(),
                        pcmd.data@ == old_pcm + p.data@.take(b as int),
                        pcmd.header == before.header,
                        pcmd._padding@ == before._padding,
                    decreases n - b,
                {
                    pcmd.data.push(p.data[b]);
                    b = b + 1;
                }
                let pad: usize = (4 - n % 4) % 4;
                let mut z: usize = 0;
                while z < pad
                    invariant
                        z <= pad,
                        pad == ((n + 3) / 4) * 4 - n,
                        pcmd.data@ == old_pcm + p.data@ + Seq::new(z as nat, |_i: int| 0u8),
                        pcmd.header == before.header,
                        pcmd._padding@ == before._padding,
                    decreases pad - z,
                {
                    pcmd.data.push(0);
                    z = z + 1;
                }
                assert(pcmd.data@ =~= old_pcm + spec_padded(p.data@));
            },
            None => {
                assert(pcmd.data@ =~= old_pcm + Seq::<u8>::empty());
            },
        }
        let span = (e.loopbeg + e.looplen) * 4;
        bank.wavi.data.objects.push(placed(&e, pos + first_pos));
        track.push(placed(&e, pos));
        pos = pos + span;
        i = i + 1;
    }
    bank.pcmd = Some(pcmd);
    (first_id, track)
}

/// Whether the samples `sources` can be copied into `bank`, as
/// `spec_sources_fit` says.
pub fn sources_fit(bank: &SWDL, sources: &Vec<SampleSource>) -> (r: bool)
    ensures
        r == spec_sources_fit(bank.wavi.data.objects@, sources@),
{
    let objs = &bank.wavi.data.objects;
    let mut i: usize = 0;
    while i < objs.len()
        invariant
            i <= objs@.len(),
            objs == &bank.wavi.data.objects,
            forall|j: int| 0 <= j < i ==> #[trigger] objs@[j].smplpos + spec_span(objs@[j]) <= u32::MAX,
        decreases objs.len() - i,
    {
        let x = &objs[i];
        let end: u64 = x.smplpos as u64 + (x.loopbeg as u64 + x.looplen as u64) * 4;
        if end > 0xFFFF_FFFF {
            assert(!(objs@[i as int].smplpos + spec_span(objs@[i as int]) <= u32::MAX));
            return false;
        }
        i = i + 1;
    }
    let first_pos = end_of_samples(objs);
    let ghost objs0 = objs@;
    assert(spec_slots_defined(objs@)) by {
        assert forall|i: int| 0 <= i < objs0.len() implies ((#[trigger] objs0[i].spec_self_index()) is Some
            == objs0[0].spec_self_index() is Some) && (objs0[i].spec_self_index() is Some ==> objs0[i].spec_self_index().unwrap()
            < usize::MAX) by {}
    }
    let first_id = bank.wavi.data.slots();
    if first_id > usize::MAX - sources.len() {
        return false;
    }
    let ghost fid = first_id as int;
    let ghost fpos = first_pos as int;
    let mut pos: u64 = 0;
    let mut k: usize = 0;
    while k < sources.len()
        invariant
            k <= sources@.len(),
            fid == first_id as int,
            fpos == first_pos as int,
            first_pos == spec_end_of_samples(objs0),
            first_id == spec_slots(objs0),
            first_id + sources@.len() <= usize::MAX,
            objs0 == bank.wavi.data.objects@,
            forall|j: int| 0 <= j < objs0.len() ==> #[trigger] objs0[j].smplpos + spec_span(objs0[j]) <= u32::MAX,
            pos == spec_samples_copied(sources@, k as int, fid, fpos).2,
            forall|m: int| 0 <= m <= k ==> #[trigger] spec_samples_copied(sources@, m, fid, fpos).2 <= u32::MAX,
            forall|m: int| 0 <= m < k ==> #[trigger] spec_samples_copied(sources@, m, fid, fpos).2 + fpos <= u32::MAX,
            forall|m: int|
                0 <= m < k ==> #[trigger] sources@[m].start <= sources@[m].loop_start && sources@[m].loop_start <= sources@[m].end && (
                sources@[m].processed matches Some(p) ==> p.data@.len() > 0 && spec_loop_start(p) <= p.data@.len()),
        decreases sources.len() - k,
    {
        let src = &sources[k];
        if !(src.start <= src.loop_start && src.loop_start <= src.end) {
            return false;
        }
        match &src.processed {
            Some(p) => {
                let ls: usize = if p.loop_start == 4 {
                    0
                } else {
                    p.loop_start
                };
                if p.data.len() == 0 || ls > p.data.len() {
                    return false;
                }
            },
            None => {},
        }
        if pos + first_pos as u64 > 0xFFFF_FFFF {
            assert(!(spec_samples_copied(sources@, k as int, fid, fpos).2 + fpos <= u32::MAX));
            return false;
        }
        let e = sample_entry(src, (first_id + k) as u16);
        let next: u64 = pos + (e.loopbeg as u64 + e.looplen as u64) * 4;
        assert(next == spec_samples_copied(sources@, k as int + 1, fid, fpos).2);
        if next > 0xFFFF_FFFF {
            assert(!(spec_samples_copied(sources@, k as int + 1, fid, fpos).2 <= u32::MAX));
            return false;
        }
        pos = next;
        k = k + 1;
    }
    let ghost srcs = sources@;
    assert(forall|i: int| 0 <= i < objs0.len() ==> #[trigger] objs0[i].smplpos + spec_span(objs0[i]) <= u32::MAX);
    assert(forall|m: int| 0 <= m <= srcs.len() ==> #[trigger] spec_samples_copied(srcs, m, fid, fpos).2 <= u32::MAX);
    assert(forall|m: int| 0 <= m < srcs.len() ==> #[trigger] spec_samples_copied(srcs, m, fid, fpos).2 + fpos <= u32::MAX);
    assert(fid == spec_slots(objs0) as int);
    assert(fpos == spec_end_of_samples(objs0));
    assert(fid + srcs.len() <= usize::MAX);
    true
}

/// The entries that copying gives, one per sample: the `m`th is the
/// sample's entry with id `first_id + m` (in 16 bits), and the bank's is
/// the song's moved by `first_pos`.
proof fn lemma_copied_entries(srcs: Seq<SampleSource>, k: int, first_id: int, first_pos: int)
    requires
        0 <= k <= srcs.len(),
    ensures
        ({
            let t = spec_samples_copied(srcs, k, first_id, first_pos);
            &&& t.0.len() == k
            &&& t.1.len() == k
            &&& t.2 >= 0
            &&& forall|m: int| 0 <= m < k ==> (#[trigger] t.1[m]) == (SampleInfo {
                smplpos: spec_samples_copied(srcs, m, first_id, first_pos).2 as u32,
                ..spec_sample_entry(srcs[m], (first_id + m) as u16)
            })
            &&& forall|m: int| 0 <= m < k ==> (#[trigger] t.0[m]) == (SampleInfo {
                smplpos: (spec_samples_copied(srcs, m, first_id, first_pos).2 + first_pos) as u32,
                ..spec_sample_entry(srcs[m], (first_id + m) as u16)
            })
        }),
    decreases k,
{
    if k > 0 {
        lemma_copied_entries(srcs, k - 1, first_id, first_pos);
    }
}

/// Where a copied sample goes: where the one before it goes, moved by the
/// bytes that the one before covers.
proof fn lemma_copied_step(srcs: Seq<SampleSource>, m: int, first_id: int, first_pos: int)
    requires
        0 < m <= srcs.len(),
    ensures
        spec_samples_copied(srcs, m, first_id, first_pos).2 == spec_samples_copied(srcs, m - 1, first_id, first_pos).2
            + spec_span(spec_sample_entry(srcs[m - 1], (first_id + m - 1) as u16)),
{
}

proof fn lemma_placed_core(srcs: Seq<SampleSource>, first_id: int, first_pos: int)
    requires
        forall|k: int| 0 <= k <= srcs.len() ==> #[trigger] spec_samples_copied(srcs, k, first_id, first_pos).2 <= u32::MAX,
    ensures
        ({
            let t = spec_samples_copied(srcs, srcs.len() as int, first_id, first_pos);
            &&& t.0.len() == srcs.len() && t.1.len() == srcs.len()
            &&& srcs.len() > 0 ==> t.1[0].smplpos == 0
            &&& forall|m: int| 0 < m < srcs.len() ==> #[trigger] t.1[m].smplpos == t.1[m - 1].smplpos + spec_span(t.1[m - 1])
            &&& forall|m: int| 0 <= m < srcs.len() ==> #[trigger] t.0[m] == (SampleInfo { smplpos: (t.1[m].smplpos + first_pos) as u32, ..t.1[m] })
            &&& forall|m: int| 0 <= m < srcs.len() ==> (#[trigger] t.1[m]).id == (first_id + m) as u16
        }),
{
    let n = srcs.len() as int;
    lemma_copied_entries(srcs, n, first_id, first_pos);
    let t = spec_samples_copied(srcs, n, first_id, first_pos);
    assert forall|m: int| 0 < m < n implies #[trigger] t.1[m].smplpos == t.1[m - 1].smplpos + spec_span(t.1[m - 1]) by {
        lemma_copied_step(srcs, m, first_id, first_pos);
        lemma_copied_entries(srcs, m, first_id, first_pos);
        lemma_copied_entries(srcs, m - 1, first_id, first_pos);
        assert(spec_samples_copied(srcs, m, first_id, first_pos).2 <= u32::MAX);
        assert(spec_samples_copied(srcs, m - 1, first_id, first_pos).2 <= u32::MAX);
    }
    assert forall|m: int| 0 <= m < n implies #[trigger] t.0[m] == (SampleInfo { smplpos: (t.1[m].smplpos + first_pos) as u32, ..t.1[m] }) by {
        lemma_copied_entries(srcs, m, first_id, first_pos);
        assert(spec_samples_copied(srcs, m, first_id, first_pos).2 <= u32::MAX);
    }
}

/// Turning the first `k` presets into programs gives one program per
/// preset, in order: numbered `bank * 128 + preset` (in 16 bits), at full
/// volume, middle pan and pad byte 0xAA, with four default LFOs and its
/// splits numbered from 0 in order.
pub proof fn lemma_copied_programs(presets: Seq<Preset>, k: int, instruments: Seq<Instrument>, infos: Seq<SampleInfo>, first_id: usize)
    requires
        0 <= k <= presets.len(),
    ensures
        ({
            let out = spec_copy_presets(presets, k, instruments, infos, first_id).0;
            &&& out.len() == k
            &&& forall|j: int| 0 <= j < k ==> {
                &&& (#[trigger] out[j]).0.header == spec_program_header(presets[j])
                &&& out[j].0.header.id == presets[j].bank.wrapping_mul(128).wrapping_add(presets[j].preset)
                &&& out[j].0.header.prgvol == 127 && out[j].0.header.prgpan == 64 && out[j].0.header.PadByte == 170
                &&& out[j].0.lfo_table.objects == Seq::new(4, |_q: int| LFOEntry::spec_default())
                &&& forall|i: int| 0 <= i < out[j].0.splits_table.objects.len() ==> (#[trigger] out[j].0.splits_table.objects[i]).id == i as u8
            }
        }),
    decreases k,
{
    if k > 0 {
        lemma_copied_programs(presets, k - 1, instruments, infos, first_id);
    }
}

/// Samples copied into a bank are placed one after the other: the song's
/// entries from 0, each where the one before it ends, and the bank's at the
/// same places moved by where the bank's samples end; each is the sample's
/// entry with the next id.
pub proof fn lemma_copied_samples_placed(objs: Seq<SampleInfo>, srcs: Seq<SampleSource>)
    requires
        spec_sources_fit(objs, srcs),
    ensures
        ({
            let first_id = spec_slots(objs) as int;
            let first_pos = spec_end_of_samples(objs);
            let t = spec_samples_copied(srcs, srcs.len() as int, first_id, first_pos);
            &&& t.0.len() == srcs.len() && t.1.len() == srcs.len()
            &&& srcs.len() > 0 ==> t.1[0].smplpos == 0
            &&& forall|m: int| 0 < m < srcs.len() ==> #[trigger] t.1[m].smplpos == t.1[m - 1].smplpos + spec_span(t.1[m - 1])
            &&& forall|m: int| 0 <= m < srcs.len() ==> #[trigger] t.0[m] == (SampleInfo { smplpos: (t.1[m].smplpos + first_pos) as u32, ..t.1[m] })
            &&& forall|m: int| 0 <= m < srcs.len() ==> (#[trigger] t.1[m]).id == (first_id + m) as u16
        }),
{
    lemma_placed_core(srcs, spec_slots(objs) as int, spec_end_of_samples(objs));
}

/// Samples copied into a bank whose entries have increasing ids get the
/// ids after them, so the bank's entries keep increasing ids, as long as
/// the new ids fit in 16 bits.
pub proof fn lemma_copied_ids_increasing(objs: Seq<SampleInfo>, srcs: Seq<SampleSource>, first_pos: int)
    requires
        spec_ids_increasing(objs),
        spec_slots(objs) + srcs.len() <= 0x10000,
    ensures
        spec_ids_increasing(objs + spec_samples_copied(srcs, srcs.len() as int, spec_slots(objs) as int, first_pos).0),
{
    let first_id = spec_slots(objs) as int;
    let n = srcs.len() as int;
    lemma_copied_entries(srcs, n, first_id, first_pos);
    let t = spec_samples_copied(srcs, n, first_id, first_pos).0;
    let all = objs + t;
    assert forall|m: int| 0 <= m < n implies (#[trigger] t[m]).id == first_id + m by {
        assert((first_id + m) as u16 == first_id + m);
    }
    if objs.len() > 0 {
        lemma_max_index_increasing(objs);
        assert forall|i: int| 0 <= i < objs.len() implies (#[trigger] objs[i]).id < first_id by {
            if i < objs.len() - 1 {
                assert(objs[i].spec_self_index().unwrap() < objs[objs.len() - 1].spec_self_index().unwrap());
            }
        }
    }
    assert forall|i: int| 0 <= i < all.len() implies (#[trigger] all[i].spec_self_index()) is Some by {}
    assert forall|i: int, j: int| 0 <= i < j < all.len() implies (#[trigger] all[i].spec_self_index()).unwrap() < (
    #[trigger] all[j].spec_self_index()).unwrap() by {
        if j < objs.len() {
            assert(all[i] == objs[i] && all[j] == objs[j]);
        } else if i < objs.len() {
            assert(all[i] == objs[i] && all[j] == t[j - objs.len()]);
            assert(objs[i].id < first_id);
        } else {
            assert(all[i] == t[i - objs.len()] && all[j] == t[j - objs.len()]);
        }
    }
}

} // verus!
