//! What of its sound fonts a song uses: for each program that its tracks
//! select, the preset that plays it, the preset zones whose key and
//! velocity ranges hold a note played, and the samples of those zones'
//! splits that a note played reaches.
use vstd::prelude::*;
use crate::dtype::DSEError;
use crate::smdl::midi::{ProgramUsed, ProgramUsedView};
use crate::swdl::sf2::{
    GenAmount, Instrument, Preset, SplitPlan, Zone, GEN_KEY_RANGE, GEN_VEL_RANGE, find_in_zones, first_gen, preset_splits,
    spec_find_in_zones, spec_opt_zone, spec_zone_splits, zone_splits, spec_presets_ok, spec_zone_sample, spec_zone_instrument, spec_zone_list,
    spec_first_gen, spec_unsigned,
};
use crate::swdl::{SampleInfo, SplitEntry};
use crate::swdl::sf2::{GEN_INSTRUMENT, Generator, placed};

verus! {

/// A sound font as the usage of a song reads it: its presets, its
/// instruments and how many samples it holds.
pub struct SoundFont {
    pub presets: Vec<Preset>,
    pub instruments: Vec<Instrument>,
    pub sample_count: usize,
}

/// What of its sound fonts a song uses, each once, in the order found:
/// presets as (font, preset), preset zones as (font, preset, zone) and
/// samples as (font, sample), the font by its place in the list.
pub struct SoundFontUsage {
    pub presets: Vec<(usize, usize)>,
    pub mappings: Vec<(usize, usize, usize)>,
    pub samples: Vec<(usize, u16)>,
}

/// Whether a preset is numbered `bank`:`program`.
pub open spec fn spec_matches(p: Preset, bank: u8, program: u8) -> bool {
    p.bank == bank as u16 && p.preset == program as u16
}

/// The first of the first `n` presets numbered `bank`:`program`.
pub open spec fn spec_find_in_font(presets: Seq<Preset>, n: int, bank: u8, program: u8) -> Option<int>
    decreases n,
{
    if n <= 0 {
        None
    } else {
        match spec_find_in_font(presets, n - 1, bank, program) {
            Some(j) => Some(j),
            None => if spec_matches(presets[n - 1], bank, program) {
                Some(n - 1)
            } else {
                None
            },
        }
    }
}

/// The first of the first `n` fonts that holds a preset numbered
/// `bank`:`program`, with the first such preset in it.
pub open spec fn spec_find_preset(fonts: Seq<SoundFont>, n: int, bank: u8, program: u8) -> Option<(int, int)>
    decreases n,
{
    if n <= 0 {
        None
    } else {
        match spec_find_preset(fonts, n - 1, bank, program) {
            Some(x) => Some(x),
            None => match spec_find_in_font(fonts[n - 1].presets@, fonts[n - 1].presets@.len() as int, bank, program) {
                Some(j) => Some((n - 1, j)),
                None => None,
            },
        }
    }
}

/// A range amount, where there is one.
pub open spec fn spec_range(a: Option<GenAmount>) -> Option<(u8, u8)> {
    match a {
        Some(GenAmount::Range(lo, hi)) => Some((lo, hi)),
        _ => None,
    }
}

/// Whether `x` is within the range, where there is one.
pub open spec fn spec_in(r: Option<(u8, u8)>, x: u8) -> bool {
    match r {
        Some((lo, hi)) => lo <= x && x <= hi,
        None => true,
    }
}

/// The preset found in a font is the first numbered `bank`:`program`: none
/// where no preset of the first `n` is so numbered.
pub proof fn lemma_find_in_font_is_first(presets: Seq<Preset>, n: int, bank: u8, program: u8)
    requires
        0 <= n <= presets.len(),
    ensures
        spec_find_in_font(presets, n, bank, program) is None <==> forall|j: int| 0 <= j < n ==> !((#[trigger] presets[j]).bank == bank as u16 && presets[j].preset == program as u16),
        spec_find_in_font(presets, n, bank, program) matches Some(j) ==> 0 <= j < n && presets[j].bank == bank as u16 && presets[j].preset == program as u16
            && forall|i: int| 0 <= i < j ==> !((#[trigger] presets[i]).bank == bank as u16 && presets[i].preset == program as u16),
    decreases n,
{
    if n > 0 {
        lemma_find_in_font_is_first(presets, n - 1, bank, program);
    }
}

/// The preset found in the fonts is in the first font that holds one
/// numbered `bank`:`program`, and is that font's first such preset: none
/// where none of the first `n` fonts holds one.
pub proof fn lemma_find_preset_is_first(fonts: Seq<SoundFont>, n: int, bank: u8, program: u8)
    requires
        0 <= n <= fonts.len(),
    ensures
        spec_find_preset(fonts, n, bank, program) is None <==> forall|f: int, j: int| 0 <= f < n && 0 <= j < fonts[f].presets@.len()
            ==> !((#[trigger] fonts[f].presets@[j]).bank == bank as u16 && fonts[f].presets@[j].preset == program as u16),
        spec_find_preset(fonts, n, bank, program) matches Some((f, j)) ==> 0 <= f < n && 0 <= j < fonts[f].presets@.len()
            && fonts[f].presets@[j].bank == bank as u16 && fonts[f].presets@[j].preset == program as u16
            && (forall|i: int| 0 <= i < j ==> !((#[trigger] fonts[f].presets@[i]).bank == bank as u16 && fonts[f].presets@[i].preset == program as u16))
            && (forall|g: int, i: int| 0 <= g < f && 0 <= i < fonts[g].presets@.len()
                ==> !((#[trigger] fonts[g].presets@[i]).bank == bank as u16 && fonts[g].presets@[i].preset == program as u16)),
    decreases n,
{
    if n > 0 {
        lemma_find_preset_is_first(fonts, n - 1, bank, program);
        let ps = fonts[n - 1].presets@;
        lemma_find_in_font_is_first(ps, ps.len() as int, bank, program);
        if spec_find_preset(fonts, n - 1, bank, program) is None {
            if spec_find_in_font(ps, ps.len() as int, bank, program) is None {
                assert forall|f: int, j: int| 0 <= f < n && 0 <= j < fonts[f].presets@.len()
                    implies !((#[trigger] fonts[f].presets@[j]).bank == bank as u16 && fonts[f].presets@[j].preset == program as u16) by {
                    if f == n - 1 {
                        assert(fonts[f].presets@[j] == ps[j]);
                    }
                }
            } else {
                let j = spec_find_in_font(ps, ps.len() as int, bank, program).unwrap();
                assert(fonts[n - 1].presets@[j] == ps[j]);
            }
        }
    }
}

/// Adding each of the first `n` of `xs` unless it is there already keeps
/// `s` at the front, holds exactly what `s` and those hold, and adds no
/// second copy of anything.
pub proof fn lemma_add_all_sets<T>(s: Seq<T>, xs: Seq<T>, n: int)
    requires
        0 <= n <= xs.len(),
    ensures
        spec_add_all(s, xs, n).len() >= s.len(),
        forall|i: int| 0 <= i < s.len() ==> #[trigger] spec_add_all(s, xs, n)[i] == s[i],
        forall|x: T| #[trigger] spec_add_all(s, xs, n).contains(x) <==> s.contains(x) || exists|i: int| 0 <= i < n && xs[i] == x,
        s.no_duplicates() ==> spec_add_all(s, xs, n).no_duplicates(),
    decreases n,
{
    if n > 0 {
        lemma_add_all_sets(s, xs, n - 1);
        let prev = spec_add_all(s, xs, n - 1);
        let cur = spec_add_all(s, xs, n);
        let x = xs[n - 1];
        if !prev.contains(x) {
            assert(cur == prev.push(x));
            assert forall|y: T| #[trigger] cur.contains(y) <==> prev.contains(y) || y == x by {
                if cur.contains(y) {
                    let q = choose|q: int| 0 <= q < cur.len() && cur[q] == y;
                    if q < prev.len() {
                        assert(prev[q] == y);
                    }
                }
                if prev.contains(y) {
                    let q = choose|q: int| 0 <= q < prev.len() && prev[q] == y;
                    assert(cur[q] == y);
                }
                if y == x {
                    assert(cur[prev.len() as int] == x);
                }
            }
        }
        assert forall|y: T| #[trigger] cur.contains(y) <==> s.contains(y) || exists|i: int| 0 <= i < n && xs[i] == y by {
            if exists|i: int| 0 <= i < n && xs[i] == y {
                let i = choose|i: int| 0 <= i < n && xs[i] == y;
                if i < n - 1 {
                    assert(prev.contains(y));
                }
            }
            if prev.contains(y) && !s.contains(y) {
                let i = choose|i: int| 0 <= i < n - 1 && xs[i] == y;
                assert(0 <= i < n && xs[i] == y);
            }
        }
    }
}

/// Whether the notes played hit the key and velocity ranges: always where
/// there is neither, else where a note's key and velocity are within the
/// ranges there are.
pub open spec fn spec_notes_hit(notes: Set<(u8, u8)>, key: Option<(u8, u8)>, vel: Option<(u8, u8)>) -> bool {
    (key is None && vel is None) || exists|n: (u8, u8)| #[trigger] notes.contains(n) && spec_in(key, n.0) && spec_in(vel, n.1)
}

/// The global zone of a preset, as a sequence: its first zone, where that
/// names no instrument.
pub open spec fn spec_global_zone(pzones: Seq<Zone>) -> Seq<Zone> {
    if pzones.len() > 0 && spec_zone_instrument(pzones[0]) is None {
        seq![pzones[0]]
    } else {
        Seq::empty()
    }
}

/// Whether the `k`th zone of a preset is used: it names an instrument, and
/// the notes played hit its key and velocity ranges (taken from the zone,
/// then from the preset's global zone).
pub open spec fn spec_zone_kept(pzones: Seq<Zone>, k: int, pu: ProgramUsedView) -> bool {
    let zs = seq![pzones[k]] + spec_global_zone(pzones);
    &&& spec_zone_instrument(pzones[k]) is Some
    &&& spec_notes_hit(pu.notes, spec_range(spec_find_in_zones(zs, GEN_KEY_RANGE)), spec_range(spec_find_in_zones(zs, GEN_VEL_RANGE)))
}

/// The splits that the first `k` zones of a preset make for a program
/// (as `spec_preset_splits` says), with the loop settings and the global
/// zone after them, where a zone that names an instrument but is not used
/// is passed over.
pub open spec fn spec_played_preset_splits(
    pzones: Seq<Zone>,
    k: int,
    instruments: Seq<Instrument>,
    infos: Seq<SampleInfo>,
    loops: Seq<(u16, bool)>,
    first_id: usize,
    pu: ProgramUsedView,
) -> (Seq<(SplitEntry, SplitPlan)>, Seq<(u16, bool)>, Option<usize>)
    decreases k,
{
    if k <= 0 {
        (Seq::empty(), loops, None)
    } else {
        let (out, l, gpre) = spec_played_preset_splits(pzones, k - 1, instruments, infos, loops, first_id, pu);
        let j = k - 1;
        match spec_zone_instrument(pzones[j]) {
            Some(ii) => if spec_zone_kept(pzones, j, pu) {
                let iz = instruments[ii as int].zones@;
                let (s, l2, _g) = spec_zone_splits(iz, iz.len() as int, pzones, j, gpre, infos, l, first_id);
                (out + s, l2, gpre)
            } else {
                (out, l, gpre)
            },
            None => (
                out,
                l,
                if j == 0 {
                    Some(0usize)
                } else {
                    gpre
                },
            ),
        }
    }
}

/// The zones used among the first `n` zones of the `j`th preset of font
/// `fi`, as (font, preset, zone).
pub open spec fn spec_kept_triples(pzones: Seq<Zone>, n: int, fi: usize, j: usize, pu: ProgramUsedView) -> Seq<(usize, usize, usize)>
    decreases n,
{
    if n <= 0 {
        Seq::empty()
    } else {
        let prev = spec_kept_triples(pzones, n - 1, fi, j, pu);
        if spec_zone_kept(pzones, n - 1, pu) {
            prev.push((fi, j, (n - 1) as usize))
        } else {
            prev
        }
    }
}

/// Sample entries that stand in for the font's samples while its splits
/// are made: defaults at 44100 Hz.
pub open spec fn spec_stand_in_infos(n: nat) -> Seq<SampleInfo> {
    Seq::new(n, |_i: int| SampleInfo { smplrate: 44100, ..SampleInfo::spec_default() })
}

/// The splits that the zones a program plays of the `j`th preset of a font
/// make (see `spec_preset_splits`), its sample ids the font's sample indices.
pub open spec fn spec_played_splits(f: SoundFont, j: int, pu: ProgramUsedView) -> Seq<(SplitEntry, SplitPlan)> {
    let pz = f.presets@[j].zones@;
    spec_played_preset_splits(pz, pz.len() as int, f.instruments@, spec_stand_in_infos(f.sample_count as nat), Seq::empty(), 0, pu).0
}

/// Whether the notes played hit a split's key and velocity ranges.
pub open spec fn spec_split_hit(notes: Set<(u8, u8)>, s: SplitEntry) -> bool {
    spec_notes_hit(notes, Some((s.lowkey as u8, s.hikey as u8)), Some((s.lovel as u8, s.hivel as u8)))
}

/// The samples of the first `n` splits that the notes played hit, as
/// (font, sample).
pub open spec fn spec_hit_samples(splits: Seq<(SplitEntry, SplitPlan)>, n: int, fi: usize, pu: ProgramUsedView) -> Seq<(usize, u16)>
    decreases n,
{
    if n <= 0 {
        Seq::empty()
    } else {
        let prev = spec_hit_samples(splits, n - 1, fi, pu);
        if spec_split_hit(pu.notes, splits[n - 1].0) {
            prev.push((fi, splits[n - 1].0.SmplID))
        } else {
            prev
        }
    }
}

/// Ranges are hit by the notes played exactly when there is none, or when
/// some note played has its key within the key range and its velocity
/// within the velocity range, each where there is one (bounds included).
pub proof fn lemma_notes_hit_needs_a_note(notes: Set<(u8, u8)>, key: Option<(u8, u8)>, vel: Option<(u8, u8)>)
    ensures
        spec_notes_hit(notes, key, vel) <==> (key is None && vel is None) || exists|n: (u8, u8)| #[trigger] notes.contains(n)
            && (key matches Some((lo, hi)) ==> lo <= n.0 && n.0 <= hi)
            && (vel matches Some((lo, hi)) ==> lo <= n.1 && n.1 <= hi),
{
    if spec_notes_hit(notes, key, vel) && !(key is None && vel is None) {
        let n = choose|n: (u8, u8)| #[trigger] notes.contains(n) && spec_in(key, n.0) && spec_in(vel, n.1);
        assert(notes.contains(n) && (key matches Some((lo, hi)) ==> lo <= n.0 && n.0 <= hi) && (vel matches Some((lo, hi)) ==> lo <= n.1 && n.1 <= hi));
    }
    if !(key is None && vel is None) && exists|n: (u8, u8)| #[trigger] notes.contains(n)
        && (key matches Some((lo, hi)) ==> lo <= n.0 && n.0 <= hi)
        && (vel matches Some((lo, hi)) ==> lo <= n.1 && n.1 <= hi) {
        let n = choose|n: (u8, u8)| #[trigger] notes.contains(n)
            && (key matches Some((lo, hi)) ==> lo <= n.0 && n.0 <= hi)
            && (vel matches Some((lo, hi)) ==> lo <= n.1 && n.1 <= hi);
        assert(spec_in(key, n.0) && spec_in(vel, n.1));
    }
}

/// A sample counts as hit exactly when one of the splits plays it and some
/// note played lies within that split's key range and velocity range: every
/// sample reported comes from such a split of the first `n`, and every such
/// split's sample is reported.
pub proof fn lemma_hit_samples_played(splits: Seq<(SplitEntry, SplitPlan)>, n: int, fi: usize, pu: ProgramUsedView)
    requires
        0 <= n <= splits.len(),
    ensures
        forall|x: (usize, u16)| #[trigger] spec_hit_samples(splits, n, fi, pu).contains(x) ==> x.0 == fi && exists|k: int, m: (u8, u8)|
            0 <= k < n && (#[trigger] splits[k]).0.SmplID == x.1 && #[trigger] pu.notes.contains(m)
                && splits[k].0.lowkey as u8 <= m.0 && m.0 <= splits[k].0.hikey as u8
                && splits[k].0.lovel as u8 <= m.1 && m.1 <= splits[k].0.hivel as u8,
        forall|k: int, m: (u8, u8)| 0 <= k < n && #[trigger] pu.notes.contains(m)
            && (#[trigger] splits[k]).0.lowkey as u8 <= m.0 && m.0 <= splits[k].0.hikey as u8
            && splits[k].0.lovel as u8 <= m.1 && m.1 <= splits[k].0.hivel as u8
            ==> spec_hit_samples(splits, n, fi, pu).contains((fi, splits[k].0.SmplID)),
    decreases n,
{
    if n > 0 {
        lemma_hit_samples_played(splits, n - 1, fi, pu);
        let prev = spec_hit_samples(splits, n - 1, fi, pu);
        let cur = spec_hit_samples(splits, n, fi, pu);
        let s = splits[n - 1].0;
        lemma_notes_hit_needs_a_note(pu.notes, Some((s.lowkey as u8, s.hikey as u8)), Some((s.lovel as u8, s.hivel as u8)));
        assert forall|x: (usize, u16)| #[trigger] cur.contains(x) implies x.0 == fi && exists|k: int, m: (u8, u8)|
            0 <= k < n && (#[trigger] splits[k]).0.SmplID == x.1 && #[trigger] pu.notes.contains(m)
                && splits[k].0.lowkey as u8 <= m.0 && m.0 <= splits[k].0.hikey as u8
                && splits[k].0.lovel as u8 <= m.1 && m.1 <= splits[k].0.hivel as u8 by {
            if !prev.contains(x) {
                assert(spec_split_hit(pu.notes, s));
                assert(cur == prev.push((fi, s.SmplID)));
                let q = choose|q: int| 0 <= q < cur.len() && cur[q] == x;
                assert(q == prev.len());
                assert(x == (fi, s.SmplID));
                let m = choose|m: (u8, u8)| #[trigger] pu.notes.contains(m)
                    && (Some((s.lowkey as u8, s.hikey as u8)) matches Some((lo, hi)) ==> lo <= m.0 && m.0 <= hi)
                    && (Some((s.lovel as u8, s.hivel as u8)) matches Some((lo, hi)) ==> lo <= m.1 && m.1 <= hi);
                assert(pu.notes.contains(m) && splits[n - 1].0.SmplID == x.1);
            } else {
                let (k, m) = choose|k: int, m: (u8, u8)|
                    0 <= k < n - 1 && (#[trigger] splits[k]).0.SmplID == x.1 && #[trigger] pu.notes.contains(m)
                        && splits[k].0.lowkey as u8 <= m.0 && m.0 <= splits[k].0.hikey as u8
                        && splits[k].0.lovel as u8 <= m.1 && m.1 <= splits[k].0.hivel as u8;
                assert(pu.notes.contains(m));
            }
        }
        assert forall|k: int, m: (u8, u8)| 0 <= k < n && #[trigger] pu.notes.contains(m)
            && (#[trigger] splits[k]).0.lowkey as u8 <= m.0 && m.0 <= splits[k].0.hikey as u8
            && splits[k].0.lovel as u8 <= m.1 && m.1 <= splits[k].0.hivel as u8
            implies cur.contains((fi, splits[k].0.SmplID)) by {
            if k < n - 1 {
                assert(prev.contains((fi, splits[k].0.SmplID)));
                if spec_split_hit(pu.notes, s) {
                    let q = choose|q: int| 0 <= q < prev.len() && prev[q] == (fi, splits[k].0.SmplID);
                    assert(cur == prev.push((fi, s.SmplID)));
                    assert(cur[q] == (fi, splits[k].0.SmplID));
                }
            } else {
                assert(spec_split_hit(pu.notes, s));
                assert(cur == prev.push((fi, s.SmplID)));
                assert(cur[prev.len() as int] == (fi, s.SmplID));
            }
        }
    }
}

/// The zones used and the samples hit of the first `n` presets of font `fi`
/// numbered as the program is.
pub open spec fn spec_font_scan(f: SoundFont, fi: usize, pu: ProgramUsedView, n: int) -> (Seq<(usize, usize, usize)>, Seq<(usize, u16)>)
    decreases n,
{
    if n <= 0 {
        (Seq::empty(), Seq::empty())
    } else {
        let (m, s) = spec_font_scan(f, fi, pu, n - 1);
        let j = n - 1;
        if spec_matches(f.presets@[j], pu.bank, pu.program) {
            let pz = f.presets@[j].zones@;
            let sp = spec_played_splits(f, j, pu);
            (m + spec_kept_triples(pz, pz.len() as int, fi, j as usize, pu), s + spec_hit_samples(sp, sp.len() as int, fi, pu))
        } else {
            (m, s)
        }
    }
}

/// `s` with `x` added at its end unless it holds it.
pub open spec fn spec_add<T>(s: Seq<T>, x: T) -> Seq<T> {
    if s.contains(x) {
        s
    } else {
        s.push(x)
    }
}

/// `s` with the first `n` of `xs` added, each unless it is there already.
pub open spec fn spec_add_all<T>(s: Seq<T>, xs: Seq<T>, n: int) -> Seq<T>
    decreases n,
{
    if n <= 0 {
        s
    } else {
        spec_add(spec_add_all(s, xs, n - 1), xs[n - 1])
    }
}

/// Usage so far: presets, zones, samples.
pub type UsageSets = (Seq<(usize, usize)>, Seq<(usize, usize, usize)>, Seq<(usize, u16)>);

/// One program used: its preset in the fonts, then the zones used and
/// samples hit of the presets so numbered in that font; a program that no
/// font holds fails, with its bank and number, unless the track selected it
/// by default, when it adds nothing.
pub open spec fn spec_usage_step(acc: UsageSets, fonts: Seq<SoundFont>, pu: ProgramUsedView) -> Result<UsageSets, (u8, u8)> {
    match spec_find_preset(fonts, fonts.len() as int, pu.bank, pu.program) {
        None => if pu.is_default {
            Ok(acc)
        } else {
            Err((pu.bank, pu.program))
        },
        Some((fi, j)) => {
            let (m, s) = spec_font_scan(fonts[fi], fi as usize, pu, fonts[fi].presets@.len() as int);
            Ok((spec_add(acc.0, (fi as usize, j as usize)), spec_add_all(acc.1, m, m.len() as int), spec_add_all(acc.2, s, s.len() as int)))
        },
    }
}

/// The usage after the first `n` programs of a track.
pub open spec fn spec_usage_track(acc: UsageSets, fonts: Seq<SoundFont>, pus: Seq<ProgramUsedView>, n: int) -> Result<UsageSets, (u8, u8)>
    decreases n,
{
    if n <= 0 {
        Ok(acc)
    } else {
        match spec_usage_track(acc, fonts, pus, n - 1) {
            Err(e) => Err(e),
            Ok(a) => spec_usage_step(a, fonts, pus[n - 1]),
        }
    }
}

/// The usage of the first `n` tracks' programs, track by track.
pub open spec fn spec_usage(fonts: Seq<SoundFont>, used: Seq<Seq<ProgramUsedView>>, n: int) -> Result<UsageSets, (u8, u8)>
    decreases n,
{
    if n <= 0 {
        Ok((Seq::empty(), Seq::empty(), Seq::empty()))
    } else {
        match spec_usage(fonts, used, n - 1) {
            Err(e) => Err(e),
            Ok(a) => spec_usage_track(a, fonts, used[n - 1], used[n - 1].len() as int),
        }
    }
}

/// The models of each track's programs used.
pub open spec fn spec_used_models(used: Seq<Vec<ProgramUsed>>) -> Seq<Seq<ProgramUsedView>> {
    used.map_values(|v: Vec<ProgramUsed>| v@.map_values(|p: ProgramUsed| p@))
}

/// Whether each font's presets and instruments can be turned into programs
/// (see `spec_presets_ok`).
pub open spec fn spec_fonts_ok(fonts: Seq<SoundFont>) -> bool {
    forall|i: int| 0 <= i < fonts.len() ==> spec_presets_ok(#[trigger] fonts[i].presets@, fonts[i].instruments@, fonts[i].sample_count as nat)
}

/// Whether at most one preset of a font, among those numbered as a program
/// is, makes splits from the zones the program plays.
pub open spec fn spec_single_program(f: SoundFont, pu: ProgramUsedView) -> bool {
    forall|a: int, b: int|
        0 <= a < b < f.presets@.len() && spec_matches(f.presets@[a], pu.bank, pu.program) && spec_matches(f.presets@[b], pu.bank, pu.program)
            ==> #[trigger] spec_played_splits(f, a, pu).len() == 0 || #[trigger] spec_played_splits(f, b, pu).len() == 0
}

/// Whether, for each program used that a font holds, at most one preset of
/// that font makes splits for it.
pub open spec fn spec_programs_single(fonts: Seq<SoundFont>, used: Seq<Seq<ProgramUsedView>>) -> bool {
    forall|t: int, k: int|
        0 <= t < used.len() && 0 <= k < used[t].len() ==> match spec_find_preset(fonts, fonts.len() as int, #[trigger] used[t][k].bank, used[t][k].program) {
            Some((fi, _j)) => spec_single_program(fonts[fi], used[t][k]),
            None => true,
        }
}

proof fn lemma_find_in_font_kept(presets: Seq<Preset>, m: int, n: int, bank: u8, program: u8)
    requires
        0 <= m <= n,
        spec_find_in_font(presets, m, bank, program) is Some,
    ensures
        spec_find_in_font(presets, n, bank, program) == spec_find_in_font(presets, m, bank, program),
    decreases n - m,
{
    if n > m {
        lemma_find_in_font_kept(presets, m, n - 1, bank, program);
    }
}

proof fn lemma_find_preset_kept(fonts: Seq<SoundFont>, m: int, n: int, bank: u8, program: u8)
    requires
        0 <= m <= n,
        spec_find_preset(fonts, m, bank, program) is Some,
    ensures
        spec_find_preset(fonts, n, bank, program) == spec_find_preset(fonts, m, bank, program),
    decreases n - m,
{
    if n > m {
        lemma_find_preset_kept(fonts, m, n - 1, bank, program);
    }
}

proof fn lemma_find_in_font_range(presets: Seq<Preset>, n: int, bank: u8, program: u8)
    ensures
        spec_find_in_font(presets, n, bank, program) matches Some(j) ==> 0 <= j < n,
    decreases n,
{
    if n > 0 {
        lemma_find_in_font_range(presets, n - 1, bank, program);
    }
}

proof fn lemma_find_preset_range(fonts: Seq<SoundFont>, n: int, bank: u8, program: u8)
    ensures
        spec_find_preset(fonts, n, bank, program) matches Some((i, _j)) ==> 0 <= i < n,
    decreases n,
{
    if n > 0 {
        lemma_find_preset_range(fonts, n - 1, bank, program);
    }
}

/// The first preset numbered `bank`:`program`.
fn find_in_font(presets: &Vec<Preset>, bank: u8, program: u8) -> (r: Option<usize>)
    ensures
        match r {
            Some(j) => spec_find_in_font(presets@, presets@.len() as int, bank, program) == Some(j as int),
            None => spec_find_in_font(presets@, presets@.len() as int, bank, program) is None,
        },
{
    let mut j: usize = 0;
    while j < presets.len()
        invariant
            j <= presets@.len(),
            spec_find_in_font(presets@, j as int, bank, program) is None,
        decreases presets.len() - j,
    {
        if presets[j].bank == bank as u16 && presets[j].preset == program as u16 {
            proof { lemma_find_in_font_kept(presets@, j as int + 1, presets@.len() as int, bank, program); }
            return Some(j);
        }
        j = j + 1;
    }
    None
}

/// The first font that holds a preset numbered `bank`:`program`, and the
/// first such preset in it.
fn find_preset(fonts: &Vec<SoundFont>, bank: u8, program: u8) -> (r: Option<(usize, usize)>)
    ensures
        match r {
            Some((i, j)) => spec_find_preset(fonts@, fonts@.len() as int, bank, program) == Some((i as int, j as int)),
            None => spec_find_preset(fonts@, fonts@.len() as int, bank, program) is None,
        },
{
    let mut i: usize = 0;
    while i < fonts.len()
        invariant
            i <= fonts@.len(),
            spec_find_preset(fonts@, i as int, bank, program) is None,
        decreases fonts.len() - i,
    {
        match find_in_font(&fonts[i].presets, bank, program) {
            Some(j) => {
                proof { lemma_find_preset_kept(fonts@, i as int + 1, fonts@.len() as int, bank, program); }
                return Some((i, j));
            },
            None => {},
        }
        i = i + 1;
    }
    None
}

/// The range of kind `kind` in a zone, else in the preset's global zone.
fn range_in(z: &Zone, g: Option<&Zone>, kind: u16) -> (r: Option<(u8, u8)>)
    ensures
        r == spec_range(spec_find_in_zones(seq![*z] + spec_opt_zone(g), kind)),
{
    assert(spec_zone_list(Some(z), g, None) =~= seq![*z] + spec_opt_zone(g));
    match find_in_zones(Some(z), g, None, kind) {
        Some(GenAmount::Range(lo, hi)) => Some((lo, hi)),
        _ => None,
    }
}

/// Whether the notes played hit the key and velocity ranges.
fn notes_hit(notes: &Vec<(u8, u8)>, key: Option<(u8, u8)>, vel: Option<(u8, u8)>) -> (r: bool)
    ensures
        r == spec_notes_hit(notes@.to_set(), key, vel),
{
    if key.is_none() && vel.is_none() {
        return true;
    }
    let mut i: usize = 0;
    while i < notes.len()
        invariant
            i <= notes@.len(),
            forall|m: int| 0 <= m < i ==> !(spec_in(key, (#[trigger] notes@[m]).0) && spec_in(vel, notes@[m].1)),
        decreases notes.len() - i,
    {
        let (k, v) = notes[i];
        let kin = match key {
            Some((lo, hi)) => lo <= k && k <= hi,
            None => true,
        };
        let vin = match vel {
            Some((lo, hi)) => lo <= v && v <= hi,
            None => true,
        };
        if kin && vin {
            assert(notes@.to_set().contains(notes@[i as int]));
            return true;
        }
        i = i + 1;
    }
    assert forall|n: (u8, u8)| #[trigger] notes@.to_set().contains(n) implies !(spec_in(key, n.0) && spec_in(vel, n.1)) by {
        let m = choose|m: int| 0 <= m < notes@.len() && notes@[m] == n;
        assert(notes@[m] == n);
    }
    false
}

/// The instrument of a zone, where it names one.
fn zone_instrument(z: &Zone) -> (r: Option<u16>)
    ensures
        r == spec_zone_instrument(*z),
{
    match first_gen(&z.gens, GEN_INSTRUMENT) {
        Some(GenAmount::Unsigned(v)) => Some(v),
        _ => None,
    }
}

/// The global zone of a preset, where it has one.
fn global_zone(pzones: &Vec<Zone>) -> (r: Option<&Zone>)
    ensures
        spec_opt_zone(r) == spec_global_zone(pzones@),
{
    if pzones.len() > 0 && zone_instrument(&pzones[0]).is_none() {
        Some(&pzones[0])
    } else {
        None
    }
}

/// Whether the `k`th zone of a preset is used by the program.
fn zone_kept(pzones: &Vec<Zone>, k: usize, pu: &ProgramUsed) -> (r: bool)
    requires
        k < pzones@.len(),
    ensures
        r == spec_zone_kept(pzones@, k as int, pu@),
{
    if zone_instrument(&pzones[k]).is_none() {
        return false;
    }
    let g = global_zone(pzones);
    let key = range_in(&pzones[k], g, GEN_KEY_RANGE);
    let vel = range_in(&pzones[k], g, GEN_VEL_RANGE);
    notes_hit(&pu.notes, key, vel)
}

/// The splits that the zones a program plays of a preset make, as
/// `spec_played_preset_splits` says.
fn played_preset_splits(
    pzones: &Vec<Zone>,
    instruments: &Vec<Instrument>,
    infos: &Vec<SampleInfo>,
    loops: &mut Vec<(u16, bool)>,
    pu: &ProgramUsed,
) -> (r: Vec<(SplitEntry, SplitPlan)>)
    requires
        forall|j: int| 0 <= j < pzones@.len() ==> (spec_zone_instrument(#[trigger] pzones@[j]) matches Some(ii) ==> ii < instruments@.len()),
        forall|i: int, k: int|
            0 <= i < instruments@.len() && 0 <= k < instruments@[i].zones@.len() ==> (spec_zone_sample(
                #[trigger] instruments@[i].zones@[k],
            ) matches Some(si) ==> si < infos@.len()),
    ensures
        ({
            let t = spec_played_preset_splits(pzones@, pzones@.len() as int, instruments@, infos@, old(loops)@, 0, pu@);
            r@ == t.0 && final(loops)@ == t.1
        }),
{
    let ghost l0 = loops@;
    let mut out: Vec<(SplitEntry, SplitPlan)> = Vec::new();
    let mut gpre: Option<usize> = None;
    let mut j: usize = 0;
    while j < pzones.len()
        invariant
            j <= pzones@.len(),
            forall|j: int| 0 <= j < pzones@.len() ==> (spec_zone_instrument(#[trigger] pzones@[j]) matches Some(ii) ==> ii < instruments@.len()),
            forall|i: int, k: int|
                0 <= i < instruments@.len() && 0 <= k < instruments@[i].zones@.len() ==> (spec_zone_sample(
                    #[trigger] instruments@[i].zones@[k],
                ) matches Some(si) ==> si < infos@.len()),
            gpre matches Some(x) ==> x < j,
            ({
                let t = spec_played_preset_splits(pzones@, j as int, instruments@, infos@, l0, 0, pu@);
                out@ == t.0 && loops@ == t.1 && gpre == t.2
            }),
        decreases pzones.len() - j,
    {
        match zone_instrument(&pzones[j]) {
            Some(ii) => {
                if zone_kept(pzones, j, pu) {
                    let izones = &instruments[ii as usize].zones;
                    assert forall|k: int| 0 <= k < izones@.len() implies (spec_zone_sample(#[trigger] izones@[k]) matches Some(si) ==> si
                        < infos@.len()) by {
                        assert(instruments@[ii as int].zones@[k] == izones@[k]);
                    }
                    let mut s = zone_splits(izones, pzones, j, gpre, infos, loops, 0);
                    out.append(&mut s);
                }
            },
            None => {
                if j == 0 {
                    gpre = Some(0);
                }
            },
        }
        j = j + 1;
    }
    out
}

/// The samples of a preset's played splits that the notes hit.
fn hit_samples(splits: &Vec<(SplitEntry, SplitPlan)>, fi: usize, pu: &ProgramUsed) -> (r: Vec<(usize, u16)>)
    ensures
        r@ == spec_hit_samples(splits@, splits@.len() as int, fi, pu@),
{
    let mut r: Vec<(usize, u16)> = Vec::new();
    let mut i: usize = 0;
    while i < splits.len()
        invariant
            i <= splits@.len(),
            r@ == spec_hit_samples(splits@, i as int, fi, pu@),
        decreases splits.len() - i,
    {
        let s = &splits[i].0;
        if notes_hit(&pu.notes, Some((s.lowkey as u8, s.hikey as u8)), Some((s.lovel as u8, s.hivel as u8))) {
            r.push((fi, s.SmplID));
        }
        i = i + 1;
    }
    r
}

/// The zones of the `j`th preset of font `fi` that the program uses.
fn kept_triples(pzones: &Vec<Zone>, fi: usize, j: usize, pu: &ProgramUsed) -> (r: Vec<(usize, usize, usize)>)
    ensures
        r@ == spec_kept_triples(pzones@, pzones@.len() as int, fi, j, pu@),
{
    let mut r: Vec<(usize, usize, usize)> = Vec::new();
    let mut k: usize = 0;
    while k < pzones.len()
        invariant
            k <= pzones@.len(),
            r@ == spec_kept_triples(pzones@, k as int, fi, j, pu@),
        decreases pzones.len() - k,
    {
        if zone_kept(pzones, k, pu) {
            r.push((fi, j, k));
        }
        k = k + 1;
    }
    r
}

/// Sample entries that stand in for a font's samples.
fn stand_in_infos(n: usize) -> (r: Vec<SampleInfo>)
    ensures
        r@ == spec_stand_in_infos(n as nat),
{
    let mut r: Vec<SampleInfo> = Vec::new();
    let mut i: usize = 0;
    while i < n
        invariant
            i <= n,
            r@ =~= spec_stand_in_infos(i as nat),
        decreases n - i,
    {
        let mut x = SampleInfo::default();
        x.smplrate = 44100;
        r.push(x);
        i = i + 1;
    }
    r
}

/// The zones used and samples hit of the presets of font `fi` numbered as
/// the program is.
fn font_scan(f: &SoundFont, fi: usize, pu: &ProgramUsed) -> (r: (Vec<(usize, usize, usize)>, Vec<(usize, u16)>))
    requires
        spec_presets_ok(f.presets@, f.instruments@, f.sample_count as nat),
    ensures
        (r.0@, r.1@) == spec_font_scan(*f, fi, pu@, f.presets@.len() as int),
{
    let infos = stand_in_infos(f.sample_count);
    let mut m: Vec<(usize, usize, usize)> = Vec::new();
    let mut s: Vec<(usize, u16)> = Vec::new();
    let mut j: usize = 0;
    while j < f.presets.len()
        invariant
            j <= f.presets@.len(),
            infos@ == spec_stand_in_infos(f.sample_count as nat),
            spec_presets_ok(f.presets@, f.instruments@, f.sample_count as nat),
            (m@, s@) == spec_font_scan(*f, fi, pu@, j as int),
        decreases f.presets.len() - j,
    {
        let p = &f.presets[j];
        if p.bank == pu.bank as u16 && p.preset == pu.program as u16 {
            let mut t = kept_triples(&p.zones, fi, j, pu);
            assert forall|k: int| 0 <= k < p.zones@.len() implies (spec_zone_instrument(#[trigger] p.zones@[k]) matches Some(ii) ==> ii
                < f.instruments@.len()) by {
                assert(f.presets@[j as int].zones@[k] == p.zones@[k]);
            }
            let mut loops: Vec<(u16, bool)> = Vec::new();
            let splits = played_preset_splits(&p.zones, &f.instruments, &infos, &mut loops, pu);
            let mut h = hit_samples(&splits, fi, pu);
            m.append(&mut t);
            s.append(&mut h);
        }
        j = j + 1;
    }
    (m, s)
}

fn has_preset(v: &Vec<(usize, usize)>, x: (usize, usize)) -> (r: bool)
    ensures
        r == v@.contains(x),
{
    let mut i: usize = 0;
    while i < v.len()
        invariant
            i <= v@.len(),
            forall|k: int| 0 <= k < i ==> v@[k] != x,
        decreases v.len() - i,
    {
        if v[i].0 == x.0 && v[i].1 == x.1 {
            assert(v@[i as int] == x);
            return true;
        }
        i = i + 1;
    }
    false
}

fn has_mapping(v: &Vec<(usize, usize, usize)>, x: (usize, usize, usize)) -> (r: bool)
    ensures
        r == v@.contains(x),
{
    let mut i: usize = 0;
    while i < v.len()
        invariant
            i <= v@.len(),
            forall|k: int| 0 <= k < i ==> v@[k] != x,
        decreases v.len() - i,
    {
        if v[i].0 == x.0 && v[i].1 == x.1 && v[i].2 == x.2 {
            assert(v@[i as int] == x);
            return true;
        }
        i = i + 1;
    }
    false
}

fn has_sample(v: &Vec<(usize, u16)>, x: (usize, u16)) -> (r: bool)
    ensures
        r == v@.contains(x),
{
    let mut i: usize = 0;
    while i < v.len()
        invariant
            i <= v@.len(),
            forall|k: int| 0 <= k < i ==> v@[k] != x,
        decreases v.len() - i,
    {
        if v[i].0 == x.0 && v[i].1 == x.1 {
            assert(v@[i as int] == x);
            return true;
        }
        i = i + 1;
    }
    false
}

fn add_mappings(v: &mut Vec<(usize, usize, usize)>, xs: &Vec<(usize, usize, usize)>)
    ensures
        final(v)@ == spec_add_all(old(v)@, xs@, xs@.len() as int),
{
    let ghost v0 = v@;
    let mut i: usize = 0;
    while i < xs.len()
        invariant
            i <= xs@.len(),
            v@ == spec_add_all(v0, xs@, i as int),
        decreases xs.len() - i,
    {
        if !has_mapping(v, xs[i]) {
            v.push(xs[i]);
        }
        i = i + 1;
    }
}

fn add_samples(v: &mut Vec<(usize, u16)>, xs: &Vec<(usize, u16)>)
    ensures
        final(v)@ == spec_add_all(old(v)@, xs@, xs@.len() as int),
{
    let ghost v0 = v@;
    let mut i: usize = 0;
    while i < xs.len()
        invariant
            i <= xs@.len(),
            v@ == spec_add_all(v0, xs@, i as int),
        decreases xs.len() - i,
    {
        if !has_sample(v, xs[i]) {
            v.push(xs[i]);
        }
        i = i + 1;
    }
}

/// Formats the message for a program that no sound font of the song holds
/// (`format!`); the contract states nothing of its text.
#[verifier::external_body]
fn missing_preset_message(bank: u8, program: u8, name: &str) -> String {
    format!("Preset {:03}:{:03} not found in any of the specified soundfonts for song '{}'!", bank, program, name)
}

proof fn lemma_track_err_kept(acc: UsageSets, fonts: Seq<SoundFont>, pus: Seq<ProgramUsedView>, m: int, n: int)
    requires
        0 <= m <= n,
        spec_usage_track(acc, fonts, pus, m) is Err,
    ensures
        spec_usage_track(acc, fonts, pus, n) is Err,
    decreases n - m,
{
    if n > m {
        lemma_track_err_kept(acc, fonts, pus, m, n - 1);
    }
}

proof fn lemma_usage_err_kept(fonts: Seq<SoundFont>, used: Seq<Seq<ProgramUsedView>>, m: int, n: int)
    requires
        0 <= m <= n,
        spec_usage(fonts, used, m) is Err,
    ensures
        spec_usage(fonts, used, n) is Err,
    decreases n - m,
{
    if n > m {
        lemma_usage_err_kept(fonts, used, m, n - 1);
    }
}

/// What of its sound fonts a song uses, from the programs that each of its
/// tracks selects (as `from_midi_once` gives them), fonts taken in order:
/// for each program, the first preset of the first font numbered as the
/// program is; the zones of that font's presets so numbered whose key and
/// velocity ranges hold a note played with the program; and the samples of
/// the splits those zones make that such a note reaches. A program that no
/// font holds fails with `DSEError::Invalid`, unless its track selected it
/// by default, when it adds nothing. `name` is the song's, for the message.
pub fn soundfont_usage(fonts: &Vec<SoundFont>, used: &Vec<Vec<ProgramUsed>>, name: &str) -> (r: Result<SoundFontUsage, DSEError>)
    requires
        spec_fonts_ok(fonts@),
        spec_programs_single(fonts@, spec_used_models(used@)),
    ensures
        match spec_usage(fonts@, spec_used_models(used@), used@.len() as int) {
            Ok((a, b, c)) => r matches Ok(u) && u.presets@ == a && u.mappings@ == b && u.samples@ == c,
            Err(_) => r matches Err(DSEError::Invalid(_)),
        },
{
    let ghost models = spec_used_models(used@);
    let mut presets: Vec<(usize, usize)> = Vec::new();
    let mut mappings: Vec<(usize, usize, usize)> = Vec::new();
    let mut samples: Vec<(usize, u16)> = Vec::new();
    let mut t: usize = 0;
    while t < used.len()
        invariant
            t <= used@.len(),
            models == spec_used_models(used@),
            spec_fonts_ok(fonts@),
            spec_usage(fonts@, models, t as int) == Ok::<UsageSets, (u8, u8)>((presets@, mappings@, samples@)),
        decreases used.len() - t,
    {
        let track = &used[t];
        let ghost acc0: UsageSets = (presets@, mappings@, samples@);
        assert(models[t as int] == track@.map_values(|p: ProgramUsed| p@));
        let mut k: usize = 0;
        while k < track.len()
            invariant
                k <= track@.len(),
                t < used@.len(),
                track == &used@[t as int],
                models == spec_used_models(used@),
                models[t as int] == track@.map_values(|p: ProgramUsed| p@),
                spec_fonts_ok(fonts@),
                spec_usage(fonts@, models, t as int) == Ok::<UsageSets, (u8, u8)>(acc0),
                spec_usage_track(acc0, fonts@, models[t as int], k as int) == Ok::<UsageSets, (u8, u8)>((presets@, mappings@, samples@)),
            decreases track.len() - k,
        {
            let pu = &track[k];
            assert(models[t as int][k as int] == pu@);
            proof { lemma_find_preset_range(fonts@, fonts@.len() as int, pu.bank, pu.program); }
            match find_preset(fonts, pu.bank, pu.program) {
                None => {
                    if !pu.is_default {
                        proof {
                            lemma_track_err_kept(acc0, fonts@, models[t as int], k as int + 1, models[t as int].len() as int);
                            lemma_usage_err_kept(fonts@, models, t as int + 1, models.len() as int);
                        }
                        return Err(DSEError::Invalid(missing_preset_message(pu.bank, pu.program, name)));
                    }
                },
                Some((fi, j)) => {
                    let f = &fonts[fi];
                    assert(spec_presets_ok(fonts@[fi as int].presets@, fonts@[fi as int].instruments@, fonts@[fi as int].sample_count as nat));
                    let (m, s) = font_scan(f, fi, pu);
                    if !has_preset(&presets, (fi, j)) {
                        presets.push((fi, j));
                    }
                    add_mappings(&mut mappings, &m);
                    add_samples(&mut samples, &s);
                },
            }
            k = k + 1;
        }
        assert(models[t as int].len() == track@.len());
        t = t + 1;
    }
    Ok(SoundFontUsage { presets, mappings, samples })
}

// ---------------------------------------------------------------------------
// A song's share of a sound font
// ---------------------------------------------------------------------------

/// Whether the `k`th zone of the `j`th preset of font `fi` goes into a
/// song's programs: it is the preset's global zone, or a zone the song uses.
pub open spec fn spec_zone_selected(pzones: Seq<Zone>, fi: usize, j: usize, k: int, mappings: Seq<(usize, usize, usize)>) -> bool {
    (k == 0 && spec_zone_instrument(pzones[0]) is None) || mappings.contains((fi, j, k as usize))
}

/// The generators of the first `n` zones of a preset that go into a song's
/// programs.
pub open spec fn spec_selected_gens(pzones: Seq<Zone>, n: int, fi: usize, j: usize, mappings: Seq<(usize, usize, usize)>) -> Seq<Seq<Generator>>
    decreases n,
{
    if n <= 0 {
        Seq::empty()
    } else {
        let prev = spec_selected_gens(pzones, n - 1, fi, j, mappings);
        if spec_zone_selected(pzones, fi, j, n - 1, mappings) {
            prev.push(pzones[n - 1].gens@)
        } else {
            prev
        }
    }
}

/// A copy of a zone.
fn copy_zone(z: &Zone) -> (r: Zone)
    ensures
        r.gens@ == z.gens@,
{
    let mut gens: Vec<Generator> = Vec::new();
    let mut i: usize = 0;
    while i < z.gens.len()
        invariant
            i <= z.gens@.len(),
            gens@ =~= z.gens@.take(i as int),
        decreases z.gens.len() - i,
    {
        gens.push(z.gens[i]);
        i = i + 1;
    }
    assert(z.gens@.take(i as int) =~= z.gens@);
    Zone { gens }
}

/// The presets of font `fi` with only the zones that go into a song's
/// programs: each preset's global zone and the zones the song uses
/// (`mappings`, as `soundfont_usage` gives them). The presets keep their
/// numbers and order; the zones keep their generators and order.
pub fn select_zones(presets: &Vec<Preset>, fi: usize, mappings: &Vec<(usize, usize, usize)>) -> (r: Vec<Preset>)
    ensures
        r@.len() == presets@.len(),
        forall|j: int|
            0 <= j < presets@.len() ==> (#[trigger] r@[j]).bank == presets@[j].bank && r@[j].preset == presets@[j].preset
                && r@[j].zones@.map_values(|z: Zone| z.gens@) == spec_selected_gens(presets@[j].zones@, presets@[j].zones@.len() as int, fi, j as usize, mappings@),
{
    let mut r: Vec<Preset> = Vec::new();
    let mut j: usize = 0;
    while j < presets.len()
        invariant
            j <= presets@.len(),
            r@.len() == j,
            forall|q: int|
                0 <= q < j ==> (#[trigger] r@[q]).bank == presets@[q].bank && r@[q].preset == presets@[q].preset
                    && r@[q].zones@.map_values(|z: Zone| z.gens@) == spec_selected_gens(presets@[q].zones@, presets@[q].zones@.len() as int, fi, q as usize, mappings@),
        decreases presets.len() - j,
    {
        let p = &presets[j];
        let first_global = p.zones.len() > 0 && zone_instrument(&p.zones[0]).is_none();
        let mut zones: Vec<Zone> = Vec::new();
        let mut k: usize = 0;
        while k < p.zones.len()
            invariant
                k <= p.zones@.len(),
                p == &presets@[j as int],
                first_global == (p.zones@.len() > 0 && spec_zone_instrument(p.zones@[0]) is None),
                zones@.map_values(|z: Zone| z.gens@) == spec_selected_gens(p.zones@, k as int, fi, j, mappings@),
            decreases p.zones.len() - k,
        {
            let ghost before = zones@;
            if (k == 0 && first_global) || has_mapping(mappings, (fi, j, k)) {
                let z = copy_zone(&p.zones[k]);
                zones.push(z);
                assert(zones@.map_values(|z: Zone| z.gens@) =~= before.map_values(|z: Zone| z.gens@).push(p.zones@[k as int].gens@));
            }
            k = k + 1;
        }
        let ghost rb = r@;
        r.push(Preset { bank: p.bank, preset: p.preset, zones });
        assert forall|q: int| 0 <= q < j + 1 implies (#[trigger] r@[q]).bank == presets@[q].bank && r@[q].preset == presets@[q].preset
            && r@[q].zones@.map_values(|z: Zone| z.gens@) == spec_selected_gens(presets@[q].zones@, presets@[q].zones@.len() as int, fi, q as usize, mappings@) by {
            if q < j {
                assert(r@[q] == rb[q]);
            }
        }
        j = j + 1;
    }
    r
}

/// The entries of the first `n` samples of font `fi` that a song plays
/// (`samples`, as `soundfont_usage` gives them), the `i`th entry standing
/// for the font's `i`th sample.
pub open spec fn spec_selected_samples(infos: Seq<SampleInfo>, n: int, fi: usize, samples: Seq<(usize, u16)>) -> Seq<SampleInfo>
    decreases n,
{
    if n <= 0 {
        Seq::empty()
    } else {
        let prev = spec_selected_samples(infos, n - 1, fi, samples);
        if n - 1 <= u16::MAX && samples.contains((fi, (n - 1) as u16)) {
            prev.push(infos[n - 1])
        } else {
            prev
        }
    }
}

/// The sample entries of font `fi` that a song plays, in order: the `i`th
/// entry stands for the font's `i`th sample.
pub fn select_samples(infos: &Vec<SampleInfo>, fi: usize, samples: &Vec<(usize, u16)>) -> (r: Vec<SampleInfo>)
    ensures
        r@ == spec_selected_samples(infos@, infos@.len() as int, fi, samples@),
{
    let mut r: Vec<SampleInfo> = Vec::new();
    let mut i: usize = 0;
    while i < infos.len()
        invariant
            i <= infos@.len(),
            r@ == spec_selected_samples(infos@, i as int, fi, samples@),
        decreases infos.len() - i,
    {
        if i <= 0xFFFF && has_sample(samples, (fi, i as u16)) {
            let e = placed(&infos[i], infos[i].smplpos);
            r.push(e);
        }
        i = i + 1;
    }
    r
}

/// A font's sample entry is selected exactly when the song plays it: every
/// entry selected is the `k`th of the first `n` with (font, `k`) among the
/// samples played, and every such entry is selected.
pub proof fn lemma_selected_samples_played(infos: Seq<SampleInfo>, n: int, fi: usize, samples: Seq<(usize, u16)>)
    requires
        0 <= n <= infos.len(),
    ensures
        forall|x: SampleInfo| #[trigger] spec_selected_samples(infos, n, fi, samples).contains(x) ==> exists|k: int|
            0 <= k < n && k <= u16::MAX && infos[k] == x && #[trigger] samples.contains((fi, k as u16)),
        forall|k: int| 0 <= k < n && k <= u16::MAX && #[trigger] samples.contains((fi, k as u16))
            ==> spec_selected_samples(infos, n, fi, samples).contains(infos[k]),
    decreases n,
{
    if n > 0 {
        lemma_selected_samples_played(infos, n - 1, fi, samples);
        let prev = spec_selected_samples(infos, n - 1, fi, samples);
        let cur = spec_selected_samples(infos, n, fi, samples);
        let took = n - 1 <= u16::MAX && samples.contains((fi, (n - 1) as u16));
        assert forall|x: SampleInfo| #[trigger] cur.contains(x) implies exists|k: int|
            0 <= k < n && k <= u16::MAX && infos[k] == x && #[trigger] samples.contains((fi, k as u16)) by {
            if !prev.contains(x) {
                assert(took);
                assert(cur == prev.push(infos[n - 1]));
                let q = choose|q: int| 0 <= q < cur.len() && cur[q] == x;
                assert(q == prev.len());
                assert(infos[n - 1] == x && samples.contains((fi, (n - 1) as u16)));
            } else {
                let k = choose|k: int| 0 <= k < n - 1 && k <= u16::MAX && infos[k] == x && #[trigger] samples.contains((fi, k as u16));
                assert(samples.contains((fi, k as u16)));
            }
        }
        assert forall|k: int| 0 <= k < n && k <= u16::MAX && #[trigger] samples.contains((fi, k as u16)) implies cur.contains(infos[k]) by {
            if k < n - 1 {
                assert(prev.contains(infos[k]));
                if took {
                    let q = choose|q: int| 0 <= q < prev.len() && prev[q] == infos[k];
                    assert(cur == prev.push(infos[n - 1]));
                    assert(cur[q] == infos[k]);
                }
            } else {
                assert(took);
                assert(cur == prev.push(infos[n - 1]));
                assert(cur[prev.len() as int] == infos[k]);
            }
        }
    }
}

} // verus!
