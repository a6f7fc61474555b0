//! The parts of a song's sound bank that do not come from the sound font
//! itself: the voice channels its keygroups may use, the keygroup template,
//! where each sample sits in memory, and the bank that holds only what a
//! song plays.
use vstd::prelude::*;
use crate::dtype::DSEError;
use crate::dtype::{DSELinkBytes, PointerTableView, ReadWrite, TableView};
use crate::swdl::{
    KGRPChunk, KGRPChunkView, Keygroup, PRGIChunk, PRGIChunkView, ProgramInfo, ProgramInfoHeader, ProgramInfoView, SampleInfo,
    SWDL, SWDLView, WAVIChunkView, SWDLHeader, spec_dse_bytes, spec_fname_text, spec_with_date,
};
use vstd::string::string_is_ascii;

verus! {

/// A sample of a sound font: the font's name and the sample's index.
#[derive(Clone, Debug, PartialEq, Eq, Hash)]
pub struct SampleEntry {
    pub soundfont_name: String,
    pub sample_i: u16,
}

/// An instrument mapping of a sound font: the font's name, the preset's
/// index and the index of the preset's zone.
#[derive(Clone, Debug, PartialEq, Eq, Hash)]
pub struct InstrumentMappingEntry {
    pub soundfont_name: String,
    pub preset_i: usize,
    pub preset_zone_i: usize,
}

/// A preset of a sound font: the font's name and the preset's index.
#[derive(Clone, Debug, PartialEq, Eq, Hash)]
pub struct PresetEntry {
    pub soundfont_name: String,
    pub preset_i: usize,
}

/// Whether the voice channels `start..=end` are out of bounds: the start
/// must be within 0 to 15; the end too, unless it is -1 (meaning 15).
pub open spec fn spec_vcrange_out_of_bounds(start: i8, end: i8) -> bool {
    start < 0 || start > 15 || (end != -1 && (end < 0 || end > 15))
}

/// Whether the voice channels `start..=end` are flipped: an end (not -1)
/// before the start.
pub open spec fn spec_vcrange_flipped(start: i8, end: i8) -> bool {
    end != -1 && start > end
}

/// Checks the voice channels `start..=end` that a song may use.
pub fn check_vcrange_valid(vcrange: (i8, i8)) -> (r: Result<(), DSEError>)
    ensures
        spec_vcrange_out_of_bounds(vcrange.0, vcrange.1) ==> r == Err::<(), DSEError>(DSEError::DSEUsedVoiceChannelsRangeOutOfBounds(vcrange.0, vcrange.1)),
        !spec_vcrange_out_of_bounds(vcrange.0, vcrange.1) && spec_vcrange_flipped(vcrange.0, vcrange.1)
            ==> r == Err::<(), DSEError>(DSEError::DSEUsedVoiceChannelsRangeFlipped(vcrange.0, vcrange.1)),
        !spec_vcrange_out_of_bounds(vcrange.0, vcrange.1) && !spec_vcrange_flipped(vcrange.0, vcrange.1) ==> r is Ok,
{
    let (start, end) = vcrange;
    if start < 0 || start > 15 {
        Err(DSEError::DSEUsedVoiceChannelsRangeOutOfBounds(start, end))
    } else if end != -1 && (end < 0 || end > 15) {
        Err(DSEError::DSEUsedVoiceChannelsRangeOutOfBounds(start, end))
    } else if end != -1 && start > end {
        Err(DSEError::DSEUsedVoiceChannelsRangeFlipped(start, end))
    } else {
        Ok(())
    }
}

/// The error of invalid voice channels, if they are.
pub open spec fn spec_vcrange_error(start: i8, end: i8) -> Option<DSEError> {
    if spec_vcrange_out_of_bounds(start, end) {
        Some(DSEError::DSEUsedVoiceChannelsRangeOutOfBounds(start, end))
    } else if spec_vcrange_flipped(start, end) {
        Some(DSEError::DSEUsedVoiceChannelsRangeFlipped(start, end))
    } else {
        None
    }
}

/// The highest voice channel: the end, or 15 for an end of -1.
pub open spec fn spec_vchigh(start: i8, end: i8) -> i8 {
    if end == -1 { 15 } else { end }
}

/// The lowest voice channel of valid voice channels.
pub fn vclow(vcrange: (i8, i8)) -> (r: Result<i8, DSEError>)
    ensures
        match spec_vcrange_error(vcrange.0, vcrange.1) {
            Some(e) => r == Err::<i8, DSEError>(e),
            None => r == Ok::<i8, DSEError>(vcrange.0),
        },
{
    check_vcrange_valid(vcrange)?;
    Ok(vcrange.0)
}

/// The highest voice channel of valid voice channels (15 for an end of -1).
pub fn vchigh(vcrange: (i8, i8)) -> (r: Result<i8, DSEError>)
    ensures
        match spec_vcrange_error(vcrange.0, vcrange.1) {
            Some(e) => r == Err::<i8, DSEError>(e),
            None => r == Ok::<i8, DSEError>(spec_vchigh(vcrange.0, vcrange.1)),
        },
{
    check_vcrange_valid(vcrange)?;
    if vcrange.1 == -1 {
        Ok(15)
    } else {
        Ok(vcrange.1)
    }
}

/// A keygroup of the template.
pub open spec fn spec_keygroup(id: u16, poly: i8, priority: u8, lo: i8, hi: i8) -> Keygroup {
    Keygroup { id, poly, priority, vclow: lo, vchigh: hi, unk50: 0, unk51: 0 }
}

/// The template of twelve keygroups over the voice channels `lo..=hi`
/// (only the first is used by default).
pub open spec fn spec_template_keygroups(lo: i8, hi: i8) -> Seq<Keygroup> {
    seq![
        spec_keygroup(0, -1i8, 8, lo, hi),
        spec_keygroup(1, 2, 8, lo, hi),
        spec_keygroup(2, 1, 8, lo, hi),
        spec_keygroup(3, 1, 8, lo, hi),
        spec_keygroup(4, 1, 8, lo, hi),
        spec_keygroup(5, 1, 1, lo, hi),
        spec_keygroup(6, 2, 8, lo, hi),
        spec_keygroup(7, 1, 8, lo, hi),
        spec_keygroup(8, 2, 8, lo, hi),
        spec_keygroup(9, -1i8, 8, lo, hi),
        spec_keygroup(10, -1i8, 8, lo, hi),
        spec_keygroup(11, -1i8, 8, lo, hi),
    ]
}

fn keygroup(id: u16, poly: i8, priority: u8, lo: i8, hi: i8) -> (r: Keygroup)
    ensures
        r == spec_keygroup(id, poly, priority, lo, hi),
{
    Keygroup { id, poly, priority, vclow: lo, vchigh: hi, unk50: 0, unk51: 0 }
}

/// The template keygroups of a song over its voice channels.
pub fn template_keygroups(vcrange: (i8, i8)) -> (r: Result<Vec<Keygroup>, DSEError>)
    ensures
        match spec_vcrange_error(vcrange.0, vcrange.1) {
            Some(e) => r == Err::<Vec<Keygroup>, DSEError>(e),
            None => r matches Ok(v) && v@ == spec_template_keygroups(vcrange.0, spec_vchigh(vcrange.0, vcrange.1)),
        },
{
    let lo = vclow(vcrange)?;
    let hi = vchigh(vcrange)?;
    let mut v: Vec<Keygroup> = Vec::new();
    v.push(keygroup(0, -1, 8, lo, hi));
    v.push(keygroup(1, 2, 8, lo, hi));
    v.push(keygroup(2, 1, 8, lo, hi));
    v.push(keygroup(3, 1, 8, lo, hi));
    v.push(keygroup(4, 1, 8, lo, hi));
    v.push(keygroup(5, 1, 1, lo, hi));
    v.push(keygroup(6, 2, 8, lo, hi));
    v.push(keygroup(7, 1, 8, lo, hi));
    v.push(keygroup(8, 2, 8, lo, hi));
    v.push(keygroup(9, -1, 8, lo, hi));
    v.push(keygroup(10, -1, 8, lo, hi));
    v.push(keygroup(11, -1, 8, lo, hi));
    assert(v@ =~= spec_template_keygroups(lo, hi));
    Ok(v)
}

/// The bytes that the samples `objs[..k]` take in memory: four per sample
/// point up to the end of each loop.
pub open spec fn spec_samples_size(objs: Seq<SampleInfo>, k: int) -> int
    decreases k,
{
    if k <= 0 || k > objs.len() {
        0
    } else {
        spec_samples_size(objs, k - 1) + (objs[k - 1].loopbeg + objs[k - 1].looplen) * 4
    }
}

/// Whether the samples fit in 32-bit memory positions, each loop end too.
pub open spec fn spec_samples_fit(objs: Seq<SampleInfo>) -> bool {
    &&& spec_samples_size(objs, objs.len() as int) <= u32::MAX
    &&& forall|k: int| 0 <= k < objs.len() ==> (#[trigger] objs[k]).loopbeg + objs[k].looplen <= u32::MAX
}

/// Places the samples one after the other in memory: each starts where the
/// previous ones end.
pub fn fix_sample_positions(objects: &mut Vec<SampleInfo>)
    requires
        spec_samples_fit(old(objects)@),
    ensures
        final(objects)@.len() == old(objects)@.len(),
        forall|k: int| 0 <= k < old(objects)@.len() ==> #[trigger] final(objects)@[k] == (SampleInfo {
            smplpos: spec_samples_size(old(objects)@, k) as u32,
            ..old(objects)@[k]
        }),
{
    let ghost o = objects@;
    let mut pos: u32 = 0;
    let mut i: usize = 0;
    while i < objects.len()
        invariant
            i <= objects@.len(),
            objects@.len() == o.len(),
            spec_samples_fit(o),
            pos == spec_samples_size(o, i as int),
            forall|k: int| 0 <= k < i ==> #[trigger] objects@[k] == (SampleInfo { smplpos: spec_samples_size(o, k) as u32, ..o[k] }),
            forall|k: int| i <= k < o.len() ==> #[trigger] objects@[k] == o[k],
        decreases o.len() - i,
    {
        proof {
            lemma_samples_size_mono(o, (i + 1) as int, o.len() as int);
            assert(o[i as int].loopbeg + o[i as int].looplen <= u32::MAX);
        }
        let step = (objects[i].loopbeg + objects[i].looplen) * 4;
        objects[i].smplpos = pos;
        pos = pos + step;
        i = i + 1;
    }
}

proof fn lemma_samples_size_mono(objs: Seq<SampleInfo>, a: int, b: int)
    requires
        0 <= a <= b <= objs.len(),
    ensures
        spec_samples_size(objs, a) <= spec_samples_size(objs, b),
    decreases b - a,
{
    if a < b {
        lemma_samples_size_mono(objs, a, b - 1);
    }
}

/// The samples placed one after the other in memory.
pub open spec fn spec_placed(objs: Seq<SampleInfo>) -> Seq<SampleInfo> {
    Seq::new(objs.len(), |k: int| SampleInfo { smplpos: spec_samples_size(objs, k) as u32, ..objs[k] })
}

impl SWDL {
    /// The bank after `from_sf2_once` set its programs, its samples (placed
    /// one after the other) and, for valid voice channels, its keygroups,
    /// on a bank with header `h`.
    pub open spec fn spec_sf2_filled(old: SWDLView, h: SWDLHeader, prgi: PRGIChunkView, objs: Seq<SampleInfo>) -> SWDLView {
        SWDLView {
            header: h,
            prgi: Some(prgi),
            wavi: WAVIChunkView { data: PointerTableView { objects: spec_placed(objs), ..old.wavi.data }, ..old.wavi },
            ..old
        }
    }

    /// Makes the bank of a song from the programs and the sample entries
    /// taken from its sound fonts: the date and file name are set (a name
    /// that is not ASCII is refused), the link bytes, the programs, the
    /// samples placed one after the other in memory, and the template
    /// keygroups over the voice channels (invalid ones are refused, after
    /// the rest is set).
    pub fn from_sf2_once(&mut self, last_modified: (u16, u8, u8, u8, u8, u8, u8), fname: String, link_bytes: (u8, u8), vcrange: (i8, i8), prgi: PRGIChunk, sample_infos: Vec<SampleInfo>) -> (r: Result<(), DSEError>)
        requires
            spec_samples_fit(sample_infos@),
        ensures
            !string_is_ascii(&fname) ==> (r matches Err(DSEError::DSEFileNameConversionNonASCII(k, n)) && k@ == "SWD"@ && n == fname)
                && final(self)@ == (SWDLView { header: spec_with_date(old(self)@.header, last_modified), ..old(self)@ }),
            string_is_ascii(&fname) ==> ({
                let h = SWDLHeader {
                    fname: final(self).header.fname,
                    unk1: link_bytes.0,
                    unk2: link_bytes.1,
                    ..spec_with_date(old(self)@.header, last_modified)
                };
                let filled = SWDL::spec_sf2_filled(old(self)@, h, prgi@, sample_infos@);
                &&& final(self).header.fname.inner@ == spec_dse_bytes(spec_fname_text(fname), 0xAA)
                &&& match spec_vcrange_error(vcrange.0, vcrange.1) {
                    Some(e) => r == Err::<(), DSEError>(e) && final(self)@ == filled,
                    None => r is Ok && final(self)@ == (SWDLView {
                        kgrp: Some(KGRPChunkView {
                            data: TableView { read_n: 0, objects: spec_template_keygroups(vcrange.0, spec_vchigh(vcrange.0, vcrange.1)) },
                            ..KGRPChunk::spec_fresh()
                        }),
                        ..filled
                    }),
                }
            }),
    {
        let ghost s0 = self@;
        let ghost pv = prgi@;
        self.set_metadata(last_modified, fname)?;
        self.set_link_bytes(link_bytes);
        self.prgi = Some(prgi);
        let mut objects = sample_infos;
        fix_sample_positions(&mut objects);
        self.wavi.data.objects = objects;
        let ghost h = SWDLHeader { fname: self.header.fname, unk1: link_bytes.0, unk2: link_bytes.1, ..spec_with_date(s0.header, last_modified) };
        proof {
            assert(self.wavi.data.objects@ =~= spec_placed(sample_infos@));
            assert(self.wavi.data@.objects =~= spec_placed(sample_infos@));
            assert(self.header == h);
            assert(self@ == SWDL::spec_sf2_filled(s0, h, pv, sample_infos@));
        }
        let kgs = match template_keygroups(vcrange) {
            Ok(k) => k,
            Err(e) => {
                return Err(e);
            },
        };
        let mut kgrp = KGRPChunk::default();
        kgrp.data.objects = kgs;
        assert(kgrp.data@.objects =~= spec_template_keygroups(vcrange.0, spec_vchigh(vcrange.0, vcrange.1)));
        self.kgrp = Some(kgrp);
        proof {
            assert(self@.kgrp == Some(KGRPChunkView {
                data: TableView { read_n: 0, objects: spec_template_keygroups(vcrange.0, spec_vchigh(vcrange.0, vcrange.1)) },
                ..KGRPChunk::spec_fresh()
            }));
        }
        Ok(())
    }
}

// ---------------------------------------------------------------------------
// The bank of a song
// ---------------------------------------------------------------------------

/// Whether a split of one of the programs plays the sample numbered `id`.
pub open spec fn spec_sample_used(progs: Seq<ProgramInfo>, id: u16) -> bool {
    exists|i: int, j: int|
        0 <= i < progs.len() && 0 <= j < progs[i].splits_table.objects@.len()
            && (#[trigger] progs[i].splits_table.objects@[j]).SmplID == id
}

/// The samples among the first `n` that a split of the programs plays.
pub open spec fn spec_used_samples(objs: Seq<SampleInfo>, n: int, progs: Seq<ProgramInfo>) -> Seq<SampleInfo>
    decreases n,
{
    if n <= 0 {
        Seq::empty()
    } else {
        let prev = spec_used_samples(objs, n - 1, progs);
        if spec_sample_used(progs, objs[n - 1].id) {
            prev.push(objs[n - 1])
        } else {
            prev
        }
    }
}

/// Whether a split of one of the programs plays the sample numbered `id`.
fn sample_used(progs: &Vec<ProgramInfo>, id: u16) -> (r: bool)
    ensures
        r == spec_sample_used(progs@, id),
{
    let mut i: usize = 0;
    while i < progs.len()
        invariant
            i <= progs@.len(),
            forall|a: int, b: int|
                0 <= a < i && 0 <= b < progs@[a].splits_table.objects@.len() ==> (#[trigger] progs@[a].splits_table.objects@[b]).SmplID
                    != id,
        decreases progs.len() - i,
    {
        let splits = &progs[i].splits_table.objects;
        let mut j: usize = 0;
        while j < splits.len()
            invariant
                i < progs@.len(),
                j <= splits@.len(),
                splits == &progs@[i as int].splits_table.objects,
                forall|a: int, b: int|
                    0 <= a < i && 0 <= b < progs@[a].splits_table.objects@.len() ==> (#[trigger] progs@[a].splits_table.objects@[b]).SmplID
                        != id,
                forall|b: int| 0 <= b < j ==> (#[trigger] splits@[b]).SmplID != id,
            decreases splits.len() - j,
        {
            if splits[j].SmplID == id {
                assert(progs@[i as int].splits_table.objects@[j as int].SmplID == id);
                return true;
            }
            j = j + 1;
        }
        i = i + 1;
    }
    false
}

/// The programs among the first `n` whose id is in `used`, in order and
/// unchanged.
pub open spec fn spec_programs_with_ids(objs: Seq<ProgramInfo>, n: int, used: Seq<u16>) -> Seq<ProgramInfo>
    decreases n,
{
    if n <= 0 {
        Seq::empty()
    } else {
        let prev = spec_programs_with_ids(objs, n - 1, used);
        if used.contains(objs[n - 1].header.id) {
            prev.push(objs[n - 1])
        } else {
            prev
        }
    }
}

/// Whether `id` is in `used`.
fn id_in(used: &Vec<u16>, id: u16) -> (r: bool)
    ensures
        r == used@.contains(id),
{
    let mut i: usize = 0;
    while i < used.len()
        invariant
            i <= used@.len(),
            forall|j: int| 0 <= j < i ==> used@[j] != id,
        decreases used.len() - i,
    {
        if used[i] == id {
            assert(used@[i as int] == id);
            return true;
        }
        i = i + 1;
    }
    false
}

/// Keeps in a bank what a song plays when its programs are chosen by id:
/// the programs whose id is in `used`, in the order the bank holds them
/// and with their ids, and the samples that their splits play. A bank
/// without programs is refused, unchanged.
pub fn prune_bank_to_ids(bank: &mut SWDL, used: &Vec<u16>) -> (r: Result<(), DSEError>)
    ensures
        old(bank).prgi is None ==> r == Err::<(), DSEError>(DSEError::DSESmdConverterSwdEmpty()) && *final(bank) == *old(bank),
        old(bank).prgi is Some ==> ({
            let objs = old(bank).prgi.unwrap().data.objects@;
            &&& r is Ok
            &&& final(bank).prgi is Some
            &&& final(bank).prgi.unwrap().data.objects@ == spec_programs_with_ids(objs, objs.len() as int, used@)
            &&& final(bank).wavi.data.objects@ == spec_used_samples(
                old(bank).wavi.data.objects@,
                old(bank).wavi.data.objects@.len() as int,
                final(bank).prgi.unwrap().data.objects@,
            )
            &&& final(bank).header == old(bank).header
            &&& final(bank).wavi.header == old(bank).wavi.header
            &&& final(bank).prgi.unwrap().header == old(bank).prgi.unwrap().header
            &&& final(bank).kgrp == old(bank).kgrp
            &&& final(bank).pcmd == old(bank).pcmd
        }),
{
    let mut prgi = match bank.prgi.take() {
        Some(p) => p,
        None => return Err(DSEError::DSESmdConverterSwdEmpty()),
    };
    let mut objs: Vec<ProgramInfo> = Vec::new();
    std::mem::swap(&mut objs, &mut prgi.data.objects);
    let ghost all = objs@;
    let total = objs.len();
    let mut kept: Vec<ProgramInfo> = Vec::new();
    let mut i: usize = 0;
    while objs.len() > 0
        invariant
            i + objs@.len() == all.len(),
            all.len() == total,
            objs@ =~= all.skip(i as int),
            kept@ == spec_programs_with_ids(all, i as int, used@),
        decreases objs.len(),
    {
        assert(objs@[0] == all[i as int]);
        let p = objs.remove(0);
        if id_in(used, p.header.id) {
            kept.push(p);
        }
        i = i + 1;
    }
    let mut samples: Vec<SampleInfo> = Vec::new();
    std::mem::swap(&mut samples, &mut bank.wavi.data.objects);
    let ghost sall = samples@;
    let stotal = samples.len();
    let mut kept_samples: Vec<SampleInfo> = Vec::new();
    let mut k: usize = 0;
    while samples.len() > 0
        invariant
            k + samples@.len() == sall.len(),
            sall.len() == stotal,
            samples@ =~= sall.skip(k as int),
            kept_samples@ == spec_used_samples(sall, k as int, kept@),
        decreases samples.len(),
    {
        assert(samples@[0] == sall[k as int]);
        let s = samples.remove(0);
        if sample_used(&kept, s.id) {
            kept_samples.push(s);
        }
        k = k + 1;
    }
    bank.wavi.data.objects = kept_samples;
    prgi.data.objects = kept;
    bank.prgi = Some(prgi);
    Ok(())
}

/// A sample is kept exactly when some split, at any place, of one of the
/// programs plays it: every sample kept is one of the first `n` and is
/// played by such a split, and every one of the first `n` that such a split
/// plays is kept.
pub proof fn lemma_used_samples_played(objs: Seq<SampleInfo>, n: int, progs: Seq<ProgramInfo>)
    requires
        0 <= n <= objs.len(),
    ensures
        forall|x: SampleInfo| #[trigger] spec_used_samples(objs, n, progs).contains(x) ==> (exists|k: int| 0 <= k < n && objs[k] == x)
            && (exists|i: int, j: int| 0 <= i < progs.len() && 0 <= j < progs[i].splits_table.objects@.len()
                && (#[trigger] progs[i].splits_table.objects@[j]).SmplID == x.id),
        forall|k: int, i: int, j: int| 0 <= k < n && 0 <= i < progs.len() && 0 <= j < progs[i].splits_table.objects@.len()
            && (#[trigger] progs[i].splits_table.objects@[j]).SmplID == (#[trigger] objs[k]).id
            ==> spec_used_samples(objs, n, progs).contains(objs[k]),
    decreases n,
{
    if n > 0 {
        lemma_used_samples_played(objs, n - 1, progs);
        let prev = spec_used_samples(objs, n - 1, progs);
        let cur = spec_used_samples(objs, n, progs);
        assert forall|x: SampleInfo| #[trigger] cur.contains(x) implies (exists|k: int| 0 <= k < n && objs[k] == x)
            && (exists|i: int, j: int| 0 <= i < progs.len() && 0 <= j < progs[i].splits_table.objects@.len()
                && (#[trigger] progs[i].splits_table.objects@[j]).SmplID == x.id) by {
            if prev.contains(x) {
            } else {
                assert(spec_sample_used(progs, objs[n - 1].id));
                assert(cur == prev.push(objs[n - 1]));
                let q = choose|q: int| 0 <= q < cur.len() && cur[q] == x;
                assert(q == prev.len());
                assert(x == objs[n - 1]);
            }
        }
        assert forall|k: int, i: int, j: int| 0 <= k < n && 0 <= i < progs.len() && 0 <= j < progs[i].splits_table.objects@.len()
            && (#[trigger] progs[i].splits_table.objects@[j]).SmplID == (#[trigger] objs[k]).id
            implies cur.contains(objs[k]) by {
            if k < n - 1 {
                assert(prev.contains(objs[k]));
                if spec_sample_used(progs, objs[n - 1].id) {
                    let q = choose|q: int| 0 <= q < prev.len() && prev[q] == objs[k];
                    assert(cur == prev.push(objs[n - 1]));
                    assert(cur[q] == objs[k]);
                }
            } else {
                assert(spec_sample_used(progs, objs[n - 1].id));
                assert(cur == prev.push(objs[n - 1]));
                assert(cur[prev.len() as int] == objs[n - 1]);
            }
        }
    }
}

/// A program is kept exactly when its id is among those used: every program
/// kept is one of the first `n`, unchanged, with an id in `used`, and every
/// one of the first `n` whose id is in `used` is kept.
pub proof fn lemma_programs_with_ids_kept(objs: Seq<ProgramInfo>, n: int, used: Seq<u16>)
    requires
        0 <= n <= objs.len(),
    ensures
        forall|x: ProgramInfo| #[trigger] spec_programs_with_ids(objs, n, used).contains(x) ==> (exists|k: int| 0 <= k < n && objs[k] == x)
            && (exists|u: int| 0 <= u < used.len() && used[u] == x.header.id),
        forall|k: int, u: int| 0 <= k < n && 0 <= u < used.len() && #[trigger] used[u] == (#[trigger] objs[k]).header.id
            ==> spec_programs_with_ids(objs, n, used).contains(objs[k]),
    decreases n,
{
    if n > 0 {
        lemma_programs_with_ids_kept(objs, n - 1, used);
        let prev = spec_programs_with_ids(objs, n - 1, used);
        let cur = spec_programs_with_ids(objs, n, used);
        assert forall|x: ProgramInfo| #[trigger] cur.contains(x) implies (exists|k: int| 0 <= k < n && objs[k] == x)
            && (exists|u: int| 0 <= u < used.len() && used[u] == x.header.id) by {
            if !prev.contains(x) {
                assert(used.contains(objs[n - 1].header.id));
                assert(cur == prev.push(objs[n - 1]));
                let q = choose|q: int| 0 <= q < cur.len() && cur[q] == x;
                assert(q == prev.len());
                assert(x == objs[n - 1]);
            }
        }
        assert forall|k: int, u: int| 0 <= k < n && 0 <= u < used.len() && #[trigger] used[u] == (#[trigger] objs[k]).header.id
            implies cur.contains(objs[k]) by {
            if k < n - 1 {
                assert(prev.contains(objs[k]));
                if used.contains(objs[n - 1].header.id) {
                    let q = choose|q: int| 0 <= q < prev.len() && prev[q] == objs[k];
                    assert(cur == prev.push(objs[n - 1]));
                    assert(cur[q] == objs[k]);
                }
            } else {
                assert(used.contains(objs[n - 1].header.id));
                assert(cur == prev.push(objs[n - 1]));
                assert(cur[prev.len() as int] == objs[n - 1]);
            }
        }
    }
}

/// Voice channels are accepted exactly when the start is within 0 to 15
/// and the end is -1 or within the start to 15; then the lowest channel is
/// the start and the highest the end (15 for -1), within 0 to 15 and in
/// order.
pub proof fn lemma_vcrange_accepted(start: i8, end: i8)
    ensures
        spec_vcrange_error(start, end) is None <==> 0 <= start <= 15 && (end == -1 || (start <= end && end <= 15)),
        spec_vcrange_error(start, end) is None ==> 0 <= start <= spec_vchigh(start, end) <= 15,
        end == -1 ==> spec_vchigh(start, end) == 15,
        end != -1 ==> spec_vchigh(start, end) == end,
{
}

/// The template keygroups are twelve, numbered 0 to 11 in order, each over
/// the voice channels `lo` to `hi`.
pub proof fn lemma_template_keygroups_numbered(lo: i8, hi: i8)
    ensures
        spec_template_keygroups(lo, hi).len() == 12,
        forall|i: int| 0 <= i < 12 ==> (#[trigger] spec_template_keygroups(lo, hi)[i]).id == i
            && spec_template_keygroups(lo, hi)[i].vclow == lo && spec_template_keygroups(lo, hi)[i].vchigh == hi,
{
    let t = spec_template_keygroups(lo, hi);
    assert forall|i: int| 0 <= i < 12 implies (#[trigger] t[i]).id == i && t[i].vclow == lo && t[i].vchigh == hi by {
        if i == 0 { } else if i == 1 { } else if i == 2 { } else if i == 3 { } else if i == 4 { } else if i == 5 { }
        else if i == 6 { } else if i == 7 { } else if i == 8 { } else if i == 9 { } else if i == 10 { } else { }
    }
}

/// Placed samples follow one another: the first starts at 0 and each next
/// one where the one before ends (its start plus `(loopbeg + looplen) * 4`).
pub proof fn lemma_sample_positions_follow(objs: Seq<SampleInfo>)
    ensures
        spec_samples_size(objs, 0) == 0,
        forall|a: int, b: int| 0 <= a && b == a + 1 && b <= objs.len() ==> #[trigger] spec_samples_size(objs, b)
            == #[trigger] spec_samples_size(objs, a) + (objs[a].loopbeg + objs[a].looplen) * 4,
{
}

} // verus!
