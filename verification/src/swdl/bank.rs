//! A whole SWDL file: its header and chunks, reading and writing it, and the
//! bookkeeping that keeps the header's lengths and counts in step with the
//! chunks.
use vstd::prelude::*;
use vstd::string::string_is_ascii;
use vstd::utf8::encode_utf8;
use crate::codec::{DataReader, get_u16, get_u32, u16_of, u32_of};
use crate::dtype::{
    AutoReadWrite, DSEBlockType, DSEError, DSEFileType, DSELinkBytes, Pointer, ReadWrite, SetSongBuilderFlags, SongBuilderFlags, peek_is,
    read_record, spec_peek_is, spec_record_read,
};
use crate::dtype::{PointerTableView, TableView, spec_own_slot, spec_ptable_write, spec_slots, spec_slots_distinct, spec_table_write};
use super::{
    ChunkHeader, KGRPChunk, KGRPChunkView, PCMDChunk, PCMDChunkView, PRGIChunk, PRGIChunkView,
    DSEString, ProgramInfo, ProgramInfoHeader, ProgramInfoView, SWDLHeader, SampleInfo, SplitEntry, WAVIChunk,
    WAVIChunkView, lemma_writable_16bit, map_placeholder, spec_repeat,
};

verus! {

/// The model of an SWDL file.
pub struct SWDLView {
    pub header: SWDLHeader,
    pub wavi: WAVIChunkView,
    pub prgi: Option<PRGIChunkView>,
    pub kgrp: Option<KGRPChunkView>,
    pub pcmd: Option<PCMDChunkView>,
    pub _eod: ChunkHeader,
}

/// An SWDL file: the header, the sample table, and optionally the program
/// table, the keygroups and the sample data, closed by an "eod " chunk.
#[derive(Debug, Clone)]
pub struct SWDL {
    pub header: SWDLHeader,
    pub wavi: WAVIChunk,
    pub prgi: Option<PRGIChunk>,
    pub kgrp: Option<KGRPChunk>,
    pub pcmd: Option<PCMDChunk>,
    pub _eod: ChunkHeader,
}

/// The model of an optional value.
pub open spec fn spec_opt_view<T: View>(o: Option<T>) -> Option<T::V> {
    match o {
        Some(x) => Some(x@),
        None => None,
    }
}

impl View for SWDL {
    type V = SWDLView;

    open spec fn view(&self) -> SWDLView {
        SWDLView {
            header: self.header,
            wavi: self.wavi@,
            prgi: spec_opt_view(self.prgi),
            kgrp: spec_opt_view(self.kgrp),
            pcmd: spec_opt_view(self.pcmd),
            _eod: self._eod,
        }
    }
}

/// The bytes of an optional program table chunk (none when absent).
pub open spec fn spec_opt_prgi_write<P: Pointer>(o: Option<PRGIChunk>) -> Result<Seq<u8>, DSEError> {
    match o {
        Some(c) => c.spec_write::<P>(),
        None => Ok(Seq::empty()),
    }
}

/// The bytes of an optional chunk (none when absent).
pub open spec fn spec_opt_write<T: ReadWrite>(o: Option<T>) -> Result<Seq<u8>, DSEError> {
    match o {
        Some(c) => c.spec_write(),
        None => Ok(Seq::empty()),
    }
}

/// The label "prgi".
pub open spec fn spec_prgi_label() -> Seq<u8> {
    seq![0x70u8, 0x72u8, 0x67u8, 0x69u8]
}

/// The label "kgrp".
pub open spec fn spec_kgrp_label() -> Seq<u8> {
    seq![0x6Bu8, 0x67u8, 0x72u8, 0x70u8]
}

/// The label "pcmd".
pub open spec fn spec_pcmd_label() -> Seq<u8> {
    seq![0x70u8, 0x63u8, 0x6Du8, 0x64u8]
}

/// Reading the program table chunk when the next label is "prgi"; else the
/// chunk stays as it was.
pub open spec fn spec_read_prgi<P: Pointer>(cur: Option<PRGIChunkView>, nslots: u16, data: Seq<u8>, pos: int) -> Result<(Option<PRGIChunkView>, int), DSEError> {
    match spec_peek_is(data, pos, spec_prgi_label()) {
        Err(e) => Err(e),
        Ok(found) => if found {
            match PRGIChunk::spec_read::<P>(PRGIChunk::spec_new(nslots as usize), data, pos) {
                Err(e) => Err(e),
                Ok((c, p)) => Ok((Some(c), p)),
            }
        } else {
            Ok((cur, pos))
        },
    }
}

/// Reading the keygroup chunk when the next label is "kgrp".
pub open spec fn spec_read_kgrp(cur: Option<KGRPChunkView>, data: Seq<u8>, pos: int) -> Result<(Option<KGRPChunkView>, int), DSEError> {
    match spec_peek_is(data, pos, spec_kgrp_label()) {
        Err(e) => Err(e),
        Ok(found) => if found {
            match KGRPChunk::spec_read(KGRPChunk::spec_fresh(), data, pos) {
                Err(e) => Err(e),
                Ok((c, p)) => Ok((Some(c), p)),
            }
        } else {
            Ok((cur, pos))
        },
    }
}

/// Reading the sample data chunk when the next label is "pcmd".
pub open spec fn spec_read_pcmd(cur: Option<PCMDChunkView>, data: Seq<u8>, pos: int) -> Result<(Option<PCMDChunkView>, int), DSEError> {
    match spec_peek_is(data, pos, spec_pcmd_label()) {
        Err(e) => Err(e),
        Ok(found) => if found {
            match PCMDChunk::spec_read(PCMDChunk::spec_fresh(), data, pos) {
                Err(e) => Err(e),
                Ok((c, p)) => Ok((Some(c), p)),
            }
        } else {
            Ok((cur, pos))
        },
    }
}

impl SWDL {
    /// The model of the value that `default` returns.
    pub open spec fn spec_default() -> SWDLView {
        SWDLView {
            header: SWDLHeader::spec_default(),
            wavi: WAVIChunk::spec_new(0),
            prgi: None,
            kgrp: None,
            pcmd: None,
            _eod: ChunkHeader::spec_default(),
        }
    }

    /// The header of the closing chunk.
    pub open spec fn spec_eod_header() -> ChunkHeader {
        ChunkHeader { label: 0x20646F65, ..ChunkHeader::spec_default() }
    }

    /// The header of the closing chunk: the label "eod " and default values.
    pub fn generate_eod_chunk_header() -> (r: ChunkHeader)
        ensures
            r == SWDL::spec_eod_header(),
    {
        let mut eod = ChunkHeader::default();
        eod.label = 0x20646F65;
        eod
    }

    /// The bytes of the file, with sample pointers `PW` and program pointers
    /// `PP`: the header, the chunks that are present in order, and the
    /// closing chunk's header.
    pub open spec fn spec_write<PW: Pointer, PP: Pointer>(&self) -> Result<Seq<u8>, DSEError> {
        match self.wavi.spec_write::<PW>() {
            Err(e) => Err(e),
            Ok(w) => match spec_opt_prgi_write::<PP>(self.prgi) {
                Err(e) => Err(e),
                Ok(p) => match spec_opt_write(self.kgrp) {
                    Err(e) => Err(e),
                    Ok(k) => match spec_opt_write(self.pcmd) {
                        Err(e) => Err(e),
                        Ok(c) => Ok(self.header.spec_encode() + w + p + k + c + SWDL::spec_eod_header().spec_encode()),
                    },
                },
            },
        }
    }

    /// Whether no two samples, and no two programs, of the bank take the
    /// same slot of their pointer tables.
    pub open spec fn spec_slots_ok(&self) -> bool {
        &&& spec_slots_distinct(self.wavi.data.objects@)
        &&& (self.prgi matches Some(p) ==> spec_slots_distinct(p.data.objects@))
    }

    /// Whether no two samples, and no two programs, of the bank take the
    /// same slot of their pointer tables: where two do, the bank cannot be
    /// written.
    pub fn slots_ok(&self) -> (r: bool)
        ensures
            r == self.spec_slots_ok(),
    {
        if !self.wavi.data.slots_distinct() {
            return false;
        }
        match &self.prgi {
            Some(p) => p.data.slots_distinct(),
            None => true,
        }
    }

    #[verifier::spinoff_prover]
    #[verifier::rlimit(40)]
    pub fn write_to_file<PW: Pointer, PP: Pointer>(&self, writer: &mut Vec<u8>) -> (res: Result<usize, DSEError>)
        requires
            self.spec_slots_ok(),
        ensures
            match self.spec_write::<PW, PP>() {
                Ok(b) => res == Ok::<usize, DSEError>(b.len() as usize) && final(writer)@ == old(writer)@ + b,
                Err(e) => res == Err::<usize, DSEError>(e),
            },
    {
        let start = writer.len();
        let ghost w0 = writer@;
        self.header.write_to_file(writer)?;
        let ghost w1 = writer@;
        self.wavi.write_to_file::<PW>(writer)?;
        let ghost w2 = writer@;
        if let Some(prgi) = &self.prgi {
            prgi.write_to_file::<PP>(writer)?;
        }
        let ghost w3 = writer@;
        if let Some(kgrp) = &self.kgrp {
            kgrp.write_to_file(writer)?;
        }
        let ghost w4 = writer@;
        if let Some(pcmd) = &self.pcmd {
            pcmd.write_to_file(writer)?;
        }
        let ghost w5 = writer@;
        let eod = SWDL::generate_eod_chunk_header();
        eod.write_to_file(writer)?;
        proof {
            let h = self.header.spec_encode();
            let w = self.wavi.spec_write::<PW>().unwrap();
            let p = spec_opt_prgi_write::<PP>(self.prgi).unwrap();
            let k = spec_opt_write(self.kgrp).unwrap();
            let c = spec_opt_write(self.pcmd).unwrap();
            assert(w1 == w0 + h);
            assert(w2 == w1 + w);
            assert(w3 =~= w2 + p);
            assert(w4 =~= w3 + k);
            assert(w5 =~= w4 + c);
            assert(writer@ =~= w0 + (h + w + p + k + c + SWDL::spec_eod_header().spec_encode()));
        }
        Ok(writer.len() - start)
    }

    /// What reading the file at `pos` makes of a file whose model is `v`,
    /// with sample pointers `PW` and program pointers `PP`: the header, the
    /// sample table with as many slots as the header counts, the chunks whose
    /// labels come next ("prgi", "kgrp", "pcmd", in this order), and the
    /// closing chunk's header.
    pub open spec fn spec_read<PW: Pointer, PP: Pointer>(v: SWDLView, data: Seq<u8>, pos: int) -> Result<(SWDLView, int), DSEError> {
        match spec_record_read::<SWDLHeader>(data, pos) {
            Err(e) => Err(e),
            Ok((h, p1)) => match WAVIChunk::spec_read::<PW>(WAVIChunkView { read_n: h.nbwavislots as usize, ..v.wavi }, data, p1) {
                Err(e) => Err(e),
                Ok((w, p2)) => match spec_read_prgi::<PP>(v.prgi, h.nbprgislots, data, p2) {
                    Err(e) => Err(e),
                    Ok((pr, p3)) => match spec_read_kgrp(v.kgrp, data, p3) {
                        Err(e) => Err(e),
                        Ok((kg, p4)) => match spec_read_pcmd(v.pcmd, data, p4) {
                            Err(e) => Err(e),
                            Ok((pc, p5)) => match spec_record_read::<ChunkHeader>(data, p5) {
                                Err(e) => Err(e),
                                Ok((eod, p6)) => Ok((SWDLView { header: h, wavi: w, prgi: pr, kgrp: kg, pcmd: pc, _eod: eod }, p6)),
                            },
                        },
                    },
                },
            },
        }
    }

    pub fn read_from_file<PW: Pointer, PP: Pointer>(&mut self, reader: &mut DataReader) -> (res: Result<(), DSEError>)
        ensures
            final(reader).data@ == old(reader).data@,
            match Self::spec_read::<PW, PP>(old(self)@, old(reader).data@, old(reader).pos as int) {
                Ok((v, p)) => res is Ok && final(self)@ == v && final(reader).pos == p,
                Err(e) => res == Err::<(), DSEError>(e),
            },
    {
        self.header.read_from_file(reader)?;
        self.wavi.set_read_params(self.header.nbwavislots as usize);
        self.wavi.read_from_file::<PW>(reader)?;
        let prgi_label: [u8; 4] = [0x70, 0x72, 0x67, 0x69];
        assert(prgi_label@ =~= spec_prgi_label());
        if peek_is(reader, prgi_label)? {
            let mut tmp = PRGIChunk::new(self.header.nbprgislots as usize);
            tmp.read_from_file::<PP>(reader)?;
            self.prgi = Some(tmp);
        }
        let kgrp_label: [u8; 4] = [0x6B, 0x67, 0x72, 0x70];
        assert(kgrp_label@ =~= spec_kgrp_label());
        if peek_is(reader, kgrp_label)? {
            let mut tmp = KGRPChunk::default();
            tmp.read_from_file(reader)?;
            self.kgrp = Some(tmp);
        }
        let pcmd_label: [u8; 4] = [0x70, 0x63, 0x6D, 0x64];
        assert(pcmd_label@ =~= spec_pcmd_label());
        if peek_is(reader, pcmd_label)? {
            let mut tmp = PCMDChunk::default();
            tmp.read_from_file(reader)?;
            self.pcmd = Some(tmp);
        }
        self._eod.read_from_file(reader)?;
        Ok(())
    }
}

impl Default for SWDL {
    fn default() -> (r: SWDL)
        ensures
            r@ == SWDL::spec_default(),
    {
        SWDL {
            header: SWDLHeader::default(),
            wavi: WAVIChunk::new(0),
            prgi: None,
            kgrp: None,
            pcmd: None,
            _eod: ChunkHeader::default(),
        }
    }
}

impl DSELinkBytes for SWDL {
    /// The two link bytes of the header.
    fn get_link_bytes(&self) -> (r: (u8, u8))
        ensures
            r == (self.header.unk1, self.header.unk2),
    {
        (self.header.unk1, self.header.unk2)
    }

    fn set_link_bytes(&mut self, link_bytes: (u8, u8))
        ensures
            *final(self) == (SWDL { header: SWDLHeader { unk1: link_bytes.0, unk2: link_bytes.1, ..old(self).header }, ..*old(self) }),
    {
        self.header.unk1 = link_bytes.0;
        self.header.unk2 = link_bytes.1;
    }

    fn set_unk1(&mut self, unk1: u8)
        ensures
            *final(self) == (SWDL { header: SWDLHeader { unk1, ..old(self).header }, ..*old(self) }),
    {
        self.header.unk1 = unk1;
    }

    fn set_unk2(&mut self, unk2: u8)
        ensures
            *final(self) == (SWDL { header: SWDLHeader { unk2, ..old(self).header }, ..*old(self) }),
    {
        self.header.unk2 = unk2;
    }
}

impl SetSongBuilderFlags for SWDL {
    /// The flags kept in the header's `unk18`.
    fn get_song_builder_flags(&self) -> (r: SongBuilderFlags)
        ensures
            r.spec_bits() == self.header.unk18,
    {
        SongBuilderFlags::from_bits_retain(self.header.unk18)
    }

    fn set_song_builder_flags(&mut self, flags: SongBuilderFlags)
        ensures
            *final(self) == (SWDL { header: SWDLHeader { unk18: flags.spec_bits(), ..old(self).header }, ..*old(self) }),
    {
        self.header.unk18 = flags.bits();
    }
}

impl SongBuilderFlags {
    /// The flags of a bank.
    pub fn parse_from_swdl(swdl: &SWDL) -> (r: SongBuilderFlags)
        ensures
            r.spec_bits() == swdl.header.unk18,
    {
        SongBuilderFlags::from_bits_retain(swdl.header.unk18)
    }

    /// The flags of the bank whose header starts at the reader's position;
    /// the reader does not move.
    pub fn parse_from_swdl_file(reader: &mut DataReader) -> (r: Result<SongBuilderFlags, DSEError>)
        ensures
            final(reader).data@ == old(reader).data@,
            final(reader).pos == old(reader).pos,
            match spec_record_read::<SWDLHeader>(old(reader).data@, old(reader).pos as int) {
                Ok((h, _p)) => r matches Ok(f) && f.spec_bits() == h.unk18,
                Err(e) => r == Err::<SongBuilderFlags, DSEError>(e),
            },
    {
        let previous = reader.pos;
        let mut swdl_header = SWDLHeader::default();
        read_record(&mut swdl_header, reader)?;
        reader.pos = previous;
        Ok(SongBuilderFlags::from_bits_retain(swdl_header.unk18))
    }
}

// ---------------------------------------------------------------------------
// Automatic parameters
// ---------------------------------------------------------------------------

/// A sample entry with its key transpose recomputed from its root key.
pub open spec fn spec_sample_auto(s: SampleInfo) -> SampleInfo {
    SampleInfo { ktps: (60 - s.rootkey) as i8, ..s }
}

/// A split with the copies of its key and velocity range and its key
/// transpose recomputed, and its unknown fields filled with `pad` bytes.
pub open spec fn spec_split_auto(e: SplitEntry, pad: u8) -> SplitEntry {
    SplitEntry {
        lowkey2: e.lowkey,
        hikey2: e.hikey,
        lovel2: e.lovel,
        hivel2: e.hivel,
        unk16: u32_of(spec_repeat(pad, 4)),
        unk17: u16_of(spec_repeat(pad, 2)),
        unk24: u16_of(spec_repeat(pad, 2)),
        ktps: (60 - e.rootkey) as i8,
        ..e
    }
}

/// A program whose splits have their automatic parameters recomputed.
pub open spec fn spec_program_auto(p: ProgramInfoView) -> ProgramInfoView {
    ProgramInfoView {
        splits_table: TableView {
            objects: p.splits_table.objects.map_values(|e: SplitEntry| spec_split_auto(e, p.header.PadByte)),
            ..p.splits_table
        },
        ..p
    }
}

/// A bank whose samples and splits have their automatic parameters recomputed.
pub open spec fn spec_auto_params(v: SWDLView) -> SWDLView {
    SWDLView {
        wavi: WAVIChunkView {
            data: PointerTableView { objects: v.wavi.data.objects.map_values(|s: SampleInfo| spec_sample_auto(s)), ..v.wavi.data },
            ..v.wavi
        },
        prgi: match v.prgi {
            Some(p) => Some(PRGIChunkView {
                data: PointerTableView { objects: p.data.objects.map_values(|q: ProgramInfoView| spec_program_auto(q)), ..p.data },
                ..p
            }),
            None => None,
        },
        ..v
    }
}

/// Regenerating the automatic parameters a second time changes nothing:
/// they depend only on fields that the regeneration keeps.
pub proof fn lemma_auto_params_idempotent(v: SWDLView)
    ensures
        spec_auto_params(spec_auto_params(v)) == spec_auto_params(v),
{
    let a = spec_auto_params(v);
    let aa = spec_auto_params(a);
    assert(aa.wavi.data.objects =~= a.wavi.data.objects) by {
        assert forall|i: int| 0 <= i < a.wavi.data.objects.len() implies aa.wavi.data.objects[i] == a.wavi.data.objects[i] by {
            assert(a.wavi.data.objects[i] == spec_sample_auto(v.wavi.data.objects[i]));
        }
    }
    if let Some(p) = v.prgi {
        let ap = a.prgi.unwrap();
        let aap = aa.prgi.unwrap();
        assert(aap.data.objects =~= ap.data.objects) by {
            assert forall|i: int| 0 <= i < ap.data.objects.len() implies aap.data.objects[i] == ap.data.objects[i] by {
                let q = p.data.objects[i];
                let q1 = ap.data.objects[i];
                assert(q1 == spec_program_auto(q));
                assert(spec_program_auto(q1).splits_table.objects =~= q1.splits_table.objects) by {
                    assert forall|j: int| 0 <= j < q1.splits_table.objects.len() implies spec_program_auto(q1).splits_table.objects[j]
                        == q1.splits_table.objects[j] by {
                        assert(q1.splits_table.objects[j] == spec_split_auto(q.splits_table.objects[j], q.header.PadByte));
                    }
                }
            }
        }
    }
}

/// Whether every split's root key is at least -67, so that 60 minus it fits in an `i8`.
pub open spec fn spec_split_keys_ok(p: ProgramInfoView) -> bool {
    forall|j: int| 0 <= j < p.splits_table.objects.len() ==> #[trigger] p.splits_table.objects[j].rootkey >= -67
}

/// Whether every root key of the bank is at least -67, so that 60 minus it fits in an `i8`.
pub open spec fn spec_rootkeys_ok(v: SWDLView) -> bool {
    &&& forall|i: int| 0 <= i < v.wavi.data.objects.len() ==> #[trigger] v.wavi.data.objects[i].rootkey >= -67
    &&& (v.prgi matches Some(p) ==> forall|i: int| 0 <= i < p.data.objects.len() ==> spec_split_keys_ok(#[trigger] p.data.objects[i]))
}

fn program_auto_params(p: &mut ProgramInfo)
    requires
        spec_split_keys_ok(old(p)@),
    ensures
        final(p)@ == spec_program_auto(old(p)@),
{
    let pad = p.header.PadByte;
    let pad4: [u8; 4] = [pad; 4];
    let pad2: [u8; 2] = [pad; 2];
    let unk16 = get_u32(pad4.as_slice(), 0);
    let unk17 = get_u16(pad2.as_slice(), 0);
    let unk24 = get_u16(pad2.as_slice(), 0);
    proof {
        assert(pad4@.subrange(0, 4) =~= spec_repeat(pad, 4));
        assert(pad2@.subrange(0, 2) =~= spec_repeat(pad, 2));
    }
    let n = p.splits_table.objects.len();
    let ghost orig = p.splits_table.objects@;
    let mut j: usize = 0;
    while j < n
        invariant
            j <= n,
            n == orig.len(),
            p.splits_table.objects@.len() == n,
            p.header == old(p).header,
            p.lfo_table == old(p).lfo_table,
            p._delimiter == old(p)._delimiter,
            p.splits_table._read_n == old(p).splits_table._read_n,
            orig == old(p).splits_table.objects@,
            pad == old(p).header.PadByte,
            unk16 == u32_of(spec_repeat(pad, 4)),
            unk17 == u16_of(spec_repeat(pad, 2)),
            unk24 == u16_of(spec_repeat(pad, 2)),
            spec_split_keys_ok(old(p)@),
            forall|k: int| 0 <= k < j ==> #[trigger] p.splits_table.objects@[k] == spec_split_auto(orig[k], pad),
            forall|k: int| j <= k < n ==> #[trigger] p.splits_table.objects@[k] == orig[k],
        decreases n - j,
    {
        assert(old(p)@.splits_table.objects[j as int].rootkey >= -67);
        assert(old(p)@.splits_table.objects[j as int] == orig[j as int]);
        let e = &mut p.splits_table.objects[j];
        e.lowkey2 = e.lowkey;
        e.hikey2 = e.hikey;
        e.lovel2 = e.lovel;
        e.hivel2 = e.hivel;
        e.unk16 = unk16;
        e.unk17 = unk17;
        e.unk24 = unk24;
        e.ktps = 60 - e.rootkey;
        j = j + 1;
    }
    assert(p.splits_table.objects@ =~= orig.map_values(|e: SplitEntry| spec_split_auto(e, pad)));
    assert(p.splits_table@.objects =~= old(p)@.splits_table.objects.map_values(|e: SplitEntry| spec_split_auto(e, pad)));
}

impl SWDL {
    /// Recomputes the parameters that follow from others: each sample's and
    /// each split's key transpose (60 minus the root key), the copies of each
    /// split's key and velocity range, and each split's unknown fields, set to
    /// its program's pad byte.
    pub fn regenerate_automatic_parameters(&mut self) -> (res: Result<(), DSEError>)
        requires
            spec_rootkeys_ok(old(self)@),
        ensures
            res is Ok,
            final(self)@ == spec_auto_params(old(self)@),
    {
        let n = self.wavi.data.objects.len();
        let ghost samples = self.wavi.data.objects@;
        let mut i: usize = 0;
        while i < n
            invariant
                i <= n,
                n == samples.len(),
                samples == old(self).wavi.data.objects@,
                self.wavi.data.objects@.len() == n,
                self.header == old(self).header,
                self.wavi.header == old(self).wavi.header,
                self.wavi._read_n == old(self).wavi._read_n,
                self.wavi.data._read_n == old(self).wavi.data._read_n,
                self.wavi.data._chunk_len == old(self).wavi.data._chunk_len,
                self.prgi == old(self).prgi,
                self.kgrp == old(self).kgrp,
                self.pcmd == old(self).pcmd,
                self._eod == old(self)._eod,
                spec_rootkeys_ok(old(self)@),
                forall|k: int| 0 <= k < i ==> #[trigger] self.wavi.data.objects@[k] == spec_sample_auto(samples[k]),
                forall|k: int| i <= k < n ==> #[trigger] self.wavi.data.objects@[k] == samples[k],
            decreases n - i,
        {
            assert(old(self)@.wavi.data.objects[i as int].rootkey >= -67);
            assert(old(self)@.wavi.data.objects[i as int] == samples[i as int]);
            let s = &mut self.wavi.data.objects[i];
            s.ktps = 60 - s.rootkey;
            i = i + 1;
        }
        assert(self.wavi.data.objects@ =~= samples.map_values(|s: SampleInfo| spec_sample_auto(s)));
        assert(self.wavi.data@.objects =~= old(self).wavi.data@.objects.map_values(|s: SampleInfo| spec_sample_auto(s)));
        if self.prgi.is_some() {
            let mut prgi = self.prgi.take().unwrap();
            let ghost progs = prgi.data.objects@;
            let m = prgi.data.objects.len();
            let mut k: usize = 0;
            while k < m
                invariant
                    k <= m,
                    m == progs.len(),
                    prgi.data.objects@.len() == m,
                    old(self).prgi is Some,
                    prgi.header == old(self).prgi.unwrap().header,
                    prgi._read_n == old(self).prgi.unwrap()._read_n,
                    prgi.data._read_n == old(self).prgi.unwrap().data._read_n,
                    prgi.data._chunk_len == old(self).prgi.unwrap().data._chunk_len,
                    progs == old(self).prgi.unwrap().data.objects@,
                    spec_rootkeys_ok(old(self)@),
                    forall|q: int| 0 <= q < k ==> (#[trigger] prgi.data.objects@[q])@ == spec_program_auto(progs[q]@),
                    forall|q: int| k <= q < m ==> #[trigger] prgi.data.objects@[q] == progs[q],
                decreases m - k,
            {
                assert(old(self)@.prgi.unwrap().data.objects[k as int] == progs[k as int]@);
                program_auto_params(&mut prgi.data.objects[k]);
                k = k + 1;
            }
            assert(prgi@.data.objects =~= old(self).prgi.unwrap()@.data.objects.map_values(|q: ProgramInfoView| spec_program_auto(q)));
            self.prgi = Some(prgi);
        }
        Ok(())
    }
}

// ---------------------------------------------------------------------------
// Read markers
// ---------------------------------------------------------------------------

/// The programs with the split and LFO counts of the first `n` set from
/// their tables, and the error of the first count that does not fit.
pub open spec fn spec_set_counts(objs: Seq<ProgramInfoView>, n: nat) -> (Seq<ProgramInfoView>, Result<(), DSEError>)
    decreases n,
{
    if n == 0 {
        (objs, Ok(()))
    } else {
        let (cur, r) = spec_set_counts(objs, (n - 1) as nat);
        if r is Err {
            (cur, r)
        } else {
            let i = n - 1;
            let p = cur[i];
            let ns = p.splits_table.objects.len();
            let nl = p.lfo_table.objects.len();
            if ns > 0xFFFF {
                (cur, Err(DSEError::TableTooLong(DSEBlockType::SwdlPrgiProgramInfoSplits(i as usize))))
            } else {
                let h1 = ProgramInfoHeader { nbsplits: ns as u16, ..p.header };
                if nl > 0xFF {
                    (cur.update(i, ProgramInfoView { header: h1, ..p }), Err(DSEError::TableTooLong(DSEBlockType::SwdlPrgiProgramInfoLfos(i as usize))))
                } else {
                    (cur.update(i, ProgramInfoView { header: ProgramInfoHeader { nblfos: nl as u8, ..h1 }, ..p }), Ok(()))
                }
            }
        }
    }
}

proof fn lemma_set_counts_len(objs: Seq<ProgramInfoView>, n: nat)
    requires
        n <= objs.len(),
    ensures
        spec_set_counts(objs, n).0.len() == objs.len(),
        forall|j: int| n <= j < objs.len() ==> #[trigger] spec_set_counts(objs, n).0[j] == objs[j],
        forall|j: int| 0 <= j < objs.len() ==> (#[trigger] spec_set_counts(objs, n).0[j]).header.id == objs[j].header.id,
    decreases n,
{
    if n > 0 {
        lemma_set_counts_len(objs, (n - 1) as nat);
    }
}

proof fn lemma_set_counts_err(objs: Seq<ProgramInfoView>, k: nat, n: nat)
    requires
        k <= n,
        spec_set_counts(objs, k).1 is Err,
    ensures
        spec_set_counts(objs, n) == spec_set_counts(objs, k),
    decreases n - k,
{
    if k < n {
        lemma_set_counts_err(objs, k, (n - 1) as nat);
    }
}

/// Sets each program's split and LFO counts from its tables.
fn set_program_counts(objs: &mut Vec<ProgramInfo>) -> (res: Result<(), DSEError>)
    ensures
        (final(objs)@.map_values(|p: ProgramInfo| p@), res) == spec_set_counts(
            old(objs)@.map_values(|p: ProgramInfo| p@),
            old(objs)@.len(),
        ),
{
    let ghost orig = objs@.map_values(|p: ProgramInfo| p@);
    let n = objs.len();
    let mut k: usize = 0;
    while k < n
        invariant
            k <= n,
            n == orig.len(),
            objs@.len() == n,
            orig == old(objs)@.map_values(|p: ProgramInfo| p@),
            spec_set_counts(orig, k as nat).1 is Ok,
            objs@.map_values(|p: ProgramInfo| p@) == spec_set_counts(orig, k as nat).0,
        decreases n - k,
    {
        proof { lemma_set_counts_len(orig, k as nat); }
        let ghost cur = objs@.map_values(|p: ProgramInfo| p@);
        assert(cur[k as int] == objs@[k as int]@);
        let ns = objs[k].splits_table.len();
        if ns > 0xFFFF {
            proof { lemma_set_counts_err(orig, (k + 1) as nat, n as nat); }
            return Err(DSEError::TableTooLong(DSEBlockType::SwdlPrgiProgramInfoSplits(k)));
        }
        objs[k].header.nbsplits = ns as u16;
        let nl = objs[k].lfo_table.len();
        if nl > 0xFF {
            proof {
                assert(objs@.map_values(|p: ProgramInfo| p@) =~= spec_set_counts(orig, (k + 1) as nat).0);
                lemma_set_counts_err(orig, (k + 1) as nat, n as nat);
            }
            return Err(DSEError::TableTooLong(DSEBlockType::SwdlPrgiProgramInfoLfos(k)));
        }
        objs[k].header.nblfos = nl as u8;
        assert(objs@.map_values(|p: ProgramInfo| p@) =~= spec_set_counts(orig, (k + 1) as nat).0);
        k = k + 1;
    }
    Ok(())
}

/// The bank with the sample data's length recorded: kept when the bank
/// refers to the samples of the main bank (upper half of `pcmdlen` 0xAAAA
/// and no pcmd chunk), the chunk's length when there is a chunk, else marked
/// as referring to the main bank.
pub open spec fn spec_pcmd_markers(v: SWDLView) -> SWDLView {
    if v.header.pcmdlen & 0xFFFF0000 == 0xAAAA0000 && v.pcmd is None {
        v
    } else if v.pcmd is Some {
        let c = v.pcmd.unwrap();
        let l = c.data.len() as u32;
        SWDLView {
            header: SWDLHeader { pcmdlen: l, ..v.header },
            pcmd: Some(PCMDChunkView { header: ChunkHeader { chunklen: l, ..c.header }, ..c }),
            ..v
        }
    } else {
        SWDLView { header: SWDLHeader { pcmdlen: 0xAAAA0000, ..v.header }, ..v }
    }
}

/// The bank with its keygroup chunk's length set to that of `s`'s keygroups.
pub open spec fn spec_kgrp_len(s: SWDL, v: SWDLView) -> SWDLView {
    match s.kgrp {
        Some(k) => SWDLView {
            kgrp: Some(KGRPChunkView {
                header: ChunkHeader { chunklen: spec_table_write(k.data.objects@).unwrap().len() as u32, ..v.kgrp.unwrap().header },
                ..v.kgrp.unwrap()
            }),
            ..v
        },
        None => v,
    }
}

/// The bank with its labels set to "swdl", "wavi", "prgi", "kgrp" and "pcmd".
pub open spec fn spec_labels(v: SWDLView) -> SWDLView {
    SWDLView {
        header: SWDLHeader { magicn: 0x6C647773, ..v.header },
        wavi: WAVIChunkView { header: ChunkHeader { label: 0x69766177, ..v.wavi.header }, ..v.wavi },
        prgi: match v.prgi {
            Some(p) => Some(PRGIChunkView { header: ChunkHeader { label: 0x69677270, ..p.header }, ..p }),
            None => None,
        },
        kgrp: match v.kgrp {
            Some(k) => Some(KGRPChunkView { header: ChunkHeader { label: 0x7072676B, ..k.header }, ..k }),
            None => None,
        },
        pcmd: match v.pcmd {
            Some(c) => Some(PCMDChunkView { header: ChunkHeader { label: 0x646D6370, ..c.header }, ..c }),
            None => None,
        },
        ..v
    }
}

impl SWDL {
    /// What regenerating the read markers makes of `s`, and its result. In
    /// order: the file length (the file must be writable and fit in 32
    /// bits), the sample data length, the slot counts of the sample and
    /// program tables (128 without a program table; each must fit in 16
    /// bits), the sample table's length, the program table's length and the
    /// split and LFO counts of its programs, the keygroup chunk's length, and
    /// the labels. An error leaves the steps before it done.
    pub open spec fn spec_regenerate_read_markers<PW: Pointer, PP: Pointer>(s: SWDL) -> (SWDLView, Result<(), DSEError>) {
        let v = s@;
        match s.spec_write::<PW, PP>() {
            Err(e) => (v, Err(e)),
            Ok(b) => if b.len() > 0xFFFF_FFFF {
                (v, Err(DSEError::BinaryFileTooLarge(DSEFileType::SWDL)))
            } else {
                let v1 = spec_pcmd_markers(SWDLView { header: SWDLHeader { flen: b.len() as u32, ..v.header }, ..v });
                let nw = spec_slots(s.wavi.data.objects@);
                if nw > 0xFFFF {
                    (v1, Err(DSEError::PointerTableTooLong(DSEBlockType::SwdlWavi)))
                } else {
                    let v2 = SWDLView { header: SWDLHeader { nbwavislots: nw as u16, ..v1.header }, ..v1 };
                    let np = match s.prgi {
                        Some(p) => spec_slots(p.data.objects@),
                        None => 128,
                    };
                    if np > 0xFFFF {
                        (v2, Err(DSEError::PointerTableTooLong(DSEBlockType::SwdlPrgi)))
                    } else {
                        let wl = spec_ptable_write::<SampleInfo, PW>(s.wavi.data.objects@).unwrap().len() as u32;
                        let v3 = SWDLView {
                            header: SWDLHeader { nbprgislots: np as u16, wavilen: wl, ..v2.header },
                            wavi: WAVIChunkView { header: ChunkHeader { chunklen: wl, ..v2.wavi.header }, ..v2.wavi },
                            ..v2
                        };
                        match s.prgi {
                            None => (spec_labels(spec_kgrp_len(s, v3)), Ok(())),
                            Some(p) => {
                                let pv = v3.prgi.unwrap();
                                let pl = spec_ptable_write::<ProgramInfo, PP>(p.data.objects@).unwrap().len() as u32;
                                let (objs, r) = spec_set_counts(pv.data.objects, pv.data.objects.len());
                                let v4 = SWDLView {
                                    prgi: Some(PRGIChunkView {
                                        header: ChunkHeader { chunklen: pl, ..pv.header },
                                        data: PointerTableView { objects: objs, ..pv.data },
                                        ..pv
                                    }),
                                    ..v3
                                };
                                if r is Err {
                                    (v4, r)
                                } else {
                                    (spec_labels(spec_kgrp_len(s, v4)), Ok(()))
                                }
                            },
                        }
                    }
                }
            },
        }
    }

    /// Recomputes the lengths, slot counts and labels that the file records
    /// about itself.
    #[verifier::spinoff_prover]
    #[verifier::rlimit(60)]
    pub fn regenerate_read_markers<PW: Pointer, PP: Pointer>(&mut self) -> (res: Result<(), DSEError>)
        requires
            old(self).spec_slots_ok(),
        ensures
            (final(self)@, res) == SWDL::spec_regenerate_read_markers::<PW, PP>(*old(self)),
    {
        let ghost s0 = *self;
        let mut scratch: Vec<u8> = Vec::new();
        let total = self.write_to_file::<PW, PP>(&mut scratch)?;
        assert(scratch@ =~= s0.spec_write::<PW, PP>().unwrap());
        if total > 0xFFFF_FFFF {
            return Err(DSEError::BinaryFileTooLarge(DSEFileType::SWDL));
        }
        let ghost b = s0.spec_write::<PW, PP>().unwrap();
        assert(scratch@ =~= b);
        let sl = scratch.len();
        assert(sl == b.len());
        assert(total == b.len());
        proof {
            let w = s0.wavi.spec_write::<PW>().unwrap();
            let p = spec_opt_prgi_write::<PP>(s0.prgi).unwrap();
            let k = spec_opt_write(s0.kgrp).unwrap();
            let c = spec_opt_write(s0.pcmd).unwrap();
            assert(b.len() == s0.header.spec_encode().len() + w.len() + p.len() + k.len() + c.len() + SWDL::spec_eod_header().spec_encode().len());
            lemma_writable_16bit::<SampleInfo, PW>(s0.wavi.data.objects@);
            if s0.prgi is Some {
                lemma_writable_16bit::<ProgramInfo, PP>(s0.prgi.unwrap().data.objects@);
            }
        }
        self.header.flen = total as u32;
        let ghost v0 = self@;
        assert(v0 == SWDLView { header: SWDLHeader { flen: b.len() as u32, ..s0@.header }, ..s0@ });
        if self.header.pcmdlen & 0xFFFF0000 == 0xAAAA0000 && self.pcmd.is_none() {
        } else if self.pcmd.is_some() {
            let mut pcmd = self.pcmd.take().unwrap();
            let l = pcmd.data.len() as u32;
            self.header.pcmdlen = l;
            pcmd.header.chunklen = l;
            self.pcmd = Some(pcmd);
        } else {
            self.header.pcmdlen = 0xAAAA0000;
        }
        assert(self@ == spec_pcmd_markers(v0));
        let nw = self.wavi.data.slots();
        if nw > 0xFFFF {
            return Err(DSEError::PointerTableTooLong(DSEBlockType::SwdlWavi));
        }
        self.header.nbwavislots = nw as u16;
        let np: usize = match &self.prgi {
            Some(p) => p.data.slots(),
            None => 128,
        };
        if np > 0xFFFF {
            return Err(DSEError::PointerTableTooLong(DSEBlockType::SwdlPrgi));
        }
        self.header.nbprgislots = np as u16;
        let mut s2: Vec<u8> = Vec::new();
        let wl = match self.wavi.data.write_to_file::<PW>(&mut s2) {
            Ok(n) => n,
            Err(e) => return Err(map_placeholder(e, DSEBlockType::SwdlWavi)),
        };
        self.header.wavilen = wl as u32;
        self.wavi.header.chunklen = wl as u32;
        if self.prgi.is_some() {
            let mut prgi = self.prgi.take().unwrap();
            let mut s3: Vec<u8> = Vec::new();
            let pl = match prgi.data.write_to_file::<PP>(&mut s3) {
                Ok(n) => n,
                Err(e) => {
                    self.prgi = Some(prgi);
                    return Err(map_placeholder(e, DSEBlockType::SwdlPrgi));
                },
            };
            prgi.header.chunklen = pl as u32;
            let r = set_program_counts(&mut prgi.data.objects);
            self.prgi = Some(prgi);
            if r.is_err() {
                return r;
            }
        }
        if self.kgrp.is_some() {
            let mut kgrp = self.kgrp.take().unwrap();
            let mut s4: Vec<u8> = Vec::new();
            let kl = match kgrp.data.write_to_file(&mut s4) {
                Ok(n) => n,
                Err(e) => {
                    self.kgrp = Some(kgrp);
                    return Err(e);
                },
            };
            kgrp.header.chunklen = kl as u32;
            self.kgrp = Some(kgrp);
        }
        self.header.magicn = 0x6C647773;
        self.wavi.header.label = 0x69766177;
        if self.prgi.is_some() {
            let mut prgi = self.prgi.take().unwrap();
            prgi.header.label = 0x69677270;
            self.prgi = Some(prgi);
        }
        if self.kgrp.is_some() {
            let mut kgrp = self.kgrp.take().unwrap();
            kgrp.header.label = 0x7072676B;
            self.kgrp = Some(kgrp);
        }
        if self.pcmd.is_some() {
            let mut pcmd = self.pcmd.take().unwrap();
            pcmd.header.label = 0x646D6370;
            self.pcmd = Some(pcmd);
        }
        Ok(())
    }
}

// ---------------------------------------------------------------------------
// Names and metadata
// ---------------------------------------------------------------------------

/// The 16 bytes of a DSE string holding `text`: the text, a 0 byte, then
/// `pad` bytes.
pub open spec fn spec_dse_bytes(text: Seq<u8>, pad: u8) -> Seq<u8> {
    Seq::new(16, |i: int| if i < text.len() { text[i] } else if i == text.len() { 0u8 } else { pad })
}

/// The UTF-8 bytes of a string.
pub open spec fn spec_str_bytes(s: String) -> Seq<u8> {
    encode_utf8(s@)
}

impl<const U: u8> DSEString<U> {
    /// The string holding `text`, of at most 15 bytes.
    pub fn from_bytes(text: &[u8]) -> (r: Self)
        requires
            text@.len() <= 15,
        ensures
            r.inner@ == spec_dse_bytes(text@, U),
    {
        let mut buf: [u8; 16] = [U; 16];
        let n = text.len();
        let mut i: usize = 0;
        while i < n
            invariant
                i <= n,
                n == text@.len(),
                n <= 15,
                forall|k: int| 0 <= k < i ==> #[trigger] buf@[k] == text@[k],
                forall|k: int| i <= k < 16 ==> #[trigger] buf@[k] == U,
            decreases n - i,
        {
            buf[i] = text[i];
            i = i + 1;
        }
        buf[n] = 0;
        assert(buf@ =~= spec_dse_bytes(text@, U));
        DSEString { inner: buf }
    }

    /// The string holding `value`, which must be ASCII and at most 15 bytes long.
    pub fn try_from(value: String) -> (r: Result<Self, DSEError>)
        ensures
            !string_is_ascii(&value) ==> r == Err::<Self, DSEError>(DSEError::DSEStringConversionNonASCII(value)),
            string_is_ascii(&value) && spec_str_bytes(value).len() > 15 ==> r == Err::<Self, DSEError>(
                DSEError::DSEStringConversionLengthError(value, spec_str_bytes(value).len() as usize),
            ),
            string_is_ascii(&value) && spec_str_bytes(value).len() <= 15 ==> (r matches Ok(d) && d.inner@ == spec_dse_bytes(spec_str_bytes(value), U)),
    {
        if !value.as_str().is_ascii() {
            return Err(DSEError::DSEStringConversionNonASCII(value));
        }
        let n = value.as_str().as_bytes().len();
        if n > 15 {
            return Err(DSEError::DSEStringConversionLengthError(value, n));
        }
        Ok(DSEString::from_bytes(value.as_str().as_bytes()))
    }

    /// The bytes before the first 0 byte, or `None` when there is none.
    pub fn text_bytes(&self) -> (r: Option<Vec<u8>>)
        ensures
            match r {
                Some(t) => t@.len() < 16 && t@ == self.inner@.take(t@.len() as int) && self.inner@[t@.len() as int] == 0
                    && forall|k: int| 0 <= k < t@.len() ==> #[trigger] t@[k] != 0,
                None => forall|k: int| 0 <= k < 16 ==> #[trigger] self.inner@[k] != 0,
            },
    {
        let mut out: Vec<u8> = Vec::new();
        let mut i: usize = 0;
        while i < 16
            invariant
                i <= 16,
                out@ == self.inner@.take(i as int),
                forall|k: int| 0 <= k < i ==> #[trigger] self.inner@[k] != 0,
            decreases 16 - i,
        {
            if self.inner[i] == 0 {
                return Some(out);
            }
            out.push(self.inner[i]);
            i = i + 1;
            assert(out@ =~= self.inner@.take(i as int));
        }
        None
    }
}

/// The header with the version and the date of `last_modified` set.
pub open spec fn spec_with_date(h: SWDLHeader, last_modified: (u16, u8, u8, u8, u8, u8, u8)) -> SWDLHeader {
    SWDLHeader {
        version: 0x415,
        year: last_modified.0,
        month: last_modified.1,
        day: last_modified.2,
        hour: last_modified.3,
        minute: last_modified.4,
        second: last_modified.5,
        centisecond: last_modified.6,
        ..h
    }
}

/// The bytes of a file name as stored: its first 15 bytes.
pub open spec fn spec_fname_text(fname: String) -> Seq<u8> {
    let b = spec_str_bytes(fname);
    if b.len() > 15 { b.take(15) } else { b }
}

impl SWDL {
    /// Sets the version, the date and the file name. A name that is not
    /// ASCII is refused after the date is set; a longer one is cut to 15
    /// characters.
    pub fn set_metadata(&mut self, last_modified: (u16, u8, u8, u8, u8, u8, u8), fname: String) -> (res: Result<(), DSEError>)
        ensures
            !string_is_ascii(&fname) ==> (res matches Err(DSEError::DSEFileNameConversionNonASCII(k, n)) && k@ == "SWD"@ && n == fname)
                && *final(self) == (SWDL { header: spec_with_date(old(self).header, last_modified), ..*old(self) }),
            string_is_ascii(&fname) ==> res is Ok
                && final(self).header.fname.inner@ == spec_dse_bytes(spec_fname_text(fname), 0xAA)
                && *final(self) == (SWDL { header: SWDLHeader { fname: final(self).header.fname, ..spec_with_date(old(self).header, last_modified) }, ..*old(self) }),
    {
        let (year, month, day, hour, minute, second, centisecond) = last_modified;
        self.header.version = 0x415;
        self.header.year = year;
        self.header.month = month;
        self.header.day = day;
        self.header.hour = hour;
        self.header.minute = minute;
        self.header.second = second;
        self.header.centisecond = centisecond;
        if !fname.as_str().is_ascii() {
            return Err(DSEError::DSEFileNameConversionNonASCII("SWD".to_owned(), fname));
        }
        let bytes = fname.as_str().as_bytes();
        let n: usize = if bytes.len() > 15 { 15 } else { bytes.len() };
        let text = &bytes[0..n];
        assert(text@ =~= spec_fname_text(fname));
        self.header.fname = DSEString::from_bytes(text);
        Ok(())
    }
}

/// A bank with default values, the version, the date and the file name set.
pub fn create_swdl_shell(last_modified: (u16, u8, u8, u8, u8, u8, u8), fname: String) -> (r: Result<SWDL, DSEError>)
    ensures
        !string_is_ascii(&fname) ==> (r matches Err(DSEError::DSEFileNameConversionNonASCII(k, n)) && k@ == "SWD"@ && n == fname),
        string_is_ascii(&fname) ==> (r matches Ok(s) && s.header.fname.inner@ == spec_dse_bytes(spec_fname_text(fname), 0xAA)
            && s@ == (SWDLView { header: SWDLHeader { fname: s.header.fname, ..spec_with_date(SWDLHeader::spec_default(), last_modified) }, ..SWDL::spec_default() })),
{
    let mut track_swdl = SWDL::default();
    track_swdl.set_metadata(last_modified, fname)?;
    Ok(track_swdl)
}

// ---------------------------------------------------------------------------
// Loading and saving
// ---------------------------------------------------------------------------

impl SWDL {
    /// Reading a bank whose flags are `bits`: 32-bit sample pointers with the
    /// first flag, 32-bit program pointers with the second.
    pub open spec fn spec_read_flagged(bits: u32, v: SWDLView, data: Seq<u8>, pos: int) -> Result<(SWDLView, int), DSEError> {
        if bits & 3 == 3 {
            SWDL::spec_read::<u32, u32>(v, data, pos)
        } else if bits & 1 == 1 {
            SWDL::spec_read::<u32, u16>(v, data, pos)
        } else if bits & 2 == 2 {
            SWDL::spec_read::<u16, u32>(v, data, pos)
        } else {
            SWDL::spec_read::<u16, u16>(v, data, pos)
        }
    }

    /// Reads a bank, with pointer widths taken from the flags in its header.
    pub fn load(reader: &mut DataReader) -> (r: Result<SWDL, DSEError>)
        ensures
            final(reader).data@ == old(reader).data@,
            match spec_record_read::<SWDLHeader>(old(reader).data@, old(reader).pos as int) {
                Err(e) => r == Err::<SWDL, DSEError>(e),
                Ok((h, _p)) => match SWDL::spec_read_flagged(h.unk18, SWDL::spec_default(), old(reader).data@, old(reader).pos as int) {
                    Ok((v, p)) => r matches Ok(s) && s@ == v && final(reader).pos == p,
                    Err(e) => r == Err::<SWDL, DSEError>(e),
                },
            },
    {
        let flags = SongBuilderFlags::parse_from_swdl_file(reader)?;
        let mut swdl = SWDL::default();
        if flags.contains(SongBuilderFlags::full_pointer_extension()) {
            swdl.read_from_file::<u32, u32>(reader)?;
        } else if flags.contains(SongBuilderFlags::wavi_pointer_extension()) {
            swdl.read_from_file::<u32, u16>(reader)?;
        } else if flags.contains(SongBuilderFlags::prgi_pointer_extension()) {
            swdl.read_from_file::<u16, u32>(reader)?;
        } else {
            swdl.read_from_file::<u16, u16>(reader)?;
        }
        Ok(swdl)
    }
}

proof fn lemma_set_counts_splits(objs: Seq<ProgramInfoView>, n: nat)
    requires
        n <= objs.len(),
    ensures
        spec_set_counts(objs, n).0.len() == objs.len(),
        forall|j: int| 0 <= j < objs.len() ==> (#[trigger] spec_set_counts(objs, n).0[j]).splits_table == objs[j].splits_table,
    decreases n,
{
    if n > 0 {
        lemma_set_counts_splits(objs, (n - 1) as nat);
    }
}

/// Whether no two samples, and no two programs, of a bank share an id.
pub open spec fn spec_view_slots_ok(v: SWDLView) -> bool {
    &&& forall|a: int, b: int| 0 <= a < b < v.wavi.data.objects.len() ==> (#[trigger] v.wavi.data.objects[a]).id != (#[trigger] v.wavi.data.objects[b]).id
    &&& (v.prgi matches Some(p) ==> forall|a: int, b: int| 0 <= a < b < p.data.objects.len() ==> (#[trigger] p.data.objects[a]).header.id != (#[trigger] p.data.objects[b]).header.id)
}

/// A bank's slots are told apart by the ids its model holds.
proof fn lemma_slots_ok_view(s: SWDL)
    ensures
        s.spec_slots_ok() == spec_view_slots_ok(s@),
{
    let w = s.wavi.data.objects@;
    assert forall|a: int, b: int| 0 <= a < b < w.len() implies
        (spec_own_slot(#[trigger] w[a], a) != spec_own_slot(#[trigger] w[b], b)) == (s@.wavi.data.objects[a].id != s@.wavi.data.objects[b].id) by {
        assert(s@.wavi.data.objects[a] == w[a]@ && s@.wavi.data.objects[b] == w[b]@);
    }
    if let Some(p) = s.prgi {
        let q = p.data.objects@;
        assert forall|a: int, b: int| 0 <= a < b < q.len() implies
            (spec_own_slot(#[trigger] q[a], a) != spec_own_slot(#[trigger] q[b], b)) == (s@.prgi.unwrap().data.objects[a].header.id != s@.prgi.unwrap().data.objects[b].header.id) by {
            assert(s@.prgi.unwrap().data.objects[a] == q[a]@ && s@.prgi.unwrap().data.objects[b] == q[b]@);
        }
    }
}

/// Regenerating the read markers, where it succeeds, keeps every id, so a
/// bank whose slots were apart keeps them apart.
proof fn lemma_regen_slots<PW: Pointer, PP: Pointer>(s: SWDL, s2: SWDL)
    requires
        s.spec_slots_ok(),
        SWDL::spec_regenerate_read_markers::<PW, PP>(s) == (s2@, Ok::<(), DSEError>(())),
    ensures
        s2.spec_slots_ok(),
{
    lemma_slots_ok_view(s);
    lemma_slots_ok_view(s2);
    let v = s2@;
    assert(v.wavi.data.objects == s@.wavi.data.objects);
    if s.prgi is Some {
        let objs = s@.prgi.unwrap().data.objects;
        lemma_set_counts_len(objs, objs.len());
        let o2 = v.prgi.unwrap().data.objects;
        assert(o2 == spec_set_counts(objs, objs.len()).0);
        assert forall|a: int, b: int| 0 <= a < b < o2.len() implies (#[trigger] o2[a]).header.id != (#[trigger] o2[b]).header.id by {
            assert(o2[a].header.id == objs[a].header.id && o2[b].header.id == objs[b].header.id);
        }
    }
}

/// Recomputing the automatic parameters keeps every id.
proof fn lemma_auto_slots(s: SWDL, s2: SWDL)
    requires
        s.spec_slots_ok(),
        s2@ == spec_auto_params(s@),
    ensures
        s2.spec_slots_ok(),
{
    lemma_slots_ok_view(s);
    lemma_slots_ok_view(s2);
    let w = s@.wavi.data.objects;
    let w2 = s2@.wavi.data.objects;
    assert forall|a: int, b: int| 0 <= a < b < w2.len() implies (#[trigger] w2[a]).id != (#[trigger] w2[b]).id by {
        assert(w2[a].id == w[a].id && w2[b].id == w[b].id);
    }
    if s.prgi is Some {
        let q = s@.prgi.unwrap().data.objects;
        let q2 = s2@.prgi.unwrap().data.objects;
        assert forall|a: int, b: int| 0 <= a < b < q2.len() implies (#[trigger] q2[a]).header.id != (#[trigger] q2[b]).header.id by {
            assert(q2[a].header.id == q[a].header.id && q2[b].header.id == q[b].header.id);
        }
    }
}

/// Regenerating the read markers keeps every root key.
proof fn lemma_regen_rootkeys<PW: Pointer, PP: Pointer>(s: SWDL)
    requires
        spec_rootkeys_ok(s@),
    ensures
        spec_rootkeys_ok(SWDL::spec_regenerate_read_markers::<PW, PP>(s).0),
{
    let v = SWDL::spec_regenerate_read_markers::<PW, PP>(s).0;
    assert(v.wavi.data.objects == s@.wavi.data.objects);
    if s.prgi is Some {
        let objs = s@.prgi.unwrap().data.objects;
        lemma_set_counts_splits(objs, objs.len());
        assert forall|i: int| 0 <= i < v.prgi.unwrap().data.objects.len() implies spec_split_keys_ok(#[trigger] v.prgi.unwrap().data.objects[i]) by {
            assert(spec_split_keys_ok(objs[i]));
        }
    }
}

impl SWDL {
    /// What saving `s` (its flags already set) with pointers `PW` and `PP`
    /// does: `fin` is the bank after, `w0` and `w1` what the writer held
    /// before and after. The read markers are regenerated, then the
    /// automatic parameters, then the bank is written.
    pub open spec fn spec_save_outcome<PW: Pointer, PP: Pointer>(s: SWDL, fin: SWDL, w0: Seq<u8>, w1: Seq<u8>, res: Result<(), DSEError>) -> bool {
        let (v, r) = SWDL::spec_regenerate_read_markers::<PW, PP>(s);
        match r {
            Err(e) => res == Err::<(), DSEError>(e) && fin@ == v && w1 == w0,
            Ok(_) => fin@ == spec_auto_params(v) && match fin.spec_write::<PW, PP>() {
                Ok(b) => res is Ok && w1 == w0 + b,
                Err(e) => res == Err::<(), DSEError>(e),
            },
        }
    }

    /// Saving with the pointer widths that the flags `bits` select.
    pub open spec fn spec_save_flagged(bits: u32, s: SWDL, fin: SWDL, w0: Seq<u8>, w1: Seq<u8>, res: Result<(), DSEError>) -> bool {
        if bits & 3 == 3 {
            SWDL::spec_save_outcome::<u32, u32>(s, fin, w0, w1, res)
        } else if bits & 1 == 1 {
            SWDL::spec_save_outcome::<u32, u16>(s, fin, w0, w1, res)
        } else if bits & 2 == 2 {
            SWDL::spec_save_outcome::<u16, u32>(s, fin, w0, w1, res)
        } else {
            SWDL::spec_save_outcome::<u16, u16>(s, fin, w0, w1, res)
        }
    }

    /// Stores the flags in the header, then regenerates the read markers and
    /// the automatic parameters and writes the bank, with the pointer widths
    /// that the flags select.
    pub fn save(&mut self, writer: &mut Vec<u8>, flags: SongBuilderFlags) -> (res: Result<(), DSEError>)
        requires
            spec_rootkeys_ok(old(self)@),
            old(self).spec_slots_ok(),
        ensures
            SWDL::spec_save_flagged(
                flags.spec_bits(),
                SWDL { header: SWDLHeader { unk18: flags.spec_bits(), ..old(self).header }, ..*old(self) },
                *final(self),
                old(writer)@,
                final(writer)@,
                res,
            ),
    {
        self.set_song_builder_flags(flags);
        let ghost s1 = *self;
        assert(s1@.wavi == old(self)@.wavi && s1@.prgi == old(self)@.prgi);
        assert(spec_rootkeys_ok(s1@));
        if flags.contains(SongBuilderFlags::full_pointer_extension()) {
            proof { lemma_regen_rootkeys::<u32, u32>(s1); }
            self.regenerate_read_markers::<u32, u32>()?;
            let ghost s2 = *self;
            proof { lemma_regen_slots::<u32, u32>(s1, s2); }
            self.regenerate_automatic_parameters()?;
            proof { lemma_auto_slots(s2, *self); }
            self.write_to_file::<u32, u32>(writer)?;
        } else if flags.contains(SongBuilderFlags::wavi_pointer_extension()) {
            proof { lemma_regen_rootkeys::<u32, u16>(s1); }
            self.regenerate_read_markers::<u32, u16>()?;
            let ghost s2 = *self;
            proof { lemma_regen_slots::<u32, u16>(s1, s2); }
            self.regenerate_automatic_parameters()?;
            proof { lemma_auto_slots(s2, *self); }
            self.write_to_file::<u32, u16>(writer)?;
        } else if flags.contains(SongBuilderFlags::prgi_pointer_extension()) {
            proof { lemma_regen_rootkeys::<u16, u32>(s1); }
            self.regenerate_read_markers::<u16, u32>()?;
            let ghost s2 = *self;
            proof { lemma_regen_slots::<u16, u32>(s1, s2); }
            self.regenerate_automatic_parameters()?;
            proof { lemma_auto_slots(s2, *self); }
            self.write_to_file::<u16, u32>(writer)?;
        } else {
            proof { lemma_regen_rootkeys::<u16, u16>(s1); }
            self.regenerate_read_markers::<u16, u16>()?;
            let ghost s2 = *self;
            proof { lemma_regen_slots::<u16, u16>(s1, s2); }
            self.regenerate_automatic_parameters()?;
            proof { lemma_auto_slots(s2, *self); }
            self.write_to_file::<u16, u16>(writer)?;
        }
        Ok(())
    }

    /// Regenerating the read markers with the pointer widths that the flags
    /// `bits` select.
    pub open spec fn spec_regenerate_flagged(bits: u32, s: SWDL) -> (SWDLView, Result<(), DSEError>) {
        if bits & 3 == 3 {
            SWDL::spec_regenerate_read_markers::<u32, u32>(s)
        } else if bits & 1 == 1 {
            SWDL::spec_regenerate_read_markers::<u32, u16>(s)
        } else if bits & 2 == 2 {
            SWDL::spec_regenerate_read_markers::<u16, u32>(s)
        } else {
            SWDL::spec_regenerate_read_markers::<u16, u16>(s)
        }
    }

    /// Completes a bank read from its XML form: the read markers are
    /// regenerated with the pointer widths that its flags select, then the
    /// automatic parameters.
    pub fn load_xml(swdl: SWDL) -> (r: Result<SWDL, DSEError>)
        requires
            spec_rootkeys_ok(swdl@),
            swdl.spec_slots_ok(),
        ensures
            match SWDL::spec_regenerate_flagged(swdl.header.unk18, swdl) {
                (v, Ok(_)) => r matches Ok(x) && x@ == spec_auto_params(v),
                (_, Err(e)) => r == Err::<SWDL, DSEError>(e),
            },
    {
        let mut swdl = swdl;
        let ghost s0 = swdl;
        let flags = SongBuilderFlags::parse_from_swdl(&swdl);
        if flags.contains(SongBuilderFlags::full_pointer_extension()) {
            proof { lemma_regen_rootkeys::<u32, u32>(s0); }
            swdl.regenerate_read_markers::<u32, u32>()?;
        } else if flags.contains(SongBuilderFlags::wavi_pointer_extension()) {
            proof { lemma_regen_rootkeys::<u32, u16>(s0); }
            swdl.regenerate_read_markers::<u32, u16>()?;
        } else if flags.contains(SongBuilderFlags::prgi_pointer_extension()) {
            proof { lemma_regen_rootkeys::<u16, u32>(s0); }
            swdl.regenerate_read_markers::<u16, u32>()?;
        } else {
            proof { lemma_regen_rootkeys::<u16, u16>(s0); }
            swdl.regenerate_read_markers::<u16, u16>()?;
        }
        swdl.regenerate_automatic_parameters()?;
        Ok(swdl)
    }
}

} // verus!
