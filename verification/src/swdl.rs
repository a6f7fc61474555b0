//! The SWDL sample bank format: the header, the sample table (wavi), the
//! program table (prgi), the keygroups (kgrp) and the sample data (pcmd).
use vstd::prelude::*;
use crate::codec::{DataReader, push_bytes, push_repeated};
use crate::dtype::{spec_slots_distinct, 
    AutoReadWrite, DSEBlockType, DSEError, IsSelfIndexed, Pointer, PointerTable, PointerTableView,
    ReadWrite, Table, TableView, spec_max_self_index, spec_ptable_entries, spec_ptable_read,
    spec_ptable_write, spec_record_read, spec_round16, spec_sat_add, spec_slots_defined,
};

mod records;
mod bank;
mod tuning;
pub mod roundtrip;
pub mod sf2;

pub use self::records::{
    ADSRVolumeEnvelope, ChunkHeader, DSEString, Keygroup, LFOEntry, ProgramInfoHeader, SWDLHeader,
    SampleInfo, SplitEntry, Tuning, _KeygroupsSampleDataDelimiter, _ProgramInfoDelimiter,
};
pub use self::bank::{SWDL, SWDLView, create_swdl_shell, lemma_auto_params_idempotent, spec_dse_bytes, spec_fname_text, spec_with_date};
pub use self::tuning::{
    LOOKUP_TABLE_20_B0_F50, LOOKUP_TABLE_20_B1050, lemma_cents_roundtrip, lemma_from_cents_nearest, lemma_to_cents_nearest, lookup_env_time_value_i16, lookup_env_time_value_i32,
    msec_to_index, spec_from_cents, spec_to_cents, lemma_nearest_index, spec_nearest_index, spec_first_at_least, spec_dist,
    spec_table16, spec_table32, lemma_table16_ascending, lemma_table32_ascending, lemma_lookup16_nearest, lemma_lookup32_nearest,
};

verus! {

// ---------------------------------------------------------------------------
// Own indices
// ---------------------------------------------------------------------------

impl IsSelfIndexed for SampleInfo {
    open spec fn spec_self_index(&self) -> Option<usize> {
        Some(self.id as usize)
    }

    open spec fn spec_with_self_index(&self, new_index: usize) -> Option<Self> {
        if new_index <= u16::MAX {
            Some(SampleInfo { id: new_index as u16, ..*self })
        } else {
            None
        }
    }

    fn is_self_indexed(&self) -> (r: Option<usize>) {
        Some(self.id as usize)
    }

    fn change_self_index(&mut self, new_index: usize) -> (r: Result<(), DSEError>)
        ensures
            r matches Err(e) ==> e is Placeholder,
    {
        if new_index <= 0xFFFF {
            self.id = new_index as u16;
            Ok(())
        } else {
            Err(DSEError::Placeholder())
        }
    }
}

impl IsSelfIndexed for ProgramInfoHeader {
    open spec fn spec_self_index(&self) -> Option<usize> {
        Some(self.id as usize)
    }

    open spec fn spec_with_self_index(&self, new_index: usize) -> Option<Self> {
        if new_index <= u16::MAX {
            Some(ProgramInfoHeader { id: new_index as u16, ..*self })
        } else {
            None
        }
    }

    fn is_self_indexed(&self) -> (r: Option<usize>) {
        Some(self.id as usize)
    }

    fn change_self_index(&mut self, new_index: usize) -> (r: Result<(), DSEError>)
        ensures
            r matches Err(e) ==> e is Placeholder,
    {
        if new_index <= 0xFFFF {
            self.id = new_index as u16;
            Ok(())
        } else {
            Err(DSEError::Placeholder())
        }
    }
}

impl IsSelfIndexed for LFOEntry {
    open spec fn spec_self_index(&self) -> Option<usize> {
        None
    }

    open spec fn spec_with_self_index(&self, new_index: usize) -> Option<Self> {
        None
    }

    fn is_self_indexed(&self) -> (r: Option<usize>) {
        None
    }

    /// LFO entries carry no index: always an error.
    fn change_self_index(&mut self, new_index: usize) -> (r: Result<(), DSEError>)
        ensures
            r matches Err(e) ==> e is Invalid,
    {
        Err(DSEError::Invalid("LFO entries do not have indices!!".to_string()))
    }
}

impl IsSelfIndexed for SplitEntry {
    open spec fn spec_self_index(&self) -> Option<usize> {
        Some(self.id as usize)
    }

    open spec fn spec_with_self_index(&self, new_index: usize) -> Option<Self> {
        if new_index <= u8::MAX {
            Some(SplitEntry { id: new_index as u8, ..*self })
        } else {
            None
        }
    }

    fn is_self_indexed(&self) -> (r: Option<usize>) {
        Some(self.id as usize)
    }

    fn change_self_index(&mut self, new_index: usize) -> (r: Result<(), DSEError>)
        ensures
            r matches Err(e) ==> e is Placeholder,
    {
        if new_index <= 0xFF {
            self.id = new_index as u8;
            Ok(())
        } else {
            Err(DSEError::Placeholder())
        }
    }
}

impl IsSelfIndexed for Keygroup {
    open spec fn spec_self_index(&self) -> Option<usize> {
        Some(self.id as usize)
    }

    open spec fn spec_with_self_index(&self, new_index: usize) -> Option<Self> {
        if new_index <= u16::MAX {
            Some(Keygroup { id: new_index as u16, ..*self })
        } else {
            None
        }
    }

    fn is_self_indexed(&self) -> (r: Option<usize>) {
        Some(self.id as usize)
    }

    fn change_self_index(&mut self, new_index: usize) -> (r: Result<(), DSEError>)
        ensures
            r matches Err(e) ==> e is Placeholder,
    {
        if new_index <= 0xFFFF {
            self.id = new_index as u16;
            Ok(())
        } else {
            Err(DSEError::Placeholder())
        }
    }
}

// ---------------------------------------------------------------------------
// Programs
// ---------------------------------------------------------------------------

/// The model of a program.
pub struct ProgramInfoView {
    pub header: ProgramInfoHeader,
    pub lfo_table: TableView<LFOEntry>,
    pub _delimiter: _ProgramInfoDelimiter,
    pub splits_table: TableView<SplitEntry>,
}

/// A program: its header, its LFOs, a delimiter of 16 bytes, and its splits.
#[derive(Debug, Clone)]
pub struct ProgramInfo {
    pub header: ProgramInfoHeader,
    pub lfo_table: Table<LFOEntry>,
    pub _delimiter: _ProgramInfoDelimiter,
    pub splits_table: Table<SplitEntry>,
}

impl View for ProgramInfo {
    type V = ProgramInfoView;

    open spec fn view(&self) -> ProgramInfoView {
        ProgramInfoView {
            header: self.header,
            lfo_table: self.lfo_table@,
            _delimiter: self._delimiter,
            splits_table: self.splits_table@,
        }
    }
}

impl ProgramInfo {
    /// The model of the value that `default` returns.
    pub open spec fn spec_default() -> ProgramInfoView {
        ProgramInfoView {
            header: ProgramInfoHeader::spec_default(),
            lfo_table: TableView { read_n: 4, objects: Seq::empty() },
            _delimiter: _ProgramInfoDelimiter::spec_default(),
            splits_table: TableView { read_n: 8, objects: Seq::empty() },
        }
    }
}

impl Default for ProgramInfo {
    fn default() -> (r: Self)
        ensures
            r@ == ProgramInfo::spec_default(),
    {
        let r = ProgramInfo {
            header: ProgramInfoHeader::default(),
            lfo_table: Table::new(4),
            _delimiter: _ProgramInfoDelimiter::default(),
            splits_table: Table::new(8),
        };
        assert(r.lfo_table@.objects =~= Seq::<LFOEntry>::empty());
        assert(r.splits_table@.objects =~= Seq::<SplitEntry>::empty());
        r
    }
}

impl IsSelfIndexed for ProgramInfo {
    open spec fn spec_self_index(&self) -> Option<usize> {
        self.header.spec_self_index()
    }

    open spec fn spec_with_self_index(&self, new_index: usize) -> Option<Self> {
        match self.header.spec_with_self_index(new_index) {
            Some(h) => Some(ProgramInfo { header: h, ..*self }),
            None => None,
        }
    }

    fn is_self_indexed(&self) -> (r: Option<usize>) {
        self.header.is_self_indexed()
    }

    fn change_self_index(&mut self, new_index: usize) -> (r: Result<(), DSEError>) {
        self.header.change_self_index(new_index)
    }
}

/// `n` bytes of value `b`.
pub open spec fn spec_repeat(b: u8, n: nat) -> Seq<u8> {
    Seq::new(n, |_i: int| b)
}

impl ReadWrite for ProgramInfo {
    /// The header, the LFOs, 16 bytes of the pad byte, and the splits; a
    /// program may not have 256 splits.
    open spec fn spec_write(&self) -> Result<Seq<u8>, DSEError> {
        match self.lfo_table.spec_write() {
            Err(e) => Err(e),
            Ok(l) => if self.splits_table.objects@.len() == 256 {
                Err(DSEError::TooManySampleMappings(256))
            } else {
                match self.splits_table.spec_write() {
                    Err(e) => Err(e),
                    Ok(sp) => Ok(self.header.spec_encode() + l + spec_repeat(self.header.PadByte, 16) + sp),
                }
            },
        }
    }

    /// The header, then as many LFOs and splits as it counts, with the
    /// delimiter between them.
    open spec fn spec_read(v: ProgramInfoView, data: Seq<u8>, pos: int) -> Result<(ProgramInfoView, int), DSEError> {
        match spec_record_read::<ProgramInfoHeader>(data, pos) {
            Err(e) => Err(e),
            Ok((h, p1)) => match Table::<LFOEntry>::spec_read(TableView { read_n: h.nblfos as usize, objects: v.lfo_table.objects }, data, p1) {
                Err(e) => Err(e),
                Ok((lfo, p2)) => match spec_record_read::<_ProgramInfoDelimiter>(data, p2) {
                    Err(e) => Err(e),
                    Ok((dl, p3)) => match Table::<SplitEntry>::spec_read(TableView { read_n: h.nbsplits as usize, objects: v.splits_table.objects }, data, p3) {
                        Err(e) => Err(e),
                        Ok((sp, p4)) => Ok((ProgramInfoView { header: h, lfo_table: lfo, _delimiter: dl, splits_table: sp }, p4)),
                    },
                },
            },
        }
    }

    open spec fn spec_fresh() -> ProgramInfoView {
        ProgramInfo::spec_default()
    }

    fn fresh() -> (r: Self) {
        ProgramInfo::default()
    }

    fn write_to_file(&self, writer: &mut Vec<u8>) -> (res: Result<usize, DSEError>) {
        let start = writer.len();
        let ghost w0 = writer@;
        self.header.write_to_file(writer)?;
        let ghost w1 = writer@;
        self.lfo_table.write_to_file(writer)?;
        let ghost w2 = writer@;
        let mut delim: Vec<u8> = Vec::new();
        push_repeated(&mut delim, self.header.PadByte, 16);
        push_bytes(writer, delim.as_slice());
        let ghost w3 = writer@;
        if self.splits_table.objects.len() == 256 {
            return Err(DSEError::TooManySampleMappings(256));
        }
        self.splits_table.write_to_file(writer)?;
        proof {
            let l = self.lfo_table.spec_write().unwrap();
            let sp = self.splits_table.spec_write().unwrap();
            assert(delim@ =~= spec_repeat(self.header.PadByte, 16));
            assert(writer@ =~= w0 + (self.header.spec_encode() + l + spec_repeat(self.header.PadByte, 16) + sp));
        }
        Ok(writer.len() - start)
    }

    fn read_from_file(&mut self, reader: &mut DataReader) -> (res: Result<(), DSEError>) {
        self.header.read_from_file(reader)?;
        self.lfo_table.set_read_params(self.header.nblfos as usize);
        self.lfo_table.read_from_file(reader)?;
        self._delimiter.read_from_file(reader)?;
        self.splits_table.set_read_params(self.header.nbsplits as usize);
        self.splits_table.read_from_file(reader)?;
        Ok(())
    }
}

// ---------------------------------------------------------------------------
// Chunks
// ---------------------------------------------------------------------------

/// The model of the sample table chunk.
pub struct WAVIChunkView {
    pub read_n: usize,
    pub header: ChunkHeader,
    pub data: PointerTableView<SampleInfo>,
}

/// The sample table chunk: a header and a pointer table of sample entries.
#[derive(Debug, Clone)]
pub struct WAVIChunk {
    /// Number of slots that `read_from_file` reads.
    pub _read_n: usize,
    pub header: ChunkHeader,
    pub data: PointerTable<SampleInfo>,
}

impl View for WAVIChunk {
    type V = WAVIChunkView;

    open spec fn view(&self) -> WAVIChunkView {
        WAVIChunkView { read_n: self._read_n, header: self.header, data: self.data@ }
    }
}

/// A chunk's pointer table error: an offset too large for the pointers is
/// reported for the block.
pub open spec fn spec_map_placeholder(e: DSEError, block: DSEBlockType) -> DSEError {
    match e {
        DSEError::Placeholder() => DSEError::PointerTableTooLarge(block),
        _ => e,
    }
}

pub(crate) fn map_placeholder(e: DSEError, block: DSEBlockType) -> (r: DSEError)
    ensures
        r == spec_map_placeholder(e, block),
{
    match e {
        DSEError::Placeholder() => DSEError::PointerTableTooLarge(block),
        _ => e,
    }
}

/// Whether a pointer table of these objects can be written with pointers `P`.
pub open spec fn spec_ptable_writable<T: ReadWrite + IsSelfIndexed, P: Pointer>(objs: Seq<T>) -> bool {
    &&& spec_slots_defined(objs)
    &&& spec_ptable_entries::<T, P>(objs) * P::spec_size() + 15 <= usize::MAX
}

/// Every object carries its own index, and each index fits in 16 bits.
pub open spec fn spec_ids_16bit<T: IsSelfIndexed>(objs: Seq<T>) -> bool {
    forall|i: int| 0 <= i < objs.len() ==> (#[trigger] objs[i].spec_self_index()) is Some && objs[i].spec_self_index().unwrap() <= 0xFFFF
}

proof fn lemma_max_index_16bit<T: IsSelfIndexed>(objs: Seq<T>)
    requires
        spec_ids_16bit(objs),
    ensures
        spec_max_self_index(objs) <= 0xFFFF,
    decreases objs.len(),
{
    if objs.len() > 0 {
        assert(objs.drop_last().len() == objs.len() - 1);
        assert forall|i: int| 0 <= i < objs.drop_last().len() implies (#[trigger] objs.drop_last()[i].spec_self_index()) is Some
            && objs.drop_last()[i].spec_self_index().unwrap() <= 0xFFFF by {
            assert(objs.drop_last()[i] == objs[i]);
        }
        lemma_max_index_16bit(objs.drop_last());
        assert(objs.last() == objs[objs.len() - 1]);
        assert(objs[objs.len() - 1].spec_self_index() is Some);
    }
}

/// A table whose objects carry 16-bit indices can always be written.
pub proof fn lemma_writable_16bit<T: ReadWrite + IsSelfIndexed, P: Pointer>(objs: Seq<T>)
    requires
        spec_ids_16bit(objs),
    ensures
        spec_ptable_writable::<T, P>(objs),
{
    P::lemma_pointer_facts();
    lemma_max_index_16bit(objs);
    assert forall|i: int| 0 <= i < objs.len() implies ((#[trigger] objs[i].spec_self_index()) is Some == objs[0].spec_self_index() is Some)
        && (objs[i].spec_self_index() is Some ==> objs[i].spec_self_index().unwrap() < usize::MAX) by {
        assert(objs[0].spec_self_index() is Some);
    }
    assert(spec_ptable_entries::<T, P>(objs) <= 0x10001);
    assert(spec_ptable_entries::<T, P>(objs) * P::spec_size() <= 0x10001 * 4) by (nonlinear_arith)
        requires
            spec_ptable_entries::<T, P>(objs) <= 0x10001,
            P::spec_size() <= 4,
    ;
}

impl WAVIChunk {
    /// An empty chunk that reads `nbwavislots` slots.
    /// The model of the chunk that `new` returns.
    pub open spec fn spec_new(nbwavislots: usize) -> WAVIChunkView {
        WAVIChunkView {
            read_n: nbwavislots,
            header: ChunkHeader::spec_default(),
            data: PointerTableView { read_n: nbwavislots, chunk_len: 0, objects: Seq::empty() },
        }
    }

    pub fn new(nbwavislots: usize) -> (r: WAVIChunk)
        ensures
            r@ == WAVIChunk::spec_new(nbwavislots),
    {
        let r = WAVIChunk { _read_n: nbwavislots, header: ChunkHeader::default(), data: PointerTable::new(nbwavislots, 0) };
        assert(r.data@.objects =~= Seq::<SampleInfo>::empty());
        r
    }

    pub fn set_read_params(&mut self, nbwavislots: usize)
        ensures
            *final(self) == (WAVIChunk { _read_n: nbwavislots, ..*old(self) }),
    {
        self._read_n = nbwavislots;
    }

    /// The bytes of the chunk: its header, then the pointer table.
    pub open spec fn spec_write<P: Pointer>(&self) -> Result<Seq<u8>, DSEError> {
        match spec_ptable_write::<SampleInfo, P>(self.data.objects@) {
            Err(e) => Err(spec_map_placeholder(e, DSEBlockType::SwdlWavi)),
            Ok(b) => Ok(self.header.spec_encode() + b),
        }
    }

    pub fn write_to_file<P: Pointer>(&self, writer: &mut Vec<u8>) -> (res: Result<usize, DSEError>)
        requires
            spec_slots_distinct(self.data.objects@),
        ensures
            match self.spec_write::<P>() {
                Ok(b) => res == Ok::<usize, DSEError>(b.len() as usize) && final(writer)@ == old(writer)@ + b,
                Err(e) => res == Err::<usize, DSEError>(e),
            },
    {
        proof { lemma_writable_16bit::<SampleInfo, P>(self.data.objects@); }
        let start = writer.len();
        self.header.write_to_file(writer)?;
        let ghost w1 = writer@;
        match self.data.write_to_file::<P>(writer) {
            Ok(_) => {},
            Err(e) => return Err(map_placeholder(e, DSEBlockType::SwdlWavi)),
        }
        proof {
            vstd::seq_lib::lemma_concat_associative(old(writer)@, self.header.spec_encode(), spec_ptable_write::<SampleInfo, P>(self.data.objects@).unwrap());
        }
        Ok(writer.len() - start)
    }

    /// What reading the chunk makes of a chunk whose model is `v`.
    pub open spec fn spec_read<P: Pointer>(v: WAVIChunkView, data: Seq<u8>, pos: int) -> Result<(WAVIChunkView, int), DSEError> {
        match spec_record_read::<ChunkHeader>(data, pos) {
            Err(e) => Err(e),
            Ok((h, p1)) => match spec_ptable_read::<SampleInfo, P>(data, p1, v.read_n as nat) {
                Err(e) => Err(e),
                Ok(items) => Ok((
                    WAVIChunkView {
                        read_n: v.read_n,
                        header: h,
                        data: PointerTableView { read_n: v.read_n, chunk_len: h.chunklen, objects: v.data.objects + items },
                    },
                    spec_sat_add(p1, h.chunklen as int),
                )),
            },
        }
    }

    pub fn read_from_file<P: Pointer>(&mut self, reader: &mut DataReader) -> (res: Result<(), DSEError>)
        ensures
            final(reader).data@ == old(reader).data@,
            match Self::spec_read::<P>(old(self)@, old(reader).data@, old(reader).pos as int) {
                Ok((v, p)) => res is Ok && final(self)@ == v && final(reader).pos == p,
                Err(e) => res == Err::<(), DSEError>(e),
            },
    {
        self.header.read_from_file(reader)?;
        self.data.set_read_params(self._read_n, self.header.chunklen);
        self.data.read_from_file::<P>(reader)?;
        Ok(())
    }
}

/// The model of the program table chunk.
pub struct PRGIChunkView {
    pub read_n: usize,
    pub header: ChunkHeader,
    pub data: PointerTableView<ProgramInfoView>,
}

/// The program table chunk: a header and a pointer table of programs.
#[derive(Debug, Clone)]
pub struct PRGIChunk {
    /// Number of slots that `read_from_file` reads.
    pub _read_n: usize,
    pub header: ChunkHeader,
    pub data: PointerTable<ProgramInfo>,
}

impl View for PRGIChunk {
    type V = PRGIChunkView;

    open spec fn view(&self) -> PRGIChunkView {
        PRGIChunkView { read_n: self._read_n, header: self.header, data: self.data@ }
    }
}

impl PRGIChunk {
    /// An empty chunk that reads `nbprgislots` slots.
    /// The model of the chunk that `new` returns.
    pub open spec fn spec_new(nbprgislots: usize) -> PRGIChunkView {
        PRGIChunkView {
            read_n: nbprgislots,
            header: ChunkHeader::spec_default(),
            data: PointerTableView { read_n: nbprgislots, chunk_len: 0, objects: Seq::empty() },
        }
    }

    pub fn new(nbprgislots: usize) -> (r: PRGIChunk)
        ensures
            r@ == PRGIChunk::spec_new(nbprgislots),
    {
        let r = PRGIChunk { _read_n: nbprgislots, header: ChunkHeader::default(), data: PointerTable::new(nbprgislots, 0) };
        assert(r.data@.objects =~= Seq::<ProgramInfoView>::empty());
        r
    }

    pub fn set_read_params(&mut self, nbprgislots: usize)
        ensures
            final(self)._read_n == nbprgislots,
            final(self).header == old(self).header,
            final(self)@.data == old(self)@.data,
    {
        self._read_n = nbprgislots;
    }

    /// The bytes of the chunk: its header, then the pointer table.
    pub open spec fn spec_write<P: Pointer>(&self) -> Result<Seq<u8>, DSEError> {
        match spec_ptable_write::<ProgramInfo, P>(self.data.objects@) {
            Err(e) => Err(spec_map_placeholder(e, DSEBlockType::SwdlPrgi)),
            Ok(b) => Ok(self.header.spec_encode() + b),
        }
    }

    pub fn write_to_file<P: Pointer>(&self, writer: &mut Vec<u8>) -> (res: Result<usize, DSEError>)
        requires
            spec_slots_distinct(self.data.objects@),
        ensures
            match self.spec_write::<P>() {
                Ok(b) => res == Ok::<usize, DSEError>(b.len() as usize) && final(writer)@ == old(writer)@ + b,
                Err(e) => res == Err::<usize, DSEError>(e),
            },
    {
        proof { lemma_writable_16bit::<ProgramInfo, P>(self.data.objects@); }
        let start = writer.len();
        self.header.write_to_file(writer)?;
        match self.data.write_to_file::<P>(writer) {
            Ok(_) => {},
            Err(e) => return Err(map_placeholder(e, DSEBlockType::SwdlPrgi)),
        }
        proof {
            vstd::seq_lib::lemma_concat_associative(old(writer)@, self.header.spec_encode(), spec_ptable_write::<ProgramInfo, P>(self.data.objects@).unwrap());
        }
        Ok(writer.len() - start)
    }

    /// What reading the chunk makes of a chunk whose model is `v`.
    pub open spec fn spec_read<P: Pointer>(v: PRGIChunkView, data: Seq<u8>, pos: int) -> Result<(PRGIChunkView, int), DSEError> {
        match spec_record_read::<ChunkHeader>(data, pos) {
            Err(e) => Err(e),
            Ok((h, p1)) => match spec_ptable_read::<ProgramInfo, P>(data, p1, v.read_n as nat) {
                Err(e) => Err(e),
                Ok(items) => Ok((
                    PRGIChunkView {
                        read_n: v.read_n,
                        header: h,
                        data: PointerTableView { read_n: v.read_n, chunk_len: h.chunklen, objects: v.data.objects + items },
                    },
                    spec_sat_add(p1, h.chunklen as int),
                )),
            },
        }
    }

    pub fn read_from_file<P: Pointer>(&mut self, reader: &mut DataReader) -> (res: Result<(), DSEError>)
        ensures
            final(reader).data@ == old(reader).data@,
            match Self::spec_read::<P>(old(self)@, old(reader).data@, old(reader).pos as int) {
                Ok((v, p)) => res is Ok && final(self)@ == v && final(reader).pos == p,
                Err(e) => res == Err::<(), DSEError>(e),
            },
    {
        self.header.read_from_file(reader)?;
        self.data.set_read_params(self._read_n, self.header.chunklen);
        self.data.read_from_file::<P>(reader)?;
        Ok(())
    }
}

/// The model of the keygroup chunk.
pub struct KGRPChunkView {
    pub header: ChunkHeader,
    pub data: TableView<Keygroup>,
    pub _padding: Option<_KeygroupsSampleDataDelimiter>,
}

/// The keygroup chunk: a header, the keygroups, and 8 bytes of padding after
/// an odd number of keygroups.
#[derive(Debug, Clone)]
pub struct KGRPChunk {
    pub header: ChunkHeader,
    pub data: Table<Keygroup>,
    pub _padding: Option<_KeygroupsSampleDataDelimiter>,
}

impl View for KGRPChunk {
    type V = KGRPChunkView;

    open spec fn view(&self) -> KGRPChunkView {
        KGRPChunkView { header: self.header, data: self.data@, _padding: self._padding }
    }
}

impl Default for KGRPChunk {
    fn default() -> (r: Self)
        ensures
            r@ == KGRPChunk::spec_fresh(),
    {
        let r = KGRPChunk { header: ChunkHeader::default(), data: Table::new(0), _padding: None };
        assert(r.data@.objects =~= Seq::<Keygroup>::empty());
        r
    }
}

/// The padding written after an odd number of keygroups.
pub open spec fn spec_kgrp_padding() -> Seq<u8> {
    seq![0x67u8, 0xC0u8, 0x40u8, 0x00u8, 0x88u8, 0x00u8, 0xFFu8, 0x04u8]
}

/// Whether 8 bytes start with the label "pcmd" or "eod ".
pub open spec fn spec_is_next_label(b: Seq<u8>) -> bool {
    b.take(4) == seq![0x70u8, 0x63u8, 0x6Du8, 0x64u8] || b.take(4) == seq![0x65u8, 0x6Fu8, 0x64u8, 0x20u8]
}

impl ReadWrite for KGRPChunk {
    open spec fn spec_write(&self) -> Result<Seq<u8>, DSEError> {
        match self.data.spec_write() {
            Err(e) => Err(e),
            Ok(b) => Ok(self.header.spec_encode() + b + if self.data.objects@.len() % 2 == 1 {
                spec_kgrp_padding()
            } else {
                Seq::empty()
            }),
        }
    }

    /// The header, `chunklen / 8` keygroups, then 8 bytes that are kept as
    /// padding unless they start the next chunk, which is then read next.
    open spec fn spec_read(v: KGRPChunkView, data: Seq<u8>, pos: int) -> Result<(KGRPChunkView, int), DSEError> {
        match spec_record_read::<ChunkHeader>(data, pos) {
            Err(e) => Err(e),
            Ok((h, p1)) => match Table::<Keygroup>::spec_read(TableView { read_n: (h.chunklen / 8) as usize, objects: v.data.objects }, data, p1) {
                Err(e) => Err(e),
                Ok((t, p2)) => match spec_record_read::<_KeygroupsSampleDataDelimiter>(data, p2) {
                    Err(e) => Err(e),
                    Ok((pad, p3)) => if spec_is_next_label(pad.delimiter@) {
                        Ok((KGRPChunkView { header: h, data: t, _padding: None }, p2))
                    } else {
                        Ok((KGRPChunkView { header: h, data: t, _padding: Some(pad) }, p3))
                    },
                },
            },
        }
    }

    open spec fn spec_fresh() -> KGRPChunkView {
        KGRPChunkView { header: ChunkHeader::spec_default(), data: TableView { read_n: 0, objects: Seq::empty() }, _padding: None }
    }

    fn fresh() -> (r: Self) {
        KGRPChunk::default()
    }

    fn write_to_file(&self, writer: &mut Vec<u8>) -> (res: Result<usize, DSEError>) {
        let start = writer.len();
        self.header.write_to_file(writer)?;
        self.data.write_to_file(writer)?;
        let ghost w2 = writer@;
        if self.data.objects.len() % 2 == 1 {
            let pad: [u8; 8] = [0x67, 0xC0, 0x40, 0x00, 0x88, 0x00, 0xFF, 0x04];
            push_bytes(writer, pad.as_slice());
            assert(pad@ =~= spec_kgrp_padding());
        } else {
            assert(writer@ =~= w2 + Seq::<u8>::empty());
        }
        proof {
            let b = self.data.spec_write().unwrap();
            let padding = if self.data.objects@.len() % 2 == 1 { spec_kgrp_padding() } else { Seq::<u8>::empty() };
            assert(writer@ =~= old(writer)@ + (self.header.spec_encode() + b + padding));
        }
        Ok(writer.len() - start)
    }

    fn read_from_file(&mut self, reader: &mut DataReader) -> (res: Result<(), DSEError>) {
        self.header.read_from_file(reader)?;
        self.data.set_read_params((self.header.chunklen / 8) as usize);
        self.data.read_from_file(reader)?;
        let mut pad = _KeygroupsSampleDataDelimiter::default();
        pad.read_from_file(reader)?;
        let d = pad.delimiter;
        if (d[0] == 0x70 && d[1] == 0x63 && d[2] == 0x6D && d[3] == 0x64) || (d[0] == 0x65 && d[1] == 0x6F && d[2] == 0x64 && d[3] == 0x20) {
            assert(spec_is_next_label(d@)) by {
                if d[0] == 0x70 {
                    assert(d@.take(4) =~= seq![0x70u8, 0x63u8, 0x6Du8, 0x64u8]);
                } else {
                    assert(d@.take(4) =~= seq![0x65u8, 0x6Fu8, 0x64u8, 0x20u8]);
                }
            }
            self._padding = None;
            reader.pos = reader.pos - 8;
        } else {
            assert(!spec_is_next_label(d@)) by {
                if d@.take(4) == seq![0x70u8, 0x63u8, 0x6Du8, 0x64u8] {
                    assert(d@.take(4)[0] == d[0]);
                    assert(d@.take(4)[3] == d[3]);
                }
                if d@.take(4) == seq![0x65u8, 0x6Fu8, 0x64u8, 0x20u8] {
                    assert(d@.take(4)[0] == d[0]);
                    assert(d@.take(4)[3] == d[3]);
                }
            }
            self._padding = Some(pad);
        }
        Ok(())
    }
}

/// The model of the sample data chunk.
pub struct PCMDChunkView {
    pub header: ChunkHeader,
    pub data: Seq<u8>,
    pub _padding: Seq<u8>,
}

/// The sample data chunk: a header and the sample bytes, padded with zeros
/// to a multiple of 16 bytes.
#[derive(Debug, Clone)]
pub struct PCMDChunk {
    pub header: ChunkHeader,
    pub data: Vec<u8>,
    pub _padding: Vec<u8>,
}

impl View for PCMDChunk {
    type V = PCMDChunkView;

    open spec fn view(&self) -> PCMDChunkView {
        PCMDChunkView { header: self.header, data: self.data@, _padding: self._padding@ }
    }
}

impl Default for PCMDChunk {
    fn default() -> (r: Self)
        ensures
            r@ == PCMDChunk::spec_fresh(),
    {
        let r = PCMDChunk { header: ChunkHeader::default(), data: Vec::new(), _padding: Vec::new() };
        assert(r.data@ =~= Seq::<u8>::empty());
        assert(r._padding@ =~= Seq::<u8>::empty());
        r
    }
}

/// The label "eod ".
pub open spec fn spec_eod_label() -> Seq<u8> {
    seq![0x65u8, 0x6Fu8, 0x64u8, 0x20u8]
}

/// The first position at or after `p` where the label "eod " starts, if the
/// data has one before the scan runs out of bytes.
pub open spec fn spec_find_eod(data: Seq<u8>, p: int) -> Option<int>
    decreases data.len() - p,
{
    if p < 0 || p + 4 > data.len() {
        None
    } else if data.subrange(p, p + 4) == spec_eod_label() {
        Some(p)
    } else {
        spec_find_eod(data, p + 1)
    }
}

proof fn lemma_find_eod_step(data: Seq<u8>, p: int)
    requires
        0 <= p,
        p + 4 <= data.len(),
        data.subrange(p, p + 4) != spec_eod_label(),
    ensures
        spec_find_eod(data, p) == spec_find_eod(data, p + 1),
{
}

proof fn lemma_round16_pad(len: nat, pad: nat)
    requires
        pad == (if len % 16 == 0 { 0 } else { 16 - len % 16 }),
    ensures
        spec_round16(len) - len == pad,
{
    assert(((len + 15) / 16) * 16 - len == pad) by (nonlinear_arith)
        requires
            pad == (if len % 16 == 0 { 0 } else { 16 - len % 16 }),
    ;
}

impl ReadWrite for PCMDChunk {
    /// The header and the sample bytes, then zeros up to a multiple of 16.
    open spec fn spec_write(&self) -> Result<Seq<u8>, DSEError> {
        let len = 16 + self.data@.len();
        Ok(self.header.spec_encode() + self.data@ + spec_repeat(0, (spec_round16(len) - len) as nat))
    }

    /// The header, `chunklen` sample bytes, then every byte before the label
    /// "eod " as padding.
    open spec fn spec_read(v: PCMDChunkView, data: Seq<u8>, pos: int) -> Result<(PCMDChunkView, int), DSEError> {
        match spec_record_read::<ChunkHeader>(data, pos) {
            Err(e) => Err(e),
            Ok((h, p1)) => if p1 + h.chunklen > data.len() {
                Err(DSEError::UnexpectedEof())
            } else {
                let p2 = p1 + h.chunklen;
                match spec_find_eod(data, p2) {
                    None => Err(DSEError::UnexpectedEof()),
                    Some(q) => Ok((
                        PCMDChunkView { header: h, data: data.subrange(p1, p2), _padding: v._padding + data.subrange(p2, q) },
                        q,
                    )),
                }
            },
        }
    }

    open spec fn spec_fresh() -> PCMDChunkView {
        PCMDChunkView { header: ChunkHeader::spec_default(), data: Seq::empty(), _padding: Seq::empty() }
    }

    fn fresh() -> (r: Self) {
        PCMDChunk::default()
    }

    fn write_to_file(&self, writer: &mut Vec<u8>) -> (res: Result<usize, DSEError>) {
        let start = writer.len();
        proof { self.header.lemma_parse_encode(); }
        self.header.write_to_file(writer)?;
        push_bytes(writer, self.data.as_slice());
        let len = writer.len() - start;
        let rem = len % 16;
        let pad: usize = if rem == 0 { 0 } else { 16 - rem };
        proof { lemma_round16_pad(len as nat, pad as nat); }
        push_repeated(writer, 0, pad);
        proof {
            vstd::seq_lib::lemma_concat_associative(old(writer)@, self.header.spec_encode(), self.data@);
            assert(writer@ =~= old(writer)@ + (self.header.spec_encode() + self.data@ + spec_repeat(0, pad as nat)));
        }
        Ok(writer.len() - start)
    }

    fn read_from_file(&mut self, reader: &mut DataReader) -> (res: Result<(), DSEError>) {
        self.header.read_from_file(reader)?;
        let n = self.header.chunklen as usize;
        let dlen = reader.data.len();
        if reader.pos > dlen || dlen - reader.pos < n {
            return Err(DSEError::UnexpectedEof());
        }
        let p1 = reader.pos;
        let mut bytes: Vec<u8> = Vec::new();
        push_bytes(&mut bytes, &reader.data[p1..p1 + n]);
        self.data = bytes;
        reader.pos = p1 + n;
        let p2 = reader.pos;
        let ghost pad0 = self._padding@;
        let ghost hdr = self.header;
        assert(pad0 == old(self)._padding@);
        loop
            invariant
                reader.data@ == old(reader).data@,
                dlen == reader.data@.len(),
                p1 + n == p2,
                n == hdr.chunklen,
                p2 <= reader.pos <= dlen,
                self.header == hdr,
                spec_record_read::<ChunkHeader>(old(reader).data@, old(reader).pos as int) == Ok::<(ChunkHeader, int), DSEError>((hdr, p1 as int)),
                self.data@ == reader.data@.subrange(p1 as int, p2 as int),
                pad0 == old(self)._padding@,
                self._padding@ == pad0 + reader.data@.subrange(p2 as int, reader.pos as int),
                spec_find_eod(reader.data@, p2 as int) == spec_find_eod(reader.data@, reader.pos as int),
            decreases dlen - reader.pos,
        {
            let q = reader.pos;
            if dlen - q < 4 {
                assert(spec_find_eod(reader.data@, q as int) is None);
                return Err(DSEError::UnexpectedEof());
            }
            let d = reader.data;
            if d[q] == 0x65 && d[q + 1] == 0x6F && d[q + 2] == 0x64 && d[q + 3] == 0x20 {
                assert(d@.subrange(q as int, q + 4) =~= spec_eod_label());
                assert(spec_find_eod(reader.data@, q as int) == Some(q as int));
                return Ok(());
            }
            proof {
                if d@.subrange(q as int, q + 4) == spec_eod_label() {
                    assert(d@.subrange(q as int, q + 4)[0] == d@[q as int]);
                    assert(d@.subrange(q as int, q + 4)[1] == d@[q + 1]);
                    assert(d@.subrange(q as int, q + 4)[2] == d@[q + 2]);
                    assert(d@.subrange(q as int, q + 4)[3] == d@[q + 3]);
                }
                lemma_find_eod_step(d@, q as int);
            }
            self._padding.push(d[q]);
            reader.pos = q + 1;
            assert(self._padding@ =~= pad0 + reader.data@.subrange(p2 as int, reader.pos as int));
        }
    }
}

} // verus!
