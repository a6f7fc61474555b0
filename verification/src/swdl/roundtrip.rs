//! What reading gives back of what writing produced: the entries of a bank,
//! its programs, its chunks, and a whole bank file.
use vstd::prelude::*;
use crate::codec::{array_from_seq, lemma_array_from_seq};
use crate::codec::le_u32;
use crate::dtype::{
    AutoReadWrite, DSEError, IsSelfIndexed, Pointer, PointerTableView, ReadWrite, TableView, lemma_ptable_roundtrip,
    lemma_ptable_same_bytes, lemma_ptable_same_shape, lemma_ptable_write_parts, spec_same_bytes, spec_same_shape, lemma_record_roundtrip, lemma_table_roundtrip, spec_ids_increasing,
    spec_ptable_write, spec_reads_back_as, spec_slots, spec_table_write,
};
use super::bank::{
    spec_kgrp_label, spec_opt_prgi_write, spec_opt_view, spec_opt_write, spec_pcmd_label, spec_prgi_label, spec_set_counts,
    spec_pcmd_markers, spec_labels, spec_kgrp_len,
};
use super::records::{lemma_chunk_header_label, lemma_kgrp_delimiter_parse, lemma_program_delimiter_parse};
use super::{
    ChunkHeader, KGRPChunk, KGRPChunkView, Keygroup, LFOEntry, PCMDChunk, PCMDChunkView, PRGIChunk, PRGIChunkView, ProgramInfoHeader,
    ProgramInfo, ProgramInfoView, SWDL, SWDLView, SampleInfo, SplitEntry, WAVIChunk, WAVIChunkView,
    _KeygroupsSampleDataDelimiter, _ProgramInfoDelimiter, spec_eod_label, spec_find_eod, spec_is_next_label,
    spec_kgrp_padding, spec_repeat, spec_round16,
};

verus! {

// ---------------------------------------------------------------------------
// Pieces of a byte sequence
// ---------------------------------------------------------------------------

/// Where `w` stands at `pos` of `data`, its piece at `off` stands at
/// `pos + off`.
proof fn lemma_piece(data: Seq<u8>, pos: int, w: Seq<u8>, off: int, len: int)
    requires
        0 <= pos,
        pos + w.len() <= data.len(),
        data.subrange(pos, pos + w.len()) == w,
        0 <= off,
        0 <= len,
        off + len <= w.len(),
    ensures
        data.subrange(pos + off, pos + off + len) == w.subrange(off, off + len),
{
    assert forall|k: int| 0 <= k < len implies #[trigger] data.subrange(pos + off, pos + off + len)[k] == w.subrange(off, off + len)[k] by {
        assert(data.subrange(pos, pos + w.len())[off + k] == w[off + k]);
    }
    assert(data.subrange(pos + off, pos + off + len) =~= w.subrange(off, off + len));
}

// ---------------------------------------------------------------------------
// Entries
// ---------------------------------------------------------------------------

/// A sample entry reads back as it was written.
pub proof fn lemma_sample_reads_back(x: SampleInfo)
    ensures
        spec_reads_back_as(x, x),
{
    assert forall|data: Seq<u8>, pos: int|
        #![trigger SampleInfo::spec_read(SampleInfo::spec_fresh(), data, pos)]
        0 <= pos && pos + x.spec_write().unwrap().len() <= data.len() && data.subrange(pos, pos + x.spec_write().unwrap().len())
            == x.spec_write().unwrap() implies SampleInfo::spec_read(SampleInfo::spec_fresh(), data, pos) == Ok::<(SampleInfo, int), DSEError>(
        (x, pos + x.spec_write().unwrap().len()),
    ) by {
        lemma_record_roundtrip(x, data, pos);
    }
}

/// An LFO reads back as it was written.
pub proof fn lemma_lfo_reads_back(x: LFOEntry)
    ensures
        spec_reads_back_as(x, x),
{
    assert forall|data: Seq<u8>, pos: int|
        #![trigger LFOEntry::spec_read(LFOEntry::spec_fresh(), data, pos)]
        0 <= pos && pos + x.spec_write().unwrap().len() <= data.len() && data.subrange(pos, pos + x.spec_write().unwrap().len())
            == x.spec_write().unwrap() implies LFOEntry::spec_read(LFOEntry::spec_fresh(), data, pos) == Ok::<(LFOEntry, int), DSEError>(
        (x, pos + x.spec_write().unwrap().len()),
    ) by {
        lemma_record_roundtrip(x, data, pos);
    }
}

/// A split reads back as it was written.
pub proof fn lemma_split_reads_back(x: SplitEntry)
    ensures
        spec_reads_back_as(x, x),
{
    assert forall|data: Seq<u8>, pos: int|
        #![trigger SplitEntry::spec_read(SplitEntry::spec_fresh(), data, pos)]
        0 <= pos && pos + x.spec_write().unwrap().len() <= data.len() && data.subrange(pos, pos + x.spec_write().unwrap().len())
            == x.spec_write().unwrap() implies SplitEntry::spec_read(SplitEntry::spec_fresh(), data, pos) == Ok::<(SplitEntry, int), DSEError>(
        (x, pos + x.spec_write().unwrap().len()),
    ) by {
        lemma_record_roundtrip(x, data, pos);
    }
}

/// A keygroup reads back as it was written.
pub proof fn lemma_keygroup_reads_back(x: Keygroup)
    ensures
        spec_reads_back_as(x, x),
{
    assert forall|data: Seq<u8>, pos: int|
        #![trigger Keygroup::spec_read(Keygroup::spec_fresh(), data, pos)]
        0 <= pos && pos + x.spec_write().unwrap().len() <= data.len() && data.subrange(pos, pos + x.spec_write().unwrap().len())
            == x.spec_write().unwrap() implies Keygroup::spec_read(Keygroup::spec_fresh(), data, pos) == Ok::<(Keygroup, int), DSEError>(
        (x, pos + x.spec_write().unwrap().len()),
    ) by {
        lemma_record_roundtrip(x, data, pos);
    }
}

// ---------------------------------------------------------------------------
// Programs
// ---------------------------------------------------------------------------

/// Whether a program's header counts its LFOs and its splits.
pub open spec fn spec_program_ok(p: ProgramInfoView) -> bool {
    &&& p.header.nblfos == p.lfo_table.objects.len()
    &&& p.header.nbsplits == p.splits_table.objects.len()
}

/// What reading back a written program gives: the same header, LFOs and
/// splits, the tables set to read as many entries as the header counts, and
/// the delimiter that was written: 16 copies of the header's pad byte.
pub open spec fn spec_program_read_back(p: ProgramInfoView) -> ProgramInfoView {
    ProgramInfoView {
        header: p.header,
        lfo_table: TableView { read_n: p.header.nblfos as usize, objects: p.lfo_table.objects },
        _delimiter: _ProgramInfoDelimiter { delimiter: array_from_seq::<16>(spec_repeat(p.header.PadByte, 16)) },
        splits_table: TableView { read_n: p.header.nbsplits as usize, objects: p.splits_table.objects },
    }
}

/// Reading a written program whose header counts its LFOs and its splits,
/// wherever its bytes stand, gives what `spec_program_read_back` says.
proof fn lemma_program_roundtrip(p: ProgramInfo, data: Seq<u8>, pos: int)
    requires
        spec_program_ok(p@),
        p.spec_write() is Ok,
        0 <= pos,
        pos + p.spec_write().unwrap().len() <= data.len(),
        data.subrange(pos, pos + p.spec_write().unwrap().len()) == p.spec_write().unwrap(),
    ensures
        ProgramInfo::spec_read(ProgramInfo::spec_fresh(), data, pos) == Ok::<(ProgramInfoView, int), DSEError>(
            (spec_program_read_back(p@), pos + p.spec_write().unwrap().len()),
        ),
{
    let w = p.spec_write().unwrap();
    let hb = p.header.spec_encode();
    let lo = p.lfo_table.objects@;
    let so = p.splits_table.objects@;
    let l = spec_table_write(lo).unwrap();
    let d = spec_repeat(p.header.PadByte, 16);
    let sp = spec_table_write(so).unwrap();
    p.header.lemma_parse_encode();
    assert(w == hb + l + d + sp);
    let ll = l.len() as int;
    let sl = sp.len() as int;
    lemma_piece(data, pos, w, 0, 16);
    assert(w.subrange(0, 16) =~= hb);
    lemma_record_roundtrip(p.header, data, pos);
    lemma_piece(data, pos, w, 16, ll);
    assert(w.subrange(16, 16 + ll) =~= l);
    lemma_piece(data, pos, w, 16 + ll, 16);
    assert(w.subrange(16 + ll, 32 + ll) =~= d);
    lemma_piece(data, pos, w, 32 + ll, sl);
    assert(w.subrange(32 + ll, 32 + ll + sl) =~= sp);
    let fl = |x: LFOEntry| x;
    let fs = |x: SplitEntry| x;
    assert forall|i: int| 0 <= i < lo.len() implies spec_reads_back_as(#[trigger] lo[i], fl(lo[i])) by {
        lemma_lfo_reads_back(lo[i]);
    }
    assert forall|i: int| 0 <= i < so.len() implies spec_reads_back_as(#[trigger] so[i], fs(so[i])) by {
        lemma_split_reads_back(so[i]);
    }
    lemma_table_roundtrip(lo, fl, data, pos + 16, lo.len());
    lemma_table_roundtrip(so, fs, data, pos + 32 + ll, so.len());
    assert(lo.take(lo.len() as int) =~= lo);
    assert(so.take(so.len() as int) =~= so);
    assert(Seq::<LFOEntry>::empty() + lo.map_values(fl) =~= p@.lfo_table.objects);
    assert(Seq::<SplitEntry>::empty() + so.map_values(fs) =~= p@.splits_table.objects);
    lemma_program_delimiter_parse(d);
    assert(data.subrange(pos + 16 + ll, pos + 16 + ll + 16) == d);
}

/// A written program whose header counts its LFOs and its splits reads back
/// as `spec_program_read_back` says.
pub proof fn lemma_program_reads_back(p: ProgramInfo)
    requires
        spec_program_ok(p@),
        p.spec_write() is Ok,
    ensures
        spec_reads_back_as(p, spec_program_read_back(p@)),
{
    assert forall|data: Seq<u8>, pos: int|
        #![trigger ProgramInfo::spec_read(ProgramInfo::spec_fresh(), data, pos)]
        0 <= pos && pos + p.spec_write().unwrap().len() <= data.len() && data.subrange(pos, pos + p.spec_write().unwrap().len())
            == p.spec_write().unwrap() implies ProgramInfo::spec_read(ProgramInfo::spec_fresh(), data, pos)
        == Ok::<(ProgramInfoView, int), DSEError>((spec_program_read_back(p@), pos + p.spec_write().unwrap().len())) by {
        lemma_program_roundtrip(p, data, pos);
    }
}

// ---------------------------------------------------------------------------
// The keygroup chunk
// ---------------------------------------------------------------------------

/// Whether the 8 bytes at `p` exist and start with the label "pcmd" or "eod ".
pub open spec fn spec_next_label_at(data: Seq<u8>, p: int) -> bool {
    &&& 0 <= p
    &&& p + 8 <= data.len()
    &&& (data.subrange(p, p + 4) == seq![0x70u8, 0x63u8, 0x6Du8, 0x64u8] || data.subrange(p, p + 4) == spec_eod_label())
}

/// What reading back a written keygroup chunk gives: the same header and
/// keygroups, the table set to read as many keygroups as the header's length
/// holds, and the padding that was written after an odd number of them.
pub open spec fn spec_kgrp_read_back(k: KGRPChunkView) -> KGRPChunkView {
    KGRPChunkView {
        header: k.header,
        data: TableView { read_n: (k.header.chunklen / 8) as usize, objects: k.data.objects },
        _padding: if k.data.objects.len() % 2 == 1 {
            Some(_KeygroupsSampleDataDelimiter { delimiter: array_from_seq::<8>(spec_kgrp_padding()) })
        } else {
            None
        },
    }
}

/// Reading a written keygroup chunk whose header's length is that of its
/// keygroups, followed by the label of the sample data chunk or of the
/// closing chunk, gives what `spec_kgrp_read_back` says and moves past it.
pub proof fn lemma_kgrp_roundtrip(k: KGRPChunk, data: Seq<u8>, pos: int)
    requires
        k.spec_write() is Ok,
        k.header.chunklen == spec_table_write(k.data.objects@).unwrap().len(),
        0 <= pos,
        pos + k.spec_write().unwrap().len() <= data.len(),
        data.subrange(pos, pos + k.spec_write().unwrap().len()) == k.spec_write().unwrap(),
        spec_next_label_at(data, pos + k.spec_write().unwrap().len()),
    ensures
        KGRPChunk::spec_read(KGRPChunk::spec_fresh(), data, pos) == Ok::<(KGRPChunkView, int), DSEError>(
            (spec_kgrp_read_back(k@), pos + k.spec_write().unwrap().len()),
        ),
{
    let w = k.spec_write().unwrap();
    let objs = k.data.objects@;
    let n = objs.len();
    let b = spec_table_write(objs).unwrap();
    let bl = b.len() as int;
    let hb = k.header.spec_encode();
    k.header.lemma_parse_encode();
    let pad = if n % 2 == 1 { spec_kgrp_padding() } else { Seq::<u8>::empty() };
    assert(w == hb + b + pad);
    lemma_piece(data, pos, w, 0, 16);
    assert(w.subrange(0, 16) =~= hb);
    lemma_record_roundtrip(k.header, data, pos);
    lemma_piece(data, pos, w, 16, bl);
    assert(w.subrange(16, 16 + bl) =~= b);
    let f = |x: Keygroup| x;
    assert forall|i: int| 0 <= i < objs.len() implies spec_reads_back_as(#[trigger] objs[i], f(objs[i])) by {
        lemma_keygroup_reads_back(objs[i]);
    }
    assert(b.len() == 8 * n) by {
        lemma_keygroups_len(objs);
    }
    lemma_table_roundtrip(objs, f, data, pos + 16, n);
    assert(objs.take(n as int) =~= objs);
    assert(Seq::<Keygroup>::empty() + objs.map_values(f) =~= k@.data.objects);
    let p2 = pos + 16 + bl;
    let d = data.subrange(p2, p2 + 8);
    lemma_kgrp_delimiter_parse(d);
    lemma_array_from_seq::<8>(d);
    if n % 2 == 1 {
        lemma_piece(data, pos, w, 16 + bl, 8);
        assert(w.subrange(16 + bl, 24 + bl) =~= pad);
        assert(d == spec_kgrp_padding());
        assert(d.take(4)[0] == 0x67);
        assert(!spec_is_next_label(d)) by {
            assert(seq![0x70u8, 0x63u8, 0x6Du8, 0x64u8][0] == 0x70);
            assert(spec_eod_label()[0] == 0x65);
        }
    } else {
        assert(pad.len() == 0);
        assert(d.take(4) =~= data.subrange(p2, p2 + 4));
        assert(spec_is_next_label(d));
    }
}

/// The bytes of keygroups take 8 bytes each.
proof fn lemma_keygroups_len(objs: Seq<Keygroup>)
    requires
        spec_table_write(objs) is Ok,
    ensures
        spec_table_write(objs).unwrap().len() == 8 * objs.len(),
    decreases objs.len(),
{
    if objs.len() > 0 {
        lemma_keygroups_len(objs.drop_last());
        objs.last().lemma_parse_encode();
    }
}

// ---------------------------------------------------------------------------
// The sample data chunk
// ---------------------------------------------------------------------------

/// Scanning zero bytes up to the label "eod " finds it where it starts.
proof fn lemma_find_eod_after_zeros(data: Seq<u8>, p: int, q: int)
    requires
        0 <= p <= q,
        q + 4 <= data.len(),
        forall|i: int| p <= i < q ==> data[i] == 0,
        data.subrange(q, q + 4) == spec_eod_label(),
    ensures
        spec_find_eod(data, p) == Some(q),
    decreases q - p,
{
    if p < q {
        assert(data.subrange(p, p + 4)[0] == 0);
        assert(data.subrange(p, p + 4) != spec_eod_label()) by {
            assert(spec_eod_label()[0] == 0x65);
        }
        lemma_find_eod_after_zeros(data, p + 1, q);
    }
}

/// What reading back a written sample data chunk gives: the same header and
/// samples, and the zero bytes that were written after them.
pub open spec fn spec_pcmd_read_back(c: PCMDChunkView) -> PCMDChunkView {
    PCMDChunkView {
        header: c.header,
        data: c.data,
        _padding: spec_repeat(0, (spec_round16(16 + c.data.len()) - (16 + c.data.len())) as nat),
    }
}

/// Reading a written sample data chunk whose header's length is that of its
/// samples, followed by the label "eod ", gives what `spec_pcmd_read_back`
/// says and moves past it.
pub proof fn lemma_pcmd_roundtrip(c: PCMDChunk, data: Seq<u8>, pos: int)
    requires
        c.header.chunklen == c.data@.len(),
        0 <= pos,
        pos + c.spec_write().unwrap().len() + 4 <= data.len(),
        data.subrange(pos, pos + c.spec_write().unwrap().len()) == c.spec_write().unwrap(),
        data.subrange(pos + c.spec_write().unwrap().len(), pos + c.spec_write().unwrap().len() + 4) == spec_eod_label(),
    ensures
        PCMDChunk::spec_read(PCMDChunk::spec_fresh(), data, pos) == Ok::<(PCMDChunkView, int), DSEError>(
            (spec_pcmd_read_back(c@), pos + c.spec_write().unwrap().len()),
        ),
{
    let w = c.spec_write().unwrap();
    let hb = c.header.spec_encode();
    let d = c.data@;
    let dl = d.len() as int;
    let k = (spec_round16(16 + d.len()) - (16 + d.len())) as nat;
    let z = spec_repeat(0, k);
    c.header.lemma_parse_encode();
    assert(spec_round16(16 + d.len()) >= 16 + d.len());
    assert(w == hb + d + z);
    lemma_piece(data, pos, w, 0, 16);
    assert(w.subrange(0, 16) =~= hb);
    lemma_record_roundtrip(c.header, data, pos);
    lemma_piece(data, pos, w, 16, dl);
    assert(w.subrange(16, 16 + dl) =~= d);
    lemma_piece(data, pos, w, 16 + dl, k as int);
    assert(w.subrange(16 + dl, 16 + dl + k) =~= z);
    let p2 = pos + 16 + dl;
    let end = p2 + k;
    assert forall|i: int| p2 <= i < end implies data[i] == 0 by {
        assert(data.subrange(p2, end)[i - p2] == z[i - p2]);
    }
    lemma_find_eod_after_zeros(data, p2, end);
    assert(Seq::<u8>::empty() + data.subrange(p2, end) =~= z);
}

// ---------------------------------------------------------------------------
// The sample and program tables
// ---------------------------------------------------------------------------

/// Reading a written sample table chunk whose entries have increasing ids and
/// whose header's length is that of its pointer table, with as many slots as
/// the table has, gives the same header and entries and moves past it.
pub proof fn lemma_wavi_roundtrip<P: Pointer>(c: WAVIChunk, read_n: usize, data: Seq<u8>, pos: int)
    requires
        spec_ids_increasing(c.data.objects@),
        c.spec_write::<P>() is Ok,
        c.header.chunklen == spec_ptable_write::<SampleInfo, P>(c.data.objects@).unwrap().len(),
        read_n == spec_slots(c.data.objects@),
        0 <= pos,
        pos + c.spec_write::<P>().unwrap().len() <= data.len(),
        pos + c.spec_write::<P>().unwrap().len() <= usize::MAX,
        data.subrange(pos, pos + c.spec_write::<P>().unwrap().len()) == c.spec_write::<P>().unwrap(),
    ensures
        WAVIChunk::spec_read::<P>(WAVIChunkView { read_n, ..WAVIChunk::spec_new(0) }, data, pos) == Ok::<(WAVIChunkView, int), DSEError>(
            (
                WAVIChunkView {
                    read_n,
                    header: c.header,
                    data: PointerTableView { read_n, chunk_len: c.header.chunklen, objects: c@.data.objects },
                },
                pos + c.spec_write::<P>().unwrap().len(),
            ),
        ),
{
    let objs = c.data.objects@;
    let w = c.spec_write::<P>().unwrap();
    let t = spec_ptable_write::<SampleInfo, P>(objs).unwrap();
    let tl = t.len() as int;
    c.header.lemma_parse_encode();
    assert(w == c.header.spec_encode() + t);
    lemma_piece(data, pos, w, 0, 16);
    assert(w.subrange(0, 16) =~= c.header.spec_encode());
    lemma_record_roundtrip(c.header, data, pos);
    lemma_piece(data, pos, w, 16, tl);
    assert(w.subrange(16, 16 + tl) =~= t);
    let f = |x: SampleInfo| x;
    assert forall|i: int| 0 <= i < objs.len() implies spec_reads_back_as(#[trigger] objs[i], f(objs[i])) by {
        lemma_sample_reads_back(objs[i]);
    }
    lemma_ptable_roundtrip::<SampleInfo, P>(objs, f, data, pos + 16);
    assert(Seq::<SampleInfo>::empty() + objs.map_values(f) =~= c@.data.objects);
}

/// Whether a program table's programs each count their LFOs and splits.
pub open spec fn spec_programs_ok(objs: Seq<ProgramInfoView>) -> bool {
    forall|i: int| 0 <= i < objs.len() ==> spec_program_ok(#[trigger] objs[i])
}

/// Reading a written program table chunk whose programs have increasing ids
/// and count their LFOs and splits, and whose header's length is that of
/// its pointer table, with as many slots as the table has, gives the same
/// header and the programs as `spec_program_read_back` says.
pub proof fn lemma_prgi_roundtrip<P: Pointer>(c: PRGIChunk, read_n: usize, data: Seq<u8>, pos: int)
    requires
        spec_ids_increasing(c.data.objects@),
        spec_programs_ok(c@.data.objects),
        c.spec_write::<P>() is Ok,
        c.header.chunklen == spec_ptable_write::<ProgramInfo, P>(c.data.objects@).unwrap().len(),
        read_n == spec_slots(c.data.objects@),
        0 <= pos,
        pos + c.spec_write::<P>().unwrap().len() <= data.len(),
        pos + c.spec_write::<P>().unwrap().len() <= usize::MAX,
        data.subrange(pos, pos + c.spec_write::<P>().unwrap().len()) == c.spec_write::<P>().unwrap(),
    ensures
        PRGIChunk::spec_read::<P>(PRGIChunk::spec_new(read_n), data, pos) == Ok::<(PRGIChunkView, int), DSEError>(
            (
                PRGIChunkView {
                    read_n,
                    header: c.header,
                    data: PointerTableView {
                        read_n,
                        chunk_len: c.header.chunklen,
                        objects: c@.data.objects.map_values(|p: ProgramInfoView| spec_program_read_back(p)),
                    },
                },
                pos + c.spec_write::<P>().unwrap().len(),
            ),
        ),
{
    let objs = c.data.objects@;
    let w = c.spec_write::<P>().unwrap();
    let t = spec_ptable_write::<ProgramInfo, P>(objs).unwrap();
    let tl = t.len() as int;
    c.header.lemma_parse_encode();
    assert(w == c.header.spec_encode() + t);
    lemma_piece(data, pos, w, 0, 16);
    assert(w.subrange(0, 16) =~= c.header.spec_encode());
    lemma_record_roundtrip(c.header, data, pos);
    lemma_piece(data, pos, w, 16, tl);
    assert(w.subrange(16, 16 + tl) =~= t);
    let f = |x: ProgramInfo| spec_program_read_back(x@);
    assert forall|i: int| 0 <= i < objs.len() implies spec_reads_back_as(#[trigger] objs[i], f(objs[i])) by {
        lemma_ptable_write_parts::<ProgramInfo, P>(objs, i);
        assert(c@.data.objects[i] == objs[i]@);
        lemma_program_reads_back(objs[i]);
    }
    lemma_ptable_roundtrip::<ProgramInfo, P>(objs, f, data, pos + 16);
    assert(Seq::<ProgramInfoView>::empty() + objs.map_values(f)
        =~= c@.data.objects.map_values(|p: ProgramInfoView| spec_program_read_back(p)));
}

// ---------------------------------------------------------------------------
// The file
// ---------------------------------------------------------------------------

/// Whether a bank file is read back as it was written: the sample and
/// program entries have increasing ids and the header counts their slots;
/// each program counts its LFOs and splits; each chunk header's length is
/// that of what follows it; and the program, keygroup and sample data chunks
/// start with their labels "prgi", "kgrp" and "pcmd".
pub open spec fn spec_swdl_ok<PW: Pointer, PP: Pointer>(s: SWDL) -> bool {
    &&& spec_ids_increasing(s.wavi.data.objects@)
    &&& s.header.nbwavislots == spec_slots(s.wavi.data.objects@)
    &&& s.wavi.header.chunklen == spec_ptable_write::<SampleInfo, PW>(s.wavi.data.objects@).unwrap().len()
    &&& (s.prgi matches Some(p) ==> {
        &&& spec_ids_increasing(p.data.objects@)
        &&& spec_programs_ok(p@.data.objects)
        &&& s.header.nbprgislots == spec_slots(p.data.objects@)
        &&& p.header.chunklen == spec_ptable_write::<ProgramInfo, PP>(p.data.objects@).unwrap().len()
        &&& p.header.label == 0x69677270
    })
    &&& (s.kgrp matches Some(k) ==> k.header.chunklen == spec_table_write(k.data.objects@).unwrap().len() && k.header.label
        == 0x7072676B)
    &&& (s.pcmd matches Some(c) ==> c.header.chunklen == c.data@.len() && c.header.label == 0x646D6370)
}

/// What reading back a written bank file gives: the same header; the sample
/// entries; the programs as `spec_program_read_back` says; the keygroup and
/// sample data chunks as `spec_kgrp_read_back` and `spec_pcmd_read_back`
/// say; the tables set to read as many slots as the header counts; and the
/// closing chunk's header that was written.
pub open spec fn spec_swdl_read_back(s: SWDLView) -> SWDLView {
    SWDLView {
        header: s.header,
        wavi: WAVIChunkView {
            read_n: s.header.nbwavislots as usize,
            header: s.wavi.header,
            data: PointerTableView {
                read_n: s.header.nbwavislots as usize,
                chunk_len: s.wavi.header.chunklen,
                objects: s.wavi.data.objects,
            },
        },
        prgi: match s.prgi {
            Some(p) => Some(
                PRGIChunkView {
                    read_n: s.header.nbprgislots as usize,
                    header: p.header,
                    data: PointerTableView {
                        read_n: s.header.nbprgislots as usize,
                        chunk_len: p.header.chunklen,
                        objects: p.data.objects.map_values(|q: ProgramInfoView| spec_program_read_back(q)),
                    },
                },
            ),
            None => None,
        },
        kgrp: match s.kgrp {
            Some(k) => Some(spec_kgrp_read_back(k)),
            None => None,
        },
        pcmd: match s.pcmd {
            Some(c) => Some(spec_pcmd_read_back(c)),
            None => None,
        },
        _eod: SWDL::spec_eod_header(),
    }
}

/// Where a chunk header stands, its label's bytes start it.
proof fn lemma_label_at(data: Seq<u8>, p: int, h: ChunkHeader)
    requires
        0 <= p,
        p + 16 <= data.len(),
        data.subrange(p, p + 16) == h.spec_encode(),
    ensures
        data.subrange(p, p + 4) == le_u32(h.label),
{
    lemma_chunk_header_label(h);
    assert(data.subrange(p, p + 4) =~= h.spec_encode().subrange(0, 4)) by {
        assert forall|i: int| 0 <= i < 4 implies #[trigger] data.subrange(p, p + 4)[i] == h.spec_encode().subrange(0, 4)[i] by {
            assert(data.subrange(p, p + 16)[i] == h.spec_encode()[i]);
        }
    }
}

/// The bytes of the labels that chunks start with.
proof fn lemma_label_bytes()
    ensures
        le_u32(0x69677270) == spec_prgi_label(),
        le_u32(0x7072676B) == spec_kgrp_label(),
        le_u32(0x646D6370) == spec_pcmd_label(),
        le_u32(0x20646F65) == spec_eod_label(),
        spec_prgi_label() != spec_kgrp_label(),
        spec_prgi_label() != spec_pcmd_label(),
        spec_prgi_label() != spec_eod_label(),
        spec_kgrp_label() != spec_pcmd_label(),
        spec_kgrp_label() != spec_eod_label(),
        spec_pcmd_label() != spec_eod_label(),
{
    assert(le_u32(0x69677270) =~= spec_prgi_label());
    assert(le_u32(0x7072676B) =~= spec_kgrp_label());
    assert(le_u32(0x646D6370) =~= spec_pcmd_label());
    assert(le_u32(0x20646F65) =~= spec_eod_label());
    assert(spec_prgi_label()[0] != spec_kgrp_label()[0]);
    assert(spec_prgi_label()[1] != spec_pcmd_label()[1]);
    assert(spec_prgi_label()[0] != spec_eod_label()[0]);
    assert(spec_kgrp_label()[0] != spec_pcmd_label()[0]);
    assert(spec_kgrp_label()[0] != spec_eod_label()[0]);
    assert(spec_pcmd_label()[0] != spec_eod_label()[0]);
}

/// Reading the bytes of a written bank file, wherever they stand, gives it
/// back as `spec_swdl_read_back` says; this holds of a file whose read
/// markers are consistent (`spec_swdl_ok`).
#[verifier::rlimit(60)]
#[verifier::spinoff_prover]
pub proof fn lemma_swdl_roundtrip<PW: Pointer, PP: Pointer>(s: SWDL, data: Seq<u8>, pos: int)
    requires
        spec_swdl_ok::<PW, PP>(s),
        s.spec_write::<PW, PP>() is Ok,
        0 <= pos,
        pos + s.spec_write::<PW, PP>().unwrap().len() <= data.len(),
        pos + s.spec_write::<PW, PP>().unwrap().len() <= usize::MAX,
        data.subrange(pos, pos + s.spec_write::<PW, PP>().unwrap().len()) == s.spec_write::<PW, PP>().unwrap(),
    ensures
        SWDL::spec_read::<PW, PP>(SWDL::spec_default(), data, pos) == Ok::<(SWDLView, int), DSEError>(
            (spec_swdl_read_back(s@), pos + s.spec_write::<PW, PP>().unwrap().len()),
        ),
{
    let w = s.spec_write::<PW, PP>().unwrap();
    let hb = s.header.spec_encode();
    let ww = s.wavi.spec_write::<PW>().unwrap();
    let pw = spec_opt_prgi_write::<PP>(s.prgi).unwrap();
    let kw = spec_opt_write(s.kgrp).unwrap();
    let cw = spec_opt_write(s.pcmd).unwrap();
    let eh = SWDL::spec_eod_header();
    let eb = eh.spec_encode();
    s.header.lemma_parse_encode();
    eh.lemma_parse_encode();
    lemma_label_bytes();
    assert(w == hb + ww + pw + kw + cw + eb);
    let o1: int = 80;
    let o2 = o1 + ww.len();
    let o3 = o2 + pw.len();
    let o4 = o3 + kw.len();
    let o5 = o4 + cw.len();
    assert(w.len() == o5 + 16);
    lemma_piece(data, pos, w, 0, 80);
    assert(w.subrange(0, 80) =~= hb);
    lemma_record_roundtrip(s.header, data, pos);
    lemma_piece(data, pos, w, o1, ww.len() as int);
    assert(w.subrange(o1, o2) =~= ww);
    lemma_piece(data, pos, w, o2, pw.len() as int);
    assert(w.subrange(o2, o3) =~= pw);
    lemma_piece(data, pos, w, o3, kw.len() as int);
    assert(w.subrange(o3, o4) =~= kw);
    lemma_piece(data, pos, w, o4, cw.len() as int);
    assert(w.subrange(o4, o5) =~= cw);
    lemma_piece(data, pos, w, o5, 16);
    assert(w.subrange(o5, o5 + 16) =~= eb);
    lemma_record_roundtrip(eh, data, pos + o5);
    lemma_label_at(data, pos + o5, eh);
    // the sample table
    lemma_wavi_roundtrip::<PW>(s.wavi, s.header.nbwavislots as usize, data, pos + o1);
    // what starts each optional chunk
    if let Some(p) = s.prgi {
        p.header.lemma_parse_encode();
        let t = spec_ptable_write::<ProgramInfo, PP>(p.data.objects@).unwrap();
        assert(pw == p.header.spec_encode() + t);
        lemma_piece(data, pos + o2, pw, 0, 16);
        assert(pw.subrange(0, 16) =~= p.header.spec_encode());
        lemma_label_at(data, pos + o2, p.header);
        lemma_prgi_roundtrip::<PP>(p, s.header.nbprgislots as usize, data, pos + o2);
    }
    if let Some(k) = s.kgrp {
        k.header.lemma_parse_encode();
        lemma_piece(data, pos + o3, kw, 0, 16);
        assert(kw.subrange(0, 16) =~= k.header.spec_encode());
        lemma_label_at(data, pos + o3, k.header);
    }
    if let Some(c) = s.pcmd {
        c.header.lemma_parse_encode();
        lemma_piece(data, pos + o4, cw, 0, 16);
        assert(cw.subrange(0, 16) =~= c.header.spec_encode());
        lemma_label_at(data, pos + o4, c.header);
        assert(cw.len() >= 16);
    }
    if let Some(k) = s.kgrp {
        assert(spec_next_label_at(data, pos + o4)) by {
            if s.pcmd is Some {
                assert(data.subrange(pos + o4, pos + o4 + 4) == spec_pcmd_label());
            } else {
                assert(o4 == o5);
            }
        }
        lemma_kgrp_roundtrip(k, data, pos + o3);
    }
    if let Some(c) = s.pcmd {
        lemma_pcmd_roundtrip(c, data, pos + o4);
    }
}

// ---------------------------------------------------------------------------
// After the read markers are regenerated
// ---------------------------------------------------------------------------

/// Setting the counts of programs without error sets each program's split
/// and LFO counts from its tables and changes nothing else.
proof fn lemma_set_counts_ok(objs: Seq<ProgramInfoView>, n: nat)
    requires
        n <= objs.len(),
        spec_set_counts(objs, n).1 is Ok,
    ensures
        spec_set_counts(objs, n).0.len() == objs.len(),
        forall|i: int|
            0 <= i < n ==> #[trigger] spec_set_counts(objs, n).0[i] == (ProgramInfoView {
                header: ProgramInfoHeader {
                    nbsplits: objs[i].splits_table.objects.len() as u16,
                    nblfos: objs[i].lfo_table.objects.len() as u8,
                    ..objs[i].header
                },
                ..objs[i]
            }) && objs[i].splits_table.objects.len() <= 0xFFFF && objs[i].lfo_table.objects.len() <= 0xFF,
        forall|i: int| n <= i < objs.len() ==> #[trigger] spec_set_counts(objs, n).0[i] == objs[i],
    decreases n,
{
    if n > 0 {
        lemma_set_counts_ok(objs, (n - 1) as nat);
    }
}

/// Two programs whose models differ at most in their header's split and LFO
/// counts are written alike, into as many bytes.
proof fn lemma_program_same_bytes(a: ProgramInfo, b: ProgramInfo)
    requires
        a@.lfo_table.objects == b@.lfo_table.objects,
        a@.splits_table.objects == b@.splits_table.objects,
        a.header.PadByte == b.header.PadByte,
    ensures
        a.spec_write() is Ok <==> b.spec_write() is Ok,
        a.spec_write() is Ok ==> a.spec_write().unwrap().len() == b.spec_write().unwrap().len(),
{
    assert(a.lfo_table.objects@.len() == a@.lfo_table.objects.len());
    assert(b.lfo_table.objects@.len() == b@.lfo_table.objects.len());
    assert(a.splits_table.objects@.len() == a@.splits_table.objects.len());
    assert(b.splits_table.objects@.len() == b@.splits_table.objects.len());
    assert(a.lfo_table.objects@ =~= b.lfo_table.objects@) by {
        assert forall|i: int| 0 <= i < a.lfo_table.objects@.len() implies a.lfo_table.objects@[i] == b.lfo_table.objects@[i] by {
            assert(a@.lfo_table.objects[i] == a.lfo_table.objects@[i]);
            assert(b@.lfo_table.objects[i] == b.lfo_table.objects@[i]);
        }
    }
    assert(a.splits_table.objects@ =~= b.splits_table.objects@) by {
        assert forall|i: int| 0 <= i < a.splits_table.objects@.len() implies a.splits_table.objects@[i] == b.splits_table.objects@[i] by {
            assert(a@.splits_table.objects[i] == a.splits_table.objects@[i]);
            assert(b@.splits_table.objects[i] == b.splits_table.objects@[i]);
        }
    }
    a.header.lemma_parse_encode();
    b.header.lemma_parse_encode();
}

/// Entries whose models are the entries of another sequence are those entries.
proof fn lemma_identity_views<T: View<V = T>>(a: Seq<T>, b: Seq<T>)
    requires
        a.map_values(|t: T| t@) == b.map_values(|t: T| t@),
        forall|t: T| #[trigger] t@ == t,
    ensures
        a == b,
{
    assert(a.len() == b.map_values(|t: T| t@).len());
    assert forall|i: int| 0 <= i < a.len() implies a[i] == b[i] by {
        assert(a.map_values(|t: T| t@)[i] == a[i]@);
        assert(b.map_values(|t: T| t@)[i] == b[i]@);
    }
    assert(a =~= b);
}

/// The bank's pieces after regeneration: the sample entries and sample data
/// are those of `s`, and the header, chunk headers and keygroups are those
/// that `spec_regenerate_read_markers` gives.
proof fn lemma_regen_pieces<PW: Pointer, PP: Pointer>(s: SWDL, s2: SWDL)
    requires
        SWDL::spec_regenerate_read_markers::<PW, PP>(s).1 is Ok,
        s2@ == SWDL::spec_regenerate_read_markers::<PW, PP>(s).0,
    ensures
        s.spec_write::<PW, PP>() is Ok,
        s.spec_write::<PW, PP>().unwrap().len() <= 0xFFFF_FFFF,
        s2.wavi.data.objects@ == s.wavi.data.objects@,
        s2.header.nbwavislots == spec_slots(s.wavi.data.objects@),
        s2.wavi.header.chunklen == spec_ptable_write::<SampleInfo, PW>(s.wavi.data.objects@).unwrap().len(),
        s2.prgi is Some <==> s.prgi is Some,
        s2.kgrp is Some <==> s.kgrp is Some,
        s2.pcmd is Some <==> s.pcmd is Some,
        s2.kgrp matches Some(k2) ==> k2.data.objects@ == s.kgrp.unwrap().data.objects@ && k2.header.label == 0x7072676B
            && k2.header.chunklen == spec_table_write(s.kgrp.unwrap().data.objects@).unwrap().len(),
        s2.pcmd matches Some(c2) ==> c2.data@ == s.pcmd.unwrap().data@ && c2.header.label == 0x646D6370 && c2.header.chunklen
            == c2.data@.len(),
{
    let v = s@;
    let r = SWDL::spec_regenerate_read_markers::<PW, PP>(s).0;
    let b = s.spec_write::<PW, PP>().unwrap();
    let ww = s.wavi.spec_write::<PW>().unwrap();
    let wt = spec_ptable_write::<SampleInfo, PW>(s.wavi.data.objects@).unwrap();
    s.wavi.header.lemma_parse_encode();
    assert(ww == s.wavi.header.spec_encode() + wt);
    assert(b.len() >= ww.len());
    assert forall|t: SampleInfo| #[trigger] t@ == t by {}
    lemma_identity_views(s2.wavi.data.objects@, s.wavi.data.objects@);
    if let Some(k) = s.kgrp {
        let k2 = s2.kgrp.unwrap();
        assert(spec_opt_view(s2.kgrp) == r.kgrp);
        assert forall|t: Keygroup| #[trigger] t@ == t by {}
        assert(k2.data@.objects == k.data@.objects);
        lemma_identity_views(k2.data.objects@, k.data.objects@);
    }
    if let Some(c) = s.pcmd {
        let c2 = s2.pcmd.unwrap();
        assert(spec_opt_view(s2.pcmd) == r.pcmd);
        c.header.lemma_parse_encode();
        assert(spec_opt_write(s.pcmd).unwrap().len() >= c.data@.len());
        assert(b.len() >= spec_opt_write(s.pcmd).unwrap().len());
    }
}

/// The program table after regeneration: its programs are those of `s`
/// with their counts set, so they carry the same ids and are written alike.
proof fn lemma_regen_prgi<PW: Pointer, PP: Pointer>(s: SWDL, s2: SWDL)
    requires
        SWDL::spec_regenerate_read_markers::<PW, PP>(s).1 is Ok,
        s2@ == SWDL::spec_regenerate_read_markers::<PW, PP>(s).0,
        s.prgi is Some,
        s2.prgi is Some,
    ensures
        spec_same_shape(s.prgi.unwrap().data.objects@, s2.prgi.unwrap().data.objects@),
        spec_programs_ok(s2.prgi.unwrap()@.data.objects),
        s2.header.nbprgislots == spec_slots(s.prgi.unwrap().data.objects@),
        s2.prgi.unwrap().header.label == 0x69677270,
        s2.prgi.unwrap().header.chunklen == spec_ptable_write::<ProgramInfo, PP>(s.prgi.unwrap().data.objects@).unwrap().len(),
{
    let p = s.prgi.unwrap();
    let p2 = s2.prgi.unwrap();
    let r = SWDL::spec_regenerate_read_markers::<PW, PP>(s).0;
    let b = s.spec_write::<PW, PP>().unwrap();
    let a = p.data.objects@;
    let c = p2.data.objects@;
    let views = p@.data.objects;
    let (objs, rr) = spec_set_counts(views, views.len());
    lemma_set_counts_ok(views, views.len());
    assert(spec_opt_view(s2.prgi) == r.prgi);
    assert(p2@.data.objects == objs);
    assert(c.len() == a.len()) by {
        assert(p2@.data.objects.len() == c.len());
    }
    assert forall|i: int| 0 <= i < a.len() implies (#[trigger] a[i].spec_self_index()) == c[i].spec_self_index() && (
    a[i].spec_write() is Ok <==> c[i].spec_write() is Ok) && (a[i].spec_write() is Ok ==> a[i].spec_write().unwrap().len()
        == c[i].spec_write().unwrap().len()) by {
        assert(views[i] == a[i]@);
        assert(objs[i] == c[i]@);
        lemma_program_same_bytes(a[i], c[i]);
    }
    assert forall|i: int| 0 <= i < c.len() implies spec_program_ok(#[trigger] p2@.data.objects[i]) by {
        assert(objs[i] == p2@.data.objects[i]);
    }
    let pt = spec_ptable_write::<ProgramInfo, PP>(a).unwrap();
    p.header.lemma_parse_encode();
    assert(spec_opt_prgi_write::<PP>(s.prgi).unwrap() == p.header.spec_encode() + pt);
    assert(b.len() >= pt.len());
}

/// After its read markers are regenerated without error, a bank whose sample
/// and program entries have increasing ids has consistent read markers, and
/// it is written into as many bytes as before, which fit in 32 bits. `s` is
/// the bank before, `s2` the bank after.
pub proof fn lemma_regenerated_swdl_ok<PW: Pointer, PP: Pointer>(s: SWDL, s2: SWDL)
    requires
        SWDL::spec_regenerate_read_markers::<PW, PP>(s).1 is Ok,
        s2@ == SWDL::spec_regenerate_read_markers::<PW, PP>(s).0,
        spec_ids_increasing(s.wavi.data.objects@),
        s.prgi matches Some(p) ==> spec_ids_increasing(p.data.objects@),
    ensures
        spec_swdl_ok::<PW, PP>(s2),
        s2.spec_write::<PW, PP>() is Ok,
        s2.spec_write::<PW, PP>().unwrap().len() == s.spec_write::<PW, PP>().unwrap().len(),
        s2.spec_write::<PW, PP>().unwrap().len() <= 0xFFFF_FFFF,
{
    lemma_regen_pieces::<PW, PP>(s, s2);
    s.header.lemma_parse_encode();
    s2.header.lemma_parse_encode();
    s.wavi.header.lemma_parse_encode();
    s2.wavi.header.lemma_parse_encode();
    SWDL::spec_eod_header().lemma_parse_encode();
    if let Some(p) = s.prgi {
        let p2 = s2.prgi.unwrap();
        lemma_regen_prgi::<PW, PP>(s, s2);
        lemma_ptable_same_shape::<ProgramInfo, PP>(p.data.objects@, p2.data.objects@);
        assert(spec_ids_increasing(p2.data.objects@)) by {
            let a = p.data.objects@;
            let c = p2.data.objects@;
            assert forall|i: int| 0 <= i < c.len() implies (#[trigger] c[i].spec_self_index()) is Some by {
                assert(a[i].spec_self_index() == c[i].spec_self_index());
            }
            assert forall|i: int, j: int| 0 <= i < j < c.len() implies (#[trigger] c[i].spec_self_index()).unwrap()
                < (#[trigger] c[j].spec_self_index()).unwrap() by {
                assert(a[i].spec_self_index() == c[i].spec_self_index());
                assert(a[j].spec_self_index() == c[j].spec_self_index());
            }
        }
        p.header.lemma_parse_encode();
        p2.header.lemma_parse_encode();
    }
    if let Some(k) = s.kgrp {
        let k2 = s2.kgrp.unwrap();
        k.header.lemma_parse_encode();
        k2.header.lemma_parse_encode();
    }
    if let Some(c) = s.pcmd {
        let c2 = s2.pcmd.unwrap();
        c.header.lemma_parse_encode();
        c2.header.lemma_parse_encode();
    }
}

/// A bank written after its read markers were regenerated without error
/// reads back as `spec_swdl_read_back` says, whatever bytes follow it, when
/// its sample and program entries have increasing ids. `s` is the bank
/// before, `s2` the bank after.
pub proof fn lemma_regenerated_swdl_roundtrip<PW: Pointer, PP: Pointer>(s: SWDL, s2: SWDL, rest: Seq<u8>)
    requires
        SWDL::spec_regenerate_read_markers::<PW, PP>(s).1 is Ok,
        s2@ == SWDL::spec_regenerate_read_markers::<PW, PP>(s).0,
        spec_ids_increasing(s.wavi.data.objects@),
        s.prgi matches Some(p) ==> spec_ids_increasing(p.data.objects@),
    ensures
        s2.spec_write::<PW, PP>() is Ok,
        SWDL::spec_read::<PW, PP>(SWDL::spec_default(), s2.spec_write::<PW, PP>().unwrap() + rest, 0) == Ok::<
            (SWDLView, int),
            DSEError,
        >((spec_swdl_read_back(s2@), s2.spec_write::<PW, PP>().unwrap().len() as int)),
{
    lemma_regenerated_swdl_ok::<PW, PP>(s, s2);
    let w = s2.spec_write::<PW, PP>().unwrap();
    let data = w + rest;
    assert(data.subrange(0, w.len() as int) =~= w);
    lemma_swdl_roundtrip::<PW, PP>(s2, data, 0);
}

// ---------------------------------------------------------------------------
// Written again
// ---------------------------------------------------------------------------

/// Two programs with the same header whose tables hold the same LFOs and
/// splits are written into the same bytes.
proof fn lemma_program_same_write(a: ProgramInfo, b: ProgramInfo)
    requires
        a.header == b.header,
        a@.lfo_table.objects == b@.lfo_table.objects,
        a@.splits_table.objects == b@.splits_table.objects,
    ensures
        a.spec_write() == b.spec_write(),
        a.spec_self_index() == b.spec_self_index(),
{
    assert forall|t: LFOEntry| #[trigger] t@ == t by {}
    assert forall|t: SplitEntry| #[trigger] t@ == t by {}
    lemma_identity_views(a.lfo_table.objects@, b.lfo_table.objects@);
    lemma_identity_views(a.splits_table.objects@, b.splits_table.objects@);
}

/// A bank file written with consistent read markers, once read back, is
/// written again into the same bytes: `s` is the bank written, `t` any bank
/// whose model is what reading the file back gives (`spec_swdl_read_back`).
pub proof fn lemma_swdl_rewrite<PW: Pointer, PP: Pointer>(s: SWDL, t: SWDL)
    requires
        spec_swdl_ok::<PW, PP>(s),
        s.spec_write::<PW, PP>() is Ok,
        t@ == spec_swdl_read_back(s@),
    ensures
        t.spec_write::<PW, PP>() == s.spec_write::<PW, PP>(),
{
    let r = spec_swdl_read_back(s@);
    assert(t.header == s.header);
    assert forall|x: SampleInfo| #[trigger] x@ == x by {}
    assert(t.wavi@ == r.wavi);
    lemma_identity_views(t.wavi.data.objects@, s.wavi.data.objects@);
    assert(t.wavi.spec_write::<PW>() == s.wavi.spec_write::<PW>());
    if let Some(p) = s.prgi {
        let q = t.prgi.unwrap();
        assert(spec_opt_view(t.prgi) == r.prgi);
        let a = p.data.objects@;
        let c = q.data.objects@;
        assert(q@.data.objects == p@.data.objects.map_values(|x: ProgramInfoView| spec_program_read_back(x)));
        assert(c.len() == a.len()) by {
            assert(q@.data.objects.len() == c.len());
            assert(p@.data.objects.len() == a.len());
        }
        assert(spec_same_bytes(c, a)) by {
            assert forall|i: int| 0 <= i < c.len() implies (#[trigger] c[i].spec_self_index()) == a[i].spec_self_index()
                && c[i].spec_write() == a[i].spec_write() by {
                assert(q@.data.objects[i] == c[i]@);
                assert(p@.data.objects[i] == a[i]@);
                lemma_program_same_write(c[i], a[i]);
            }
        }
        lemma_ptable_same_bytes::<ProgramInfo, PP>(c, a);
        assert(spec_opt_prgi_write::<PP>(t.prgi) == spec_opt_prgi_write::<PP>(s.prgi));
    }
    if let Some(k) = s.kgrp {
        let k2 = t.kgrp.unwrap();
        assert(spec_opt_view(t.kgrp) == r.kgrp);
        assert forall|x: Keygroup| #[trigger] x@ == x by {}
        assert(k2@.data.objects == k@.data.objects);
        lemma_identity_views(k2.data.objects@, k.data.objects@);
        assert(spec_opt_write(t.kgrp) == spec_opt_write(s.kgrp));
    }
    if let Some(c) = s.pcmd {
        let c2 = t.pcmd.unwrap();
        assert(spec_opt_view(t.pcmd) == r.pcmd);
        assert(spec_opt_write(t.pcmd) == spec_opt_write(s.pcmd));
    }
}

/// The bytes of a bank file written with consistent read markers are
/// recreated byte for byte: reading them, whatever follows them, and writing
/// what was read gives them again. `t` is any bank whose model is what was
/// read.
pub proof fn lemma_swdl_bytes_recreated<PW: Pointer, PP: Pointer>(s: SWDL, t: SWDL, rest: Seq<u8>)
    requires
        spec_swdl_ok::<PW, PP>(s),
        s.spec_write::<PW, PP>() is Ok,
        s.spec_write::<PW, PP>().unwrap().len() <= usize::MAX,
        SWDL::spec_read::<PW, PP>(SWDL::spec_default(), s.spec_write::<PW, PP>().unwrap() + rest, 0) is Ok,
        t@ == SWDL::spec_read::<PW, PP>(SWDL::spec_default(), s.spec_write::<PW, PP>().unwrap() + rest, 0).unwrap().0,
    ensures
        t.spec_write::<PW, PP>() == s.spec_write::<PW, PP>(),
{
    let w = s.spec_write::<PW, PP>().unwrap();
    let data = w + rest;
    assert(data.subrange(0, w.len() as int) =~= w);
    lemma_swdl_roundtrip::<PW, PP>(s, data, 0);
    lemma_swdl_rewrite::<PW, PP>(s, t);
}


// ---------------------------------------------------------------------------
// Regenerating twice
// ---------------------------------------------------------------------------

/// After its read markers are regenerated without error, a bank is written
/// into as many bytes as before.
proof fn lemma_regenerated_write_len<PW: Pointer, PP: Pointer>(s: SWDL, s2: SWDL)
    requires
        SWDL::spec_regenerate_read_markers::<PW, PP>(s).1 is Ok,
        s2@ == SWDL::spec_regenerate_read_markers::<PW, PP>(s).0,
    ensures
        s.spec_write::<PW, PP>() is Ok,
        s2.spec_write::<PW, PP>() is Ok,
        s2.spec_write::<PW, PP>().unwrap().len() == s.spec_write::<PW, PP>().unwrap().len(),
{
    lemma_regen_pieces::<PW, PP>(s, s2);
    s.header.lemma_parse_encode();
    s2.header.lemma_parse_encode();
    s.wavi.header.lemma_parse_encode();
    s2.wavi.header.lemma_parse_encode();
    SWDL::spec_eod_header().lemma_parse_encode();
    if let Some(p) = s.prgi {
        let p2 = s2.prgi.unwrap();
        lemma_regen_prgi::<PW, PP>(s, s2);
        lemma_ptable_same_shape::<ProgramInfo, PP>(p.data.objects@, p2.data.objects@);
        p.header.lemma_parse_encode();
        p2.header.lemma_parse_encode();
    }
    if let Some(k) = s.kgrp {
        let k2 = s2.kgrp.unwrap();
        k.header.lemma_parse_encode();
        k2.header.lemma_parse_encode();
    }
    if let Some(c) = s.pcmd {
        let c2 = s2.pcmd.unwrap();
        c.header.lemma_parse_encode();
        c2.header.lemma_parse_encode();
    }
}

/// Programs whose headers already count their splits and LFOs (within the
/// counts' sizes) have their counts set without change.
proof fn lemma_set_counts_fixed(objs: Seq<ProgramInfoView>, n: nat)
    requires
        n <= objs.len(),
        forall|i: int| 0 <= i < objs.len() ==> (#[trigger] objs[i]).header.nbsplits == objs[i].splits_table.objects.len()
            && objs[i].header.nblfos == objs[i].lfo_table.objects.len(),
    ensures
        spec_set_counts(objs, n) == (objs, Ok::<(), DSEError>(())),
    decreases n,
{
    if n > 0 {
        lemma_set_counts_fixed(objs, (n - 1) as nat);
        let p = objs[n - 1];
        assert((ProgramInfoView { header: ProgramInfoHeader { nblfos: p.lfo_table.objects.len() as u8, ..ProgramInfoHeader { nbsplits: p.splits_table.objects.len() as u16, ..p.header } }, ..p }) == p);
        assert(objs.update(n - 1, p) =~= objs);
    }
}

/// Regenerating a bank's read markers a second time changes nothing: `s`
/// is the bank before the first time, `s2` after it.
#[verifier::rlimit(60)]
#[verifier::spinoff_prover]
pub proof fn lemma_regenerate_twice<PW: Pointer, PP: Pointer>(s: SWDL, s2: SWDL)
    requires
        SWDL::spec_regenerate_read_markers::<PW, PP>(s).1 is Ok,
        s2@ == SWDL::spec_regenerate_read_markers::<PW, PP>(s).0,
    ensures
        SWDL::spec_regenerate_read_markers::<PW, PP>(s2) == (s2@, Ok::<(), DSEError>(())),
{
    lemma_regenerated_write_len::<PW, PP>(s, s2);
    lemma_regen_pieces::<PW, PP>(s, s2);
    assert(spec_slots(s2.wavi.data.objects@) == spec_slots(s.wavi.data.objects@));
    if let Some(p) = s.prgi {
        let p2 = s2.prgi.unwrap();
        lemma_regen_prgi::<PW, PP>(s, s2);
        lemma_ptable_same_shape::<ProgramInfo, PP>(p.data.objects@, p2.data.objects@);
        assert(spec_programs_ok(p2@.data.objects));
        lemma_set_counts_fixed(p2@.data.objects, p2@.data.objects.len());
    }
    if let Some(k) = s.kgrp {
        let k2 = s2.kgrp.unwrap();
        assert(k2.data.objects@ == k.data.objects@);
    }
}
} // verus!
