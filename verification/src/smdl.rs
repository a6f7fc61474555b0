//! The SMDL sequence format: the header, the song chunk, the track chunks
//! with their events, and the closing chunk.
use vstd::prelude::*;
use crate::codec::{DataReader, push_repeated};
use crate::swdl::{DSEString, spec_dse_bytes, spec_fname_text, spec_repeat};
use vstd::string::string_is_ascii;
use crate::dtype::{
    AutoReadWrite, DSEError, DSEFileType, DSELinkBytes, IsSelfIndexed, ReadWrite, SetSongBuilderFlags,
    SongBuilderFlags, Table, TableView, lemma_table_write_parts, read_record, spec_record_read,
    spec_table_write, no_tracks_error, spec_no_tracks_error,
};

mod records;
pub mod events;
mod names;
pub mod midi;
pub mod sequence;
pub mod smf;
pub mod roundtrip;

pub use self::records::{EOCChunk, SMDLHeader, SongChunk, TrkChunkHeader, TrkChunkPreamble};
use self::events::{FixedDurationPause, Other, PlayNote};
pub use self::names::lemma_name_to_code_of_lookup;

verus! {

// ---------------------------------------------------------------------------
// Events
// ---------------------------------------------------------------------------

/// An event of a track, told apart by its first byte: a note below 0x80, a
/// pause of fixed length below 0x90, any other event from 0x90 on.
#[derive(Debug, Clone, Copy, PartialEq, Eq)]
pub enum DSEEvent {
    PlayNote(PlayNote),
    FixedDurationPause(FixedDurationPause),
    Other(Other),
}

impl View for DSEEvent {
    type V = DSEEvent;

    open spec fn view(&self) -> DSEEvent {
        *self
    }
}

impl DSEEvent {
    pub open spec fn spec_default() -> DSEEvent {
        DSEEvent::Other(Other::spec_default())
    }

    /// Whether the event ends the track.
    pub fn is_eot_event(&self) -> (r: bool)
        ensures
            r == (*self matches DSEEvent::Other(o) && o.code == 0x98),
    {
        match self {
            DSEEvent::Other(other) => other.is_eot_event(),
            _ => false,
        }
    }
}

impl Default for DSEEvent {
    fn default() -> (r: DSEEvent)
        ensures
            r == DSEEvent::spec_default(),
    {
        DSEEvent::Other(Other::default())
    }
}

impl ReadWrite for DSEEvent {
    open spec fn spec_write(&self) -> Result<Seq<u8>, DSEError> {
        match *self {
            DSEEvent::PlayNote(e) => e.spec_write(),
            DSEEvent::FixedDurationPause(e) => e.spec_write(),
            DSEEvent::Other(e) => e.spec_write(),
        }
    }

    /// The event at `pos`, of the kind that its first byte tells.
    open spec fn spec_read(v: DSEEvent, data: Seq<u8>, pos: int) -> Result<(DSEEvent, int), DSEError> {
        if pos < 0 || pos >= data.len() {
            Err(DSEError::UnexpectedEof())
        } else if data[pos] < 0x80 {
            match PlayNote::spec_read(PlayNote::spec_default(), data, pos) {
                Err(e) => Err(e),
                Ok((e, p)) => Ok((DSEEvent::PlayNote(e), p)),
            }
        } else if data[pos] < 0x90 {
            match FixedDurationPause::spec_read(FixedDurationPause { duration: 0 }, data, pos) {
                Err(e) => Err(e),
                Ok((e, p)) => Ok((DSEEvent::FixedDurationPause(e), p)),
            }
        } else {
            match Other::spec_read(Other::spec_default(), data, pos) {
                Err(e) => Err(e),
                Ok((e, p)) => Ok((DSEEvent::Other(e), p)),
            }
        }
    }

    open spec fn spec_fresh() -> DSEEvent {
        DSEEvent::spec_default()
    }

    fn fresh() -> (r: Self) {
        DSEEvent::default()
    }

    fn write_to_file(&self, writer: &mut Vec<u8>) -> (res: Result<usize, DSEError>) {
        match self {
            DSEEvent::PlayNote(event) => event.write_to_file(writer),
            DSEEvent::FixedDurationPause(event) => event.write_to_file(writer),
            DSEEvent::Other(event) => event.write_to_file(writer),
        }
    }

    fn read_from_file(&mut self, reader: &mut DataReader) -> (res: Result<(), DSEError>) {
        let p = reader.pos;
        if p >= reader.data.len() {
            return Err(DSEError::UnexpectedEof());
        }
        let first = reader.data[p];
        if first < 0x80 {
            let mut event = PlayNote::default();
            event.read_from_file(reader)?;
            *self = DSEEvent::PlayNote(event);
        } else if first < 0x90 {
            let mut event = FixedDurationPause::default();
            event.read_from_file(reader)?;
            *self = DSEEvent::FixedDurationPause(event);
        } else {
            let mut event = Other::default();
            event.read_from_file(reader)?;
            *self = DSEEvent::Other(event);
        }
        Ok(())
    }
}

/// Reading an event moves past at least one byte and stays within the data.
pub proof fn lemma_event_progress(data: Seq<u8>, pos: int)
    requires
        DSEEvent::spec_read(DSEEvent::spec_default(), data, pos) is Ok,
    ensures
        pos < DSEEvent::spec_read(DSEEvent::spec_default(), data, pos).unwrap().1 <= data.len(),
{
}

// ---------------------------------------------------------------------------
// Track events
// ---------------------------------------------------------------------------

/// The position below which a track's events continue: the start plus the
/// chunk length minus the preamble's 4 bytes, modulo 2^64.
pub open spec fn spec_limit(start: int, read_n: u64) -> int {
    (start + read_n - 4) % 0x1_0000_0000_0000_0000
}

/// The events read from `pos` on: one, then more while the position after
/// the last stays below `limit`.
pub open spec fn spec_events_from(data: Seq<u8>, pos: int, limit: int) -> Result<(Seq<DSEEvent>, int), DSEError>
    decreases data.len() - pos,
{
    match DSEEvent::spec_read(DSEEvent::spec_default(), data, pos) {
        Err(e) => Err(e),
        Ok((ev, p)) => if p < limit && pos < p <= data.len() {
            match spec_events_from(data, p, limit) {
                Err(e) => Err(e),
                Ok((evs, q)) => Ok((seq![ev] + evs, q)),
            }
        } else {
            Ok((seq![ev], p))
        },
    }
}

proof fn lemma_events_from_bounds(data: Seq<u8>, pos: int, limit: int)
    requires
        spec_events_from(data, pos, limit) is Ok,
    ensures
        pos < spec_events_from(data, pos, limit).unwrap().1 <= data.len(),
    decreases data.len() - pos,
{
    lemma_event_progress(data, pos);
    let p = DSEEvent::spec_read(DSEEvent::spec_default(), data, pos).unwrap().1;
    if p < limit && pos < p <= data.len() {
        lemma_events_from_bounds(data, p, limit);
    }
}

/// `r` with `acc` put before the events it read.
pub open spec fn spec_prepend(acc: Seq<DSEEvent>, r: Result<(Seq<DSEEvent>, int), DSEError>) -> Result<(Seq<DSEEvent>, int), DSEError> {
    match r {
        Ok((evs, q)) => Ok((acc + evs, q)),
        Err(e) => Err(e),
    }
}

/// The bytes of events written one after the other, or the first error.
pub open spec fn spec_events_write(evs: Seq<DSEEvent>) -> Result<Seq<u8>, DSEError>
    decreases evs.len(),
{
    if evs.len() == 0 {
        Ok(Seq::empty())
    } else {
        match spec_events_write(evs.drop_last()) {
            Err(e) => Err(e),
            Ok(b) => match evs.last().spec_write() {
                Err(e) => Err(e),
                Ok(c) => Ok(b + c),
            },
        }
    }
}

proof fn lemma_events_write_err(evs: Seq<DSEEvent>, k: int)
    requires
        0 <= k <= evs.len(),
        spec_events_write(evs.take(k)) is Err,
    ensures
        spec_events_write(evs) == spec_events_write(evs.take(k)),
    decreases evs.len() - k,
{
    if k < evs.len() {
        assert(evs.take(k + 1).drop_last() =~= evs.take(k));
        lemma_events_write_err(evs, k + 1);
    } else {
        assert(evs.take(k) =~= evs);
    }
}

/// The model of a track's events: the chunk length the next read uses, and
/// the events.
pub struct TrkEventsView {
    pub read_n: u64,
    pub events: Seq<DSEEvent>,
}

/// The events of a track.
#[derive(Debug, Clone)]
pub struct TrkEvents {
    /// The chunk length that `read_from_file` uses.
    pub _read_n: u64,
    pub events: Vec<DSEEvent>,
}

impl View for TrkEvents {
    type V = TrkEventsView;

    open spec fn view(&self) -> TrkEventsView {
        TrkEventsView { read_n: self._read_n, events: self.events@ }
    }
}

impl TrkEvents {
    /// No events, to be read from a chunk of length `chunklen`.
    pub fn new(chunklen: u64) -> (r: TrkEvents)
        ensures
            r@ == (TrkEventsView { read_n: chunklen, events: Seq::empty() }),
    {
        let r = TrkEvents { _read_n: chunklen, events: Vec::new() };
        assert(r.events@ =~= Seq::<DSEEvent>::empty());
        r
    }

    pub fn set_read_params(&mut self, chunklen: u64)
        ensures
            final(self)@ == (TrkEventsView { read_n: chunklen, events: old(self)@.events }),
    {
        self._read_n = chunklen;
    }
}

impl ReadWrite for TrkEvents {
    open spec fn spec_write(&self) -> Result<Seq<u8>, DSEError> {
        spec_events_write(self.events@)
    }

    /// One event, then more while the position stays below the start plus
    /// the chunk length minus 4 (modulo 2^64).
    open spec fn spec_read(v: TrkEventsView, data: Seq<u8>, pos: int) -> Result<(TrkEventsView, int), DSEError> {
        match spec_events_from(data, pos, spec_limit(pos, v.read_n)) {
            Err(e) => Err(e),
            Ok((evs, q)) => Ok((TrkEventsView { read_n: v.read_n, events: v.events + evs }, q)),
        }
    }

    open spec fn spec_fresh() -> TrkEventsView {
        TrkEventsView { read_n: 0, events: Seq::empty() }
    }

    fn fresh() -> (r: Self) {
        TrkEvents::new(0)
    }

    fn write_to_file(&self, writer: &mut Vec<u8>) -> (res: Result<usize, DSEError>) {
        let start = writer.len();
        let mut i: usize = 0;
        assert(self.events@.take(0) =~= Seq::<DSEEvent>::empty());
        while i < self.events.len()
            invariant
                i <= self.events@.len(),
                start == old(writer)@.len(),
                spec_events_write(self.events@.take(i as int)) is Ok,
                writer@ == old(writer)@ + spec_events_write(self.events@.take(i as int)).unwrap(),
            decreases self.events@.len() - i,
        {
            let event = &self.events[i];
            proof {
                assert(self.events@.take(i + 1).drop_last() =~= self.events@.take(i as int));
                assert(self.events@.take(i + 1).last() == *event);
            }
            match event.write_to_file(writer) {
                Ok(_) => {},
                Err(e) => {
                    proof { lemma_events_write_err(self.events@, i + 1); }
                    return Err(e);
                },
            }
            proof {
                vstd::seq_lib::lemma_concat_associative(old(writer)@, spec_events_write(self.events@.take(i as int)).unwrap(), event.spec_write().unwrap());
            }
            i = i + 1;
        }
        assert(self.events@.take(i as int) =~= self.events@);
        Ok(writer.len() - start)
    }

    fn read_from_file(&mut self, reader: &mut DataReader) -> (res: Result<(), DSEError>) {
        let start = reader.pos as u64;
        let limit: u64 = ((start as u128 + self._read_n as u128 + 0xFFFF_FFFF_FFFF_FFFCu128) % 0x1_0000_0000_0000_0000u128) as u64;
        let ghost pos0 = reader.pos as int;
        let ghost evs0 = self.events@;
        let ghost data = reader.data@;
        proof {
            vstd::arithmetic::div_mod::lemma_mod_add_multiples_vanish(pos0 + self._read_n - 4, 0x1_0000_0000_0000_0000);
        }
        assert(limit == spec_limit(pos0, self._read_n));
        let mut event = DSEEvent::default();
        event.read_from_file(reader)?;
        proof { lemma_event_progress(data, pos0); }
        self.events.push(event);
        let ghost mut acc = seq![event];
        while (reader.pos as u64) < limit
            invariant
                reader.data@ == data,
                data == old(reader).data@,
                pos0 == old(reader).pos,
                limit == spec_limit(pos0, old(self)._read_n),
                self._read_n == old(self)._read_n,
                evs0 == old(self).events@,
                pos0 < reader.pos <= data.len(),
                reader.pos < limit ==> spec_events_from(data, pos0, limit as int) == spec_prepend(acc, spec_events_from(data, reader.pos as int, limit as int)),
                reader.pos >= limit ==> spec_events_from(data, pos0, limit as int) == Ok::<(Seq<DSEEvent>, int), DSEError>((acc, reader.pos as int)),
                self.events@ == evs0 + acc,
            decreases data.len() - reader.pos,
        {
            let ghost q = reader.pos as int;
            let mut event = DSEEvent::default();
            match event.read_from_file(reader) {
                Ok(()) => {},
                Err(e) => {
                    return Err(e);
                },
            }
            proof {
                lemma_event_progress(data, q);
                let r = spec_events_from(data, reader.pos as int, limit as int);
                assert(spec_prepend(acc, spec_prepend(seq![event], r)) == spec_prepend(acc + seq![event], r)) by {
                    if r is Ok {
                        vstd::seq_lib::lemma_concat_associative(acc, seq![event], r.unwrap().0);
                    }
                }
            }
            self.events.push(event);
            proof {
                acc = acc + seq![event];
                assert(self.events@ =~= evs0 + acc);
            }
        }
        Ok(())
    }
}

// ---------------------------------------------------------------------------
// Track chunks
// ---------------------------------------------------------------------------

/// The position of the first byte at or after `p` that is not 0x98, or the
/// error when the data ends before one.
pub open spec fn spec_pad_run(data: Seq<u8>, p: int) -> Result<int, DSEError>
    decreases data.len() - p,
{
    if p < 0 || p >= data.len() {
        Err(DSEError::UnexpectedEof())
    } else if data[p] == 0x98 {
        spec_pad_run(data, p + 1)
    } else {
        Ok(p)
    }
}

/// Number of bytes that bring `n` up to a multiple of 4.
pub open spec fn spec_pad4(n: nat) -> nat {
    if n % 4 == 0 { 0 } else { (4 - n % 4) as nat }
}

/// The model of a track chunk.
pub struct TrkChunkView {
    pub header: TrkChunkHeader,
    pub preamble: TrkChunkPreamble,
    pub events: TrkEventsView,
    pub _padding: Seq<u8>,
}

/// A track: its header, its preamble, its events, and 0x98 bytes of padding
/// up to a multiple of 4 bytes.
#[derive(Debug, Clone)]
pub struct TrkChunk {
    pub header: TrkChunkHeader,
    pub preamble: TrkChunkPreamble,
    pub events: TrkEvents,
    pub _padding: Vec<u8>,
}

impl View for TrkChunk {
    type V = TrkChunkView;

    open spec fn view(&self) -> TrkChunkView {
        TrkChunkView { header: self.header, preamble: self.preamble, events: self.events@, _padding: self._padding@ }
    }
}

impl TrkChunk {
    pub open spec fn spec_default() -> TrkChunkView {
        TrkChunkView {
            header: TrkChunkHeader::spec_default(),
            preamble: TrkChunkPreamble::spec_default(),
            events: TrkEventsView { read_n: 0, events: Seq::empty() },
            _padding: Seq::empty(),
        }
    }
}

impl Default for TrkChunk {
    fn default() -> (r: TrkChunk)
        ensures
            r@ == TrkChunk::spec_default(),
    {
        let r = TrkChunk {
            header: TrkChunkHeader::default(),
            preamble: TrkChunkPreamble::default(),
            events: TrkEvents::new(0),
            _padding: Vec::new(),
        };
        assert(r._padding@ =~= Seq::<u8>::empty());
        r
    }
}

impl IsSelfIndexed for TrkChunk {
    open spec fn spec_self_index(&self) -> Option<usize> {
        None
    }

    open spec fn spec_with_self_index(&self, new_index: usize) -> Option<Self> {
        None
    }

    fn is_self_indexed(&self) -> (r: Option<usize>) {
        None
    }

    /// Tracks carry no index: always an error.
    fn change_self_index(&mut self, new_index: usize) -> (r: Result<(), DSEError>)
        ensures
            r matches Err(e) ==> e is Invalid,
    {
        Err(DSEError::Invalid("Track chunks do not have indices!!".to_owned()))
    }
}

impl ReadWrite for TrkChunk {
    /// The header, the preamble, the events, then 0x98 bytes up to a
    /// multiple of 4.
    open spec fn spec_write(&self) -> Result<Seq<u8>, DSEError> {
        match spec_events_write(self.events.events@) {
            Err(e) => Err(e),
            Ok(b) => Ok(self.header.spec_encode() + self.preamble.spec_encode() + b + spec_repeat(0x98, spec_pad4(20 + b.len()))),
        }
    }

    /// The header, the preamble, the events of a chunk as long as the header
    /// says, then the 0x98 bytes that follow as padding.
    open spec fn spec_read(v: TrkChunkView, data: Seq<u8>, pos: int) -> Result<(TrkChunkView, int), DSEError> {
        match spec_record_read::<TrkChunkHeader>(data, pos) {
            Err(e) => Err(e),
            Ok((h, p1)) => match spec_record_read::<TrkChunkPreamble>(data, p1) {
                Err(e) => Err(e),
                Ok((pr, p2)) => match TrkEvents::spec_read(TrkEventsView { read_n: h.chunklen as u64, events: v.events.events }, data, p2) {
                    Err(e) => Err(e),
                    Ok((ev, p3)) => match spec_pad_run(data, p3) {
                        Err(e) => Err(e),
                        Ok(p4) => Ok((TrkChunkView { header: h, preamble: pr, events: ev, _padding: v._padding + data.subrange(p3, p4) }, p4)),
                    },
                },
            },
        }
    }

    open spec fn spec_fresh() -> TrkChunkView {
        TrkChunk::spec_default()
    }

    fn fresh() -> (r: Self) {
        TrkChunk::default()
    }

    fn write_to_file(&self, writer: &mut Vec<u8>) -> (res: Result<usize, DSEError>) {
        let start = writer.len();
        proof {
            self.header.lemma_parse_encode();
            self.preamble.lemma_parse_encode();
        }
        self.header.write_to_file(writer)?;
        let ghost w1 = writer@;
        self.preamble.write_to_file(writer)?;
        let ghost w2 = writer@;
        self.events.write_to_file(writer)?;
        let ghost w3 = writer@;
        let n = writer.len() - start;
        let rem = n % 4;
        let pad: usize = if rem == 0 { 0 } else { 4 - rem };
        push_repeated(writer, 0x98, pad);
        proof {
            let b = spec_events_write(self.events.events@).unwrap();
            assert(pad == spec_pad4(20 + b.len()));
            assert(writer@ =~= old(writer)@ + (self.header.spec_encode() + self.preamble.spec_encode() + b + spec_repeat(0x98, pad as nat)));
        }
        Ok(writer.len() - start)
    }

    fn read_from_file(&mut self, reader: &mut DataReader) -> (res: Result<(), DSEError>) {
        self.header.read_from_file(reader)?;
        let ghost p1 = reader.pos as int;
        self.preamble.read_from_file(reader)?;
        self.events.set_read_params(self.header.chunklen as u64);
        let ghost p2 = reader.pos as int;
        self.events.read_from_file(reader)?;
        proof { lemma_events_from_bounds(reader.data@, p2, spec_limit(p2, self.header.chunklen as u64)); }
        let p3 = reader.pos;
        let ghost pad0 = self._padding@;
        let ghost data = reader.data@;
        assert(pad0 == old(self)._padding@);
        loop
            invariant
                reader.data@ == data,
                data == old(reader).data@,
                p3 <= reader.pos <= data.len(),
                pad0 == old(self)._padding@,
                self._padding@ == pad0 + data.subrange(p3 as int, reader.pos as int),
                spec_pad_run(data, p3 as int) == spec_pad_run(data, reader.pos as int),
                spec_record_read::<TrkChunkHeader>(data, old(reader).pos as int) == Ok::<(TrkChunkHeader, int), DSEError>((self.header, p1)),
                spec_record_read::<TrkChunkPreamble>(data, p1) == Ok::<(TrkChunkPreamble, int), DSEError>((self.preamble, p2)),
                TrkEvents::spec_read(TrkEventsView { read_n: self.header.chunklen as u64, events: old(self).events@.events }, data, p2)
                    == Ok::<(TrkEventsView, int), DSEError>((self.events@, p3 as int)),
            decreases data.len() - reader.pos,
        {
            let q = reader.pos;
            if q >= reader.data.len() {
                return Err(DSEError::UnexpectedEof());
            }
            let b = reader.data[q];
            if b != 0x98 {
                return Ok(());
            }
            self._padding.push(b);
            reader.pos = q + 1;
            assert(self._padding@ =~= pad0 + data.subrange(p3 as int, reader.pos as int));
        }
    }
}

// ---------------------------------------------------------------------------
// The file
// ---------------------------------------------------------------------------

/// The model of an SMDL file.
pub struct SMDLView {
    pub header: SMDLHeader,
    pub song: SongChunk,
    pub trks: TableView<TrkChunkView>,
    pub eoc: EOCChunk,
}

/// An SMDL file: the header, the song chunk, the tracks, and the closing
/// chunk.
#[derive(Debug, Clone)]
pub struct SMDL {
    pub header: SMDLHeader,
    pub song: SongChunk,
    pub trks: Table<TrkChunk>,
    pub eoc: EOCChunk,
}

impl View for SMDL {
    type V = SMDLView;

    open spec fn view(&self) -> SMDLView {
        SMDLView { header: self.header, song: self.song, trks: self.trks@, eoc: self.eoc }
    }
}

impl SMDL {
    pub open spec fn spec_default() -> SMDLView {
        SMDLView {
            header: SMDLHeader::spec_default(),
            song: SongChunk::spec_default(),
            trks: TableView { read_n: 0, objects: Seq::empty() },
            eoc: EOCChunk::spec_default(),
        }
    }
}

impl Default for SMDL {
    fn default() -> (r: SMDL)
        ensures
            r@ == SMDL::spec_default(),
    {
        let r = SMDL { header: SMDLHeader::default(), song: SongChunk::default(), trks: Table::new(0), eoc: EOCChunk::default() };
        assert(r.trks@.objects =~= Seq::<TrkChunkView>::empty());
        r
    }
}

impl ReadWrite for SMDL {
    /// The header, the song chunk, the tracks, and the closing chunk.
    open spec fn spec_write(&self) -> Result<Seq<u8>, DSEError> {
        match self.trks.spec_write() {
            Err(e) => Err(e),
            Ok(t) => Ok(self.header.spec_encode() + self.song.spec_encode() + t + self.eoc.spec_encode()),
        }
    }

    /// The header, the song chunk, as many tracks as it counts, and the
    /// closing chunk.
    open spec fn spec_read(v: SMDLView, data: Seq<u8>, pos: int) -> Result<(SMDLView, int), DSEError> {
        match spec_record_read::<SMDLHeader>(data, pos) {
            Err(e) => Err(e),
            Ok((h, p1)) => match spec_record_read::<SongChunk>(data, p1) {
                Err(e) => Err(e),
                Ok((song, p2)) => match Table::<TrkChunk>::spec_read(TableView { read_n: song.nbtrks as usize, objects: v.trks.objects }, data, p2) {
                    Err(e) => Err(e),
                    Ok((trks, p3)) => match spec_record_read::<EOCChunk>(data, p3) {
                        Err(e) => Err(e),
                        Ok((eoc, p4)) => Ok((SMDLView { header: h, song, trks, eoc }, p4)),
                    },
                },
            },
        }
    }

    open spec fn spec_fresh() -> SMDLView {
        SMDL::spec_default()
    }

    fn fresh() -> (r: Self) {
        SMDL::default()
    }

    #[verifier::spinoff_prover]
    fn write_to_file(&self, writer: &mut Vec<u8>) -> (res: Result<usize, DSEError>) {
        let start = writer.len();
        let ghost w0 = writer@;
        self.header.write_to_file(writer)?;
        let ghost w1 = writer@;
        self.song.write_to_file(writer)?;
        let ghost w2 = writer@;
        self.trks.write_to_file(writer)?;
        let ghost w3 = writer@;
        self.eoc.write_to_file(writer)?;
        proof {
            let t = self.trks.spec_write().unwrap();
            assert(writer@ =~= w0 + (self.header.spec_encode() + self.song.spec_encode() + t + self.eoc.spec_encode()));
        }
        Ok(writer.len() - start)
    }

    fn read_from_file(&mut self, reader: &mut DataReader) -> (res: Result<(), DSEError>) {
        self.header.read_from_file(reader)?;
        self.song.read_from_file(reader)?;
        self.trks.set_read_params(self.song.nbtrks as usize);
        self.trks.read_from_file(reader)?;
        self.eoc.read_from_file(reader)?;
        Ok(())
    }
}

impl DSELinkBytes for SMDL {
    /// The two link bytes of the header.
    fn get_link_bytes(&self) -> (r: (u8, u8))
        ensures
            r == (self.header.unk1, self.header.unk2),
    {
        (self.header.unk1, self.header.unk2)
    }

    fn set_link_bytes(&mut self, link_bytes: (u8, u8))
        ensures
            *final(self) == (SMDL { header: SMDLHeader { unk1: link_bytes.0, unk2: link_bytes.1, ..old(self).header }, ..*old(self) }),
    {
        self.header.unk1 = link_bytes.0;
        self.header.unk2 = link_bytes.1;
    }

    fn set_unk1(&mut self, unk1: u8)
        ensures
            *final(self) == (SMDL { header: SMDLHeader { unk1, ..old(self).header }, ..*old(self) }),
    {
        self.header.unk1 = unk1;
    }

    fn set_unk2(&mut self, unk2: u8)
        ensures
            *final(self) == (SMDL { header: SMDLHeader { unk2, ..old(self).header }, ..*old(self) }),
    {
        self.header.unk2 = unk2;
    }
}

impl SetSongBuilderFlags for SMDL {
    /// The flags kept in the header's `unk7`.
    fn get_song_builder_flags(&self) -> (r: SongBuilderFlags)
        ensures
            r.spec_bits() == self.header.unk7,
    {
        SongBuilderFlags::from_bits_retain(self.header.unk7)
    }

    fn set_song_builder_flags(&mut self, flags: SongBuilderFlags)
        ensures
            *final(self) == (SMDL { header: SMDLHeader { unk7: flags.spec_bits(), ..old(self).header }, ..*old(self) }),
    {
        self.header.unk7 = flags.bits();
    }
}

impl SongBuilderFlags {
    /// The flags of a sequence.
    pub fn parse_from_smdl(smdl: &SMDL) -> (r: SongBuilderFlags)
        ensures
            r.spec_bits() == smdl.header.unk7,
    {
        SongBuilderFlags::from_bits_retain(smdl.header.unk7)
    }

    /// The flags of the sequence whose header starts at the reader's
    /// position; the reader does not move.
    pub fn parse_from_smdl_file(reader: &mut DataReader) -> (r: Result<SongBuilderFlags, DSEError>)
        ensures
            final(reader).data@ == old(reader).data@,
            final(reader).pos == old(reader).pos,
            match spec_record_read::<SMDLHeader>(old(reader).data@, old(reader).pos as int) {
                Ok((h, _p)) => r matches Ok(f) && f.spec_bits() == h.unk7,
                Err(e) => r == Err::<SongBuilderFlags, DSEError>(e),
            },
    {
        let previous = reader.pos;
        let mut smdl_header = SMDLHeader::default();
        read_record(&mut smdl_header, reader)?;
        reader.pos = previous;
        Ok(SongBuilderFlags::from_bits_retain(smdl_header.unk7))
    }
}

// ---------------------------------------------------------------------------
// Read markers
// ---------------------------------------------------------------------------

/// The largest channel of the tracks (0 without tracks).
pub open spec fn spec_max_chanid(trks: Seq<TrkChunkView>) -> u8
    decreases trks.len(),
{
    if trks.len() == 0 {
        0
    } else {
        let m = spec_max_chanid(trks.drop_last());
        let c = trks.last().preamble.chanid;
        if c > m { c } else { m }
    }
}

/// The largest channel is at least every track's channel and is one of
/// them (0 without tracks).
pub proof fn lemma_max_chanid_is_largest(trks: Seq<TrkChunkView>)
    ensures
        forall|i: int| 0 <= i < trks.len() ==> spec_max_chanid(trks) >= (#[trigger] trks[i]).preamble.chanid,
        trks.len() == 0 ==> spec_max_chanid(trks) == 0,
        trks.len() > 0 ==> exists|i: int| 0 <= i < trks.len() && spec_max_chanid(trks) == (#[trigger] trks[i]).preamble.chanid,
    decreases trks.len(),
{
    if trks.len() > 0 {
        let d = trks.drop_last();
        lemma_max_chanid_is_largest(d);
        assert forall|i: int| 0 <= i < trks.len() implies spec_max_chanid(trks) >= (#[trigger] trks[i]).preamble.chanid by {
            if i < trks.len() - 1 {
                assert(trks[i] == d[i]);
            }
        }
        if d.len() == 0 || trks.last().preamble.chanid > spec_max_chanid(d) {
            assert(spec_max_chanid(trks) == trks[trks.len() - 1].preamble.chanid);
        } else {
            let i = choose|i: int| 0 <= i < d.len() && spec_max_chanid(d) == (#[trigger] d[i]).preamble.chanid;
            assert(trks[i] == d[i]);
        }
    }
}

/// A track with its chunk length and its label set.
pub open spec fn spec_track_markers(t: TrkChunkView) -> TrkChunkView {
    TrkChunkView {
        header: TrkChunkHeader {
            chunklen: (4 + spec_events_write(t.events.events).unwrap().len()) as u32,
            label: 0x206B7274,
            ..t.header
        },
        ..t
    }
}

/// Whether every track's channel is below 255, so that the channel count fits.
pub open spec fn spec_chanids_ok(trks: Seq<TrkChunkView>) -> bool {
    forall|i: int| 0 <= i < trks.len() ==> (#[trigger] trks[i]).preamble.chanid < 255
}

impl SMDL {
    /// What regenerating the read markers makes of `s`, and its result: the
    /// file length (the file must be writable and fit in 32 bits), the track
    /// count (its low 8 bits), the channel count (the largest channel plus
    /// 1; there must be a track), each track's length (its preamble and
    /// events), and the labels. An error leaves the steps before it done.
    pub open spec fn spec_regenerate_read_markers(s: SMDL) -> (SMDLView, Result<(), DSEError>) {
        let v = s@;
        match s.spec_write() {
            Err(e) => (v, Err(e)),
            Ok(b) => if b.len() > 0xFFFF_FFFF {
                (v, Err(DSEError::BinaryFileTooLarge(DSEFileType::SMDL)))
            } else {
                let n = v.trks.objects.len();
                let v1 = SMDLView {
                    header: SMDLHeader { flen: b.len() as u32, ..v.header },
                    song: SongChunk { nbtrks: n as u8, ..v.song },
                    ..v
                };
                if n == 0 {
                    (v1, Err(spec_no_tracks_error()))
                } else {
                    (
                        SMDLView {
                            header: SMDLHeader { magicn: 0x6C646D73, ..v1.header },
                            song: SongChunk { nbchans: (spec_max_chanid(v.trks.objects) + 1) as u8, label: 0x676E6F73, ..v1.song },
                            trks: TableView { objects: v.trks.objects.map_values(|t: TrkChunkView| spec_track_markers(t)), ..v.trks },
                            eoc: EOCChunk { label: 0x20636F65, ..v.eoc },
                        },
                        Ok(()),
                    )
                }
            },
        }
    }
}

impl SMDL {
    /// Recomputes the lengths, counts and labels that the file records about
    /// itself.
    #[verifier::spinoff_prover]
    #[verifier::rlimit(40)]
    pub fn regenerate_read_markers(&mut self) -> (res: Result<(), DSEError>)
        requires
            spec_chanids_ok(old(self)@.trks.objects),
        ensures
            (final(self)@, res) == SMDL::spec_regenerate_read_markers(*old(self)),
    {
        let ghost s0 = *self;
        let mut scratch: Vec<u8> = Vec::new();
        let total = self.write_to_file(&mut scratch)?;
        let ghost b = s0.spec_write().unwrap();
        assert(scratch@ =~= b);
        let sl = scratch.len();
        assert(sl == b.len());
        if total > 0xFFFF_FFFF {
            return Err(DSEError::BinaryFileTooLarge(DSEFileType::SMDL));
        }
        self.header.flen = total as u32;
        let n = self.trks.len();
        self.song.nbtrks = n as u8;
        if n == 0 {
            return Err(no_tracks_error());
        }
        let ghost objs = s0.trks.objects@;
        let ghost views = s0@.trks.objects;
        let mut m: u8 = 0;
        let mut i: usize = 0;
        assert(views.take(0) =~= Seq::<TrkChunkView>::empty());
        while i < n
            invariant
                i <= n,
                n == objs.len(),
                self.trks.objects@ == objs,
                views == objs.map_values(|t: TrkChunk| t@),
                spec_chanids_ok(views),
                m == spec_max_chanid(views.take(i as int)),
                m < 255,
                self.header == (SMDLHeader { flen: b.len() as u32, ..s0.header }),
                self.song == (SongChunk { nbtrks: n as u8, ..s0.song }),
                self.eoc == s0.eoc,
                self.trks._read_n == s0.trks._read_n,
            decreases n - i,
        {
            assert(views.take(i + 1).drop_last() =~= views.take(i as int));
            assert(views[i as int] == objs[i as int]@);
            let c = self.trks.objects[i].preamble.chanid;
            if c > m {
                m = c;
            }
            i = i + 1;
        }
        assert(views.take(n as int) =~= views);
        self.song.nbchans = m + 1;
        let ghost t = s0.trks.spec_write().unwrap();
        proof {
            assert(b.len() == s0.header.spec_encode().len() + s0.song.spec_encode().len() + t.len() + s0.eoc.spec_encode().len());
        }
        let mut k: usize = 0;
        while k < n
            invariant
                k <= n,
                n == objs.len(),
                self.trks.objects@.len() == n,
                self.trks._read_n == s0.trks._read_n,
                views == objs.map_values(|t: TrkChunk| t@),
                spec_table_write(objs) is Ok,
                spec_table_write(objs).unwrap().len() == t.len(),
                t.len() <= 0xFFFF_FFFF,
                forall|j: int| 0 <= j < k ==> (#[trigger] self.trks.objects@[j])@ == spec_track_markers(views[j]),
                forall|j: int| k <= j < n ==> #[trigger] self.trks.objects@[j] == objs[j],
                self.header == (SMDLHeader { flen: b.len() as u32, ..s0.header }),
                self.song == (SongChunk { nbtrks: n as u8, nbchans: (spec_max_chanid(views) + 1) as u8, ..s0.song }),
                self.eoc == s0.eoc,
            decreases n - k,
        {
            proof {
                lemma_table_write_parts(objs, k as int);
                objs[k as int].header.lemma_parse_encode();
                objs[k as int].preamble.lemma_parse_encode();
            }
            let mut sc: Vec<u8> = Vec::new();
            let el = match self.trks.objects[k].events.write_to_file(&mut sc) {
                Ok(x) => x,
                Err(e) => {
                    return Err(e);
                },
            };
            assert(views[k as int] == objs[k as int]@);
            let trk = &mut self.trks.objects[k];
            trk.header.chunklen = 4 + el as u32;
            trk.header.label = 0x206B7274;
            k = k + 1;
        }
        self.header.magicn = 0x6C646D73;
        self.song.label = 0x676E6F73;
        self.eoc.label = 0x20636F65;
        proof {
            assert(self@.trks.objects =~= views.map_values(|t: TrkChunkView| spec_track_markers(t)));
        }
        Ok(())
    }
}

/// A sequence with default values, the version, the date and the file name
/// set: the name must be ASCII and is cut to 15 characters.
pub fn create_smdl_shell(last_modified: (u16, u8, u8, u8, u8, u8, u8), fname: String) -> (r: Result<SMDL, DSEError>)
    ensures
        !string_is_ascii(&fname) ==> (r matches Err(DSEError::DSEFileNameConversionNonASCII(k, n)) && k@ == "MIDI"@ && n == fname),
        string_is_ascii(&fname) ==> (r matches Ok(s) && s.header.fname.inner@ == spec_dse_bytes(spec_fname_text(fname), 0xFF)
            && s@ == (SMDLView {
                header: SMDLHeader {
                    version: 0x415,
                    year: last_modified.0,
                    month: last_modified.1,
                    day: last_modified.2,
                    hour: last_modified.3,
                    minute: last_modified.4,
                    second: last_modified.5,
                    centisecond: last_modified.6,
                    fname: s.header.fname,
                    ..SMDLHeader::spec_default()
                },
                ..SMDL::spec_default()
            })),
{
    let mut smdl = SMDL::default();
    let (year, month, day, hour, minute, second, centisecond) = last_modified;
    smdl.header.version = 0x415;
    smdl.header.year = year;
    smdl.header.month = month;
    smdl.header.day = day;
    smdl.header.hour = hour;
    smdl.header.minute = minute;
    smdl.header.second = second;
    smdl.header.centisecond = centisecond;
    if !fname.as_str().is_ascii() {
        return Err(DSEError::DSEFileNameConversionNonASCII("MIDI".to_owned(), fname));
    }
    let bytes = fname.as_str().as_bytes();
    let n: usize = if bytes.len() > 15 { 15 } else { bytes.len() };
    let text = &bytes[0..n];
    assert(text@ =~= spec_fname_text(fname));
    smdl.header.fname = DSEString::from_bytes(text);
    Ok(smdl)
}

} // verus!
