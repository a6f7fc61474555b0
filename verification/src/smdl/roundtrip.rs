//! What reading gives back of what writing produced: an event, the events of
//! a track, a track, and a whole sequence file.
use vstd::prelude::*;
use crate::dtype::{
    AutoReadWrite, DSEError, IsSelfIndexed, ReadWrite, TableView, lemma_table_write_parts, lemma_table_write_prefix, lemma_table_write_step,
    spec_record_read,
    spec_table_read, spec_table_write,
};
use crate::swdl::spec_repeat;
use super::records::{EOCChunk, SMDLHeader, SongChunk, TrkChunkHeader, TrkChunkPreamble, lemma_eoc_first_byte, lemma_trk_header_first_byte};
use super::{DSEEvent, SMDL, SMDLView, TrkChunk, lemma_event_progress, lemma_events_from_bounds, TrkChunkView, TrkEvents, TrkEventsView, spec_events_from, spec_track_markers, spec_events_write, spec_limit, spec_pad4, spec_pad_run};
use super::events::{
    FixedDurationPause, Other, PlayNote, lemma_other_read_write, lemma_other_roundtrip, lemma_pause_roundtrip,
    lemma_play_note_read_write, lemma_play_note_roundtrip, spec_duration_len, spec_note_read_back, spec_other_read_back,
};

verus! {

// ---------------------------------------------------------------------------
// Pieces of a byte sequence
// ---------------------------------------------------------------------------

/// Where `w` stands at `pos` of `data`, its piece at `off` stands at
/// `pos + off`.
proof fn lemma_piece(data: Seq<u8>, pos: int, w: Seq<u8>, off: int, len: int)
    requires
        0 <= pos,
        pos + w.len() <= data.len(),
        data.subrange(pos, pos + w.len()) == w,
        0 <= off,
        0 <= len,
        off + len <= w.len(),
    ensures
        data.subrange(pos + off, pos + off + len) == w.subrange(off, off + len),
{
    assert forall|k: int| 0 <= k < len implies #[trigger] data.subrange(pos + off, pos + off + len)[k] == w.subrange(off, off + len)[k] by {
        assert(data.subrange(pos, pos + w.len())[off + k] == w[off + k]);
    }
    assert(data.subrange(pos + off, pos + off + len) =~= w.subrange(off, off + len));
}

// ---------------------------------------------------------------------------
// Events
// ---------------------------------------------------------------------------

/// Whether an event is read back as the kind it is: a note's velocity is
/// below 0x80 and its octave change and key fit their bit fields, a pause's
/// code is from 0x80 to 0x8F, any other event's code is from 0x90 on.
pub open spec fn spec_event_readable(e: DSEEvent) -> bool {
    match e {
        DSEEvent::PlayNote(n) => n.velocity < 0x80 && n.octavemod < 4 && n.note < 16,
        DSEEvent::FixedDurationPause(p) => 0x80 <= p.duration < 0x90,
        DSEEvent::Other(o) => o.code >= 0x90,
    }
}

/// What reading back a written event gives: a note with the smallest
/// duration byte count, a pause as it is, any other event with the
/// parameter bytes that its code takes and zeros after them.
pub open spec fn spec_event_read_back(e: DSEEvent) -> DSEEvent {
    match e {
        DSEEvent::PlayNote(n) => DSEEvent::PlayNote(spec_note_read_back(n)),
        DSEEvent::FixedDurationPause(_p) => e,
        DSEEvent::Other(o) => DSEEvent::Other(spec_other_read_back(o, Other::spec_default())),
    }
}

/// An event that can be written takes at least one byte.
proof fn lemma_event_bytes(e: DSEEvent)
    requires
        e.spec_write() is Ok,
    ensures
        e.spec_write().unwrap().len() >= 1,
{
}

/// Reading the bytes of a written event, wherever they stand, gives what
/// `spec_event_read_back` says and moves past them.
pub proof fn lemma_event_roundtrip(e: DSEEvent, v: DSEEvent, data: Seq<u8>, pos: int)
    requires
        spec_event_readable(e),
        e.spec_write() is Ok,
        0 <= pos,
        pos + e.spec_write().unwrap().len() <= data.len(),
        data.subrange(pos, pos + e.spec_write().unwrap().len()) == e.spec_write().unwrap(),
    ensures
        DSEEvent::spec_read(v, data, pos) == Ok::<(DSEEvent, int), DSEError>(
            (spec_event_read_back(e), pos + e.spec_write().unwrap().len()),
        ),
{
    let w = e.spec_write().unwrap();
    lemma_event_bytes(e);
    assert(data[pos] == w[0]) by {
        assert(data.subrange(pos, pos + w.len())[0] == w[0]);
    }
    match e {
        DSEEvent::PlayNote(n) => {
            lemma_play_note_roundtrip(n, PlayNote::spec_default(), data, pos);
        },
        DSEEvent::FixedDurationPause(p) => {
            lemma_pause_roundtrip(p, FixedDurationPause { duration: 0 }, data, pos);
        },
        DSEEvent::Other(o) => {
            lemma_other_roundtrip(o, Other::spec_default(), data, pos);
        },
    }
}

// ---------------------------------------------------------------------------
// The events of a track
// ---------------------------------------------------------------------------

/// Whether every event is read back as the kind it is.
pub open spec fn spec_events_readable(evs: Seq<DSEEvent>) -> bool {
    forall|i: int| 0 <= i < evs.len() ==> spec_event_readable(#[trigger] evs[i])
}

/// What reading back written events gives, event by event.
pub open spec fn spec_events_read_back(evs: Seq<DSEEvent>) -> Seq<DSEEvent> {
    evs.map_values(|e: DSEEvent| spec_event_read_back(e))
}

/// The bytes of events are those of the first followed by those of the rest.
proof fn lemma_events_write_cons(e: DSEEvent, rest: Seq<DSEEvent>)
    requires
        spec_events_write(seq![e] + rest) is Ok,
    ensures
        e.spec_write() is Ok,
        spec_events_write(rest) is Ok,
        spec_events_write(seq![e] + rest).unwrap() == e.spec_write().unwrap() + spec_events_write(rest).unwrap(),
    decreases rest.len(),
{
    let s = seq![e] + rest;
    if rest.len() == 0 {
        assert(s.drop_last() =~= Seq::<DSEEvent>::empty());
        assert(s.last() == e);
        assert(spec_events_write(s.drop_last()) == Ok::<Seq<u8>, DSEError>(Seq::empty()));
        assert(spec_events_write(rest) == Ok::<Seq<u8>, DSEError>(Seq::empty()));
        assert(Seq::<u8>::empty() + e.spec_write().unwrap() =~= e.spec_write().unwrap() + Seq::<u8>::empty());
    } else {
        assert(s.drop_last() =~= seq![e] + rest.drop_last());
        assert(s.last() == rest.last());
        lemma_events_write_cons(e, rest.drop_last());
        let c = e.spec_write().unwrap();
        let b1 = spec_events_write(rest.drop_last()).unwrap();
        let l = rest.last().spec_write().unwrap();
        assert(spec_events_write(rest).unwrap() == b1 + l);
        assert(spec_events_write(s).unwrap() == spec_events_write(s.drop_last()).unwrap() + l);
        assert((c + b1) + l =~= c + (b1 + l));
    }
}

/// Reading back written events, with the limit at their end, gives them as
/// `spec_event_read_back` says and stops at the limit.
proof fn lemma_events_roundtrip(evs: Seq<DSEEvent>, data: Seq<u8>, pos: int, limit: int)
    requires
        evs.len() > 0,
        spec_events_readable(evs),
        spec_events_write(evs) is Ok,
        0 <= pos,
        limit == pos + spec_events_write(evs).unwrap().len(),
        limit <= data.len(),
        data.subrange(pos, limit) == spec_events_write(evs).unwrap(),
    ensures
        spec_events_from(data, pos, limit) == Ok::<(Seq<DSEEvent>, int), DSEError>((spec_events_read_back(evs), limit)),
    decreases evs.len(),
{
    let e = evs[0];
    let rest = evs.drop_first();
    assert(evs =~= seq![e] + rest);
    lemma_events_write_cons(e, rest);
    let c = e.spec_write().unwrap();
    let b = spec_events_write(rest).unwrap();
    let w = spec_events_write(evs).unwrap();
    assert(w == c + b);
    lemma_piece(data, pos, w, 0, c.len() as int);
    assert(w.subrange(0, c.len() as int) =~= c);
    assert(spec_event_readable(evs[0]));
    lemma_event_roundtrip(e, DSEEvent::spec_default(), data, pos);
    let p = pos + c.len();
    if rest.len() == 0 {
        assert(spec_events_read_back(evs) =~= seq![spec_event_read_back(e)]);
    } else {
        assert(spec_events_readable(rest)) by {
            assert forall|i: int| 0 <= i < rest.len() implies spec_event_readable(#[trigger] rest[i]) by {
                assert(rest[i] == evs[i + 1]);
            }
        }
        let e2 = rest[0];
        let rest2 = rest.drop_first();
        assert(rest =~= seq![e2] + rest2);
        lemma_events_write_cons(e2, rest2);
        lemma_event_bytes(e2);
        lemma_piece(data, pos, w, c.len() as int, b.len() as int);
        assert(w.subrange(c.len() as int, (c.len() + b.len()) as int) =~= b);
        lemma_events_roundtrip(rest, data, p, limit);
        assert(spec_events_read_back(evs) =~= seq![spec_event_read_back(e)] + spec_events_read_back(rest));
    }
}

/// Reading back the written events of a track, with a chunk length that
/// counts their bytes and the 4 bytes of the preamble, gives them as
/// `spec_event_read_back` says after those already held, and moves past
/// them.
pub proof fn lemma_trk_events_roundtrip(t: TrkEvents, v: TrkEventsView, data: Seq<u8>, pos: int)
    requires
        t.events@.len() > 0,
        spec_events_readable(t.events@),
        t.spec_write() is Ok,
        v.read_n == t.spec_write().unwrap().len() + 4,
        0 <= pos,
        pos + t.spec_write().unwrap().len() <= data.len(),
        pos + t.spec_write().unwrap().len() < 0x1_0000_0000_0000_0000,
        data.subrange(pos, pos + t.spec_write().unwrap().len()) == t.spec_write().unwrap(),
    ensures
        TrkEvents::spec_read(v, data, pos) == Ok::<(TrkEventsView, int), DSEError>(
            (
                TrkEventsView { read_n: v.read_n, events: v.events + spec_events_read_back(t.events@) },
                pos + t.spec_write().unwrap().len(),
            ),
        ),
{
    let n = t.spec_write().unwrap().len();
    assert(spec_limit(pos, v.read_n) == pos + n) by {
        vstd::arithmetic::div_mod::lemma_small_mod((pos + n) as nat, 0x1_0000_0000_0000_0000);
    }
    lemma_events_roundtrip(t.events@, data, pos, pos + n);
}

/// Whether an event reads as the writer writes it: a note's duration takes
/// the fewest bytes.
pub open spec fn spec_event_canonical(e: DSEEvent) -> bool {
    e matches DSEEvent::PlayNote(n) ==> spec_duration_len(n.keydownduration) == Some(n._nbparambytes as nat)
}

/// Writing an event read from bytes gives those bytes back, when a note's
/// duration there takes the fewest bytes.
pub proof fn lemma_event_read_write(v: DSEEvent, data: Seq<u8>, pos: int)
    requires
        DSEEvent::spec_read(v, data, pos) is Ok,
        spec_event_canonical(DSEEvent::spec_read(v, data, pos).unwrap().0),
    ensures
        DSEEvent::spec_read(v, data, pos).unwrap().0.spec_write() == Ok::<Seq<u8>, DSEError>(
            data.subrange(pos, DSEEvent::spec_read(v, data, pos).unwrap().1),
        ),
{
    if data[pos] < 0x80 {
        lemma_play_note_read_write(PlayNote::spec_default(), data, pos);
    } else if data[pos] < 0x90 {
        assert(data.subrange(pos, pos + 1) =~= seq![data[pos]]);
    } else {
        lemma_other_read_write(Other::spec_default(), data, pos);
    }
}

/// The bytes of events that can each be written are those of the first
/// followed by those of the rest.
proof fn lemma_events_write_concat(e: DSEEvent, rest: Seq<DSEEvent>)
    requires
        e.spec_write() is Ok,
        spec_events_write(rest) is Ok,
    ensures
        spec_events_write(seq![e] + rest) == Ok::<Seq<u8>, DSEError>(e.spec_write().unwrap() + spec_events_write(rest).unwrap()),
    decreases rest.len(),
{
    let s = seq![e] + rest;
    if rest.len() == 0 {
        assert(s.drop_last() =~= Seq::<DSEEvent>::empty());
        assert(s.last() == e);
        assert(spec_events_write(s.drop_last()) == Ok::<Seq<u8>, DSEError>(Seq::empty()));
        assert(spec_events_write(rest) == Ok::<Seq<u8>, DSEError>(Seq::empty()));
        assert(Seq::<u8>::empty() + e.spec_write().unwrap() =~= e.spec_write().unwrap() + Seq::<u8>::empty());
    } else {
        assert(s.drop_last() =~= seq![e] + rest.drop_last());
        assert(s.last() == rest.last());
        assert(spec_events_write(rest.drop_last()) is Ok);
        lemma_events_write_concat(e, rest.drop_last());
        let c = e.spec_write().unwrap();
        let b1 = spec_events_write(rest.drop_last()).unwrap();
        let l = rest.last().spec_write().unwrap();
        assert(spec_events_write(rest).unwrap() == b1 + l);
        assert(spec_events_write(s) == Ok::<Seq<u8>, DSEError>((c + b1) + l));
        assert((c + b1) + l =~= c + (b1 + l));
    }
}

/// Writing the events read from `pos` up to `limit` gives the bytes they
/// were read from, when each note's duration there takes the fewest bytes.
pub proof fn lemma_events_read_write(data: Seq<u8>, pos: int, limit: int)
    requires
        spec_events_from(data, pos, limit) is Ok,
        forall|i: int|
            0 <= i < spec_events_from(data, pos, limit).unwrap().0.len() ==> spec_event_canonical(
                #[trigger] spec_events_from(data, pos, limit).unwrap().0[i],
            ),
    ensures
        spec_events_write(spec_events_from(data, pos, limit).unwrap().0) == Ok::<Seq<u8>, DSEError>(
            data.subrange(pos, spec_events_from(data, pos, limit).unwrap().1),
        ),
    decreases data.len() - pos,
{
    let (ev, p) = DSEEvent::spec_read(DSEEvent::spec_default(), data, pos).unwrap();
    let (evs, q) = spec_events_from(data, pos, limit).unwrap();
    assert(evs[0] == ev);
    lemma_event_read_write(DSEEvent::spec_default(), data, pos);
    lemma_event_progress(data, pos);
    if p < limit && pos < p <= data.len() {
        let (rest, q2) = spec_events_from(data, p, limit).unwrap();
        assert(evs == seq![ev] + rest);
        assert forall|i: int| 0 <= i < rest.len() implies spec_event_canonical(#[trigger] spec_events_from(data, p, limit).unwrap().0[i]) by {
            assert(evs[i + 1] == rest[i]);
        }
        lemma_events_read_write(data, p, limit);
        lemma_events_from_bounds(data, p, limit);
        lemma_events_write_concat(ev, rest);
        assert(data.subrange(pos, p) + data.subrange(p, q) =~= data.subrange(pos, q));
    } else {
        assert(evs =~= seq![ev] + Seq::<DSEEvent>::empty());
        lemma_events_write_concat(ev, Seq::<DSEEvent>::empty());
        assert(spec_events_write(Seq::<DSEEvent>::empty()) == Ok::<Seq<u8>, DSEError>(Seq::empty()));
        assert(ev.spec_write().unwrap() + Seq::<u8>::empty() =~= data.subrange(pos, p));
    }
}

// ---------------------------------------------------------------------------
// Tracks
// ---------------------------------------------------------------------------

/// Whether a track is read back as it was written: it has events, each is
/// read back as the kind it is, they can be written, and the header's chunk
/// length counts the preamble's 4 bytes and theirs.
pub open spec fn spec_track_ok(t: TrkChunkView) -> bool {
    &&& t.events.events.len() > 0
    &&& spec_events_readable(t.events.events)
    &&& spec_events_write(t.events.events) is Ok
    &&& t.header.chunklen == 4 + spec_events_write(t.events.events).unwrap().len()
}

/// What reading a written track into `v` gives: the same header and
/// preamble; the events as `spec_event_read_back` says after those of `v`,
/// read with the header's chunk length; and the padding that was written,
/// after the padding of `v`.
pub open spec fn spec_track_read_back(t: TrkChunkView, v: TrkChunkView) -> TrkChunkView {
    TrkChunkView {
        header: t.header,
        preamble: t.preamble,
        events: TrkEventsView {
            read_n: t.header.chunklen as u64,
            events: v.events.events + spec_events_read_back(t.events.events),
        },
        _padding: v._padding + spec_repeat(0x98, spec_pad4(20 + spec_events_write(t.events.events).unwrap().len())),
    }
}

/// A run of `k` padding bytes followed by another byte ends there.
proof fn lemma_pad_run(data: Seq<u8>, p: int, k: nat)
    requires
        0 <= p,
        p + k < data.len(),
        forall|i: int| p <= i < p + k ==> data[i] == 0x98,
        data[p + k] != 0x98,
    ensures
        spec_pad_run(data, p) == Ok::<int, DSEError>(p + k),
    decreases k,
{
    if k > 0 {
        lemma_pad_run(data, p + 1, (k - 1) as nat);
    }
}

/// Reading the bytes of a written track, wherever they stand and followed by
/// a byte other than the padding byte, gives what `spec_track_read_back`
/// says and moves past them.
pub proof fn lemma_track_roundtrip(t: TrkChunk, v: TrkChunkView, data: Seq<u8>, pos: int)
    requires
        spec_track_ok(t@),
        t.spec_write() is Ok,
        0 <= pos,
        pos + t.spec_write().unwrap().len() < data.len(),
        pos + t.spec_write().unwrap().len() < 0x1_0000_0000_0000_0000,
        data.subrange(pos, pos + t.spec_write().unwrap().len()) == t.spec_write().unwrap(),
        data[pos + t.spec_write().unwrap().len()] != 0x98,
    ensures
        TrkChunk::spec_read(v, data, pos) == Ok::<(TrkChunkView, int), DSEError>(
            (spec_track_read_back(t@, v), pos + t.spec_write().unwrap().len()),
        ),
{
    let b = spec_events_write(t.events.events@).unwrap();
    let bl = b.len() as int;
    let hb = t.header.spec_encode();
    let pb = t.preamble.spec_encode();
    let k = spec_pad4(20 + b.len());
    let pad = spec_repeat(0x98, k);
    let w = t.spec_write().unwrap();
    t.header.lemma_parse_encode();
    t.preamble.lemma_parse_encode();
    assert(w == hb + pb + b + pad);
    let p1 = pos + 16;
    let p2 = p1 + 4;
    let p3 = p2 + b.len();
    let end = p3 + k;
    lemma_piece(data, pos, w, 0, 16);
    assert(w.subrange(0, 16) =~= hb);
    lemma_piece(data, pos, w, 16, 4);
    assert(w.subrange(16, 20) =~= pb);
    lemma_piece(data, pos, w, 20, bl);
    assert(w.subrange(20, 20 + bl) =~= b);
    lemma_piece(data, pos, w, 20 + bl, k as int);
    assert(w.subrange(20 + bl, 20 + bl + k) =~= pad);
    assert forall|i: int| p3 <= i < end implies data[i] == 0x98 by {
        assert(data.subrange(p3, end)[i - p3] == pad[i - p3]);
    }
    lemma_trk_events_roundtrip(t.events, TrkEventsView { read_n: t.header.chunklen as u64, events: v.events.events }, data, p2);
    lemma_pad_run(data, p3, k);
}

// ---------------------------------------------------------------------------
// The tracks of a file
// ---------------------------------------------------------------------------

/// Whether every track is read back as it was written and starts with the
/// track label "trk ".
pub open spec fn spec_tracks_ok(trks: Seq<TrkChunkView>) -> bool {
    forall|i: int| 0 <= i < trks.len() ==> spec_track_ok(#[trigger] trks[i]) && trks[i].header.label == 0x206B7274
}

/// What reading back written tracks gives, each into a fresh track.
pub open spec fn spec_tracks_read_back(trks: Seq<TrkChunkView>) -> Seq<TrkChunkView> {
    trks.map_values(|t: TrkChunkView| spec_track_read_back(t, TrkChunk::spec_default()))
}

/// Within the bytes of all tracks, those of track `k` stand after those of
/// the tracks before it, and begin with the low byte of its label.
proof fn lemma_track_piece(objs: Seq<TrkChunk>, k: int)
    requires
        0 <= k < objs.len(),
        spec_table_write(objs) is Ok,
    ensures
        spec_table_write(objs.take(k + 1)).unwrap().len() <= spec_table_write(objs).unwrap().len(),
        spec_table_write(objs).unwrap().subrange(
            spec_table_write(objs.take(k)).unwrap().len() as int,
            spec_table_write(objs.take(k + 1)).unwrap().len() as int,
        ) == objs[k].spec_write().unwrap(),
        spec_table_write(objs).unwrap()[spec_table_write(objs.take(k)).unwrap().len() as int]
            == (objs[k].header.label % 256) as u8,
{
    lemma_table_write_step(objs, k);
    lemma_table_write_prefix(objs, k + 1);
    let w = spec_table_write(objs).unwrap();
    let a = spec_table_write(objs.take(k)).unwrap();
    let a1 = spec_table_write(objs.take(k + 1)).unwrap();
    let c = objs[k].spec_write().unwrap();
    lemma_trk_header_first_byte(objs[k].header);
    objs[k].header.lemma_parse_encode();
    assert(c[0] == objs[k].header.spec_encode()[0]);
    assert(w.subrange(a.len() as int, a1.len() as int)[0] == c[0]);
}

/// Reading the first `k` of written tracks, followed by a byte other than
/// the padding byte, gives them as `spec_track_read_back` says.
proof fn lemma_tracks_roundtrip(objs: Seq<TrkChunk>, data: Seq<u8>, pos: int, k: nat)
    requires
        k <= objs.len(),
        spec_tracks_ok(objs.map_values(|t: TrkChunk| t@)),
        spec_table_write(objs) is Ok,
        0 <= pos,
        pos + spec_table_write(objs).unwrap().len() < data.len(),
        pos + spec_table_write(objs).unwrap().len() < 0x1_0000_0000_0000_0000,
        data.subrange(pos, pos + spec_table_write(objs).unwrap().len()) == spec_table_write(objs).unwrap(),
        data[pos + spec_table_write(objs).unwrap().len()] != 0x98,
    ensures
        spec_table_write(objs.take(k as int)) is Ok,
        spec_table_read::<TrkChunk>(data, pos, k) == Ok::<(Seq<TrkChunkView>, int), DSEError>(
            (
                spec_tracks_read_back(objs.take(k as int).map_values(|t: TrkChunk| t@)),
                pos + spec_table_write(objs.take(k as int)).unwrap().len(),
            ),
        ),
    decreases k,
{
    let views = objs.map_values(|t: TrkChunk| t@);
    let w = spec_table_write(objs).unwrap();
    lemma_table_write_prefix(objs, k as int);
    if k == 0 {
        assert(objs.take(0).map_values(|t: TrkChunk| t@) =~= Seq::<TrkChunkView>::empty());
        assert(spec_tracks_read_back(Seq::<TrkChunkView>::empty()) =~= Seq::<TrkChunkView>::empty());
    } else {
        let j = (k - 1) as int;
        lemma_tracks_roundtrip(objs, data, pos, (k - 1) as nat);
        lemma_table_write_step(objs, j);
        lemma_track_piece(objs, j);
        let a = spec_table_write(objs.take(j)).unwrap();
        let ak = spec_table_write(objs.take(k as int)).unwrap();
        let t = objs[j];
        let c = t.spec_write().unwrap();
        lemma_piece(data, pos, w, a.len() as int, c.len() as int);
        assert(views[j] == t@);
        let q = pos + ak.len();
        assert(data[q] != 0x98) by {
            if k < objs.len() {
                lemma_track_piece(objs, k as int);
                assert(views[k as int] == objs[k as int]@);
                assert(data.subrange(pos, pos + w.len())[ak.len() as int] == w[ak.len() as int]);
            }
        }
        lemma_track_roundtrip(t, TrkChunk::spec_default(), data, pos + a.len());
        assert(objs.take(k as int).map_values(|t: TrkChunk| t@) =~= objs.take(j).map_values(|t: TrkChunk| t@).push(t@));
        assert(spec_tracks_read_back(objs.take(k as int).map_values(|t: TrkChunk| t@))
            =~= spec_tracks_read_back(objs.take(j).map_values(|t: TrkChunk| t@)).push(
            spec_track_read_back(t@, TrkChunk::spec_default()),
        ));
    }
}

// ---------------------------------------------------------------------------
// The file
// ---------------------------------------------------------------------------

/// Whether a sequence file is read back as it was written: its track count
/// is its number of tracks, each track is read back as it was written and
/// starts with the label "trk ", and the closing chunk starts with its label
/// "eoc ".
pub open spec fn spec_smdl_ok(s: SMDLView) -> bool {
    &&& s.song.nbtrks == s.trks.objects.len()
    &&& spec_tracks_ok(s.trks.objects)
    &&& s.eoc.label == 0x20636F65
}

/// What reading back a written sequence file gives: the same header, song
/// chunk and closing chunk, and the tracks as `spec_track_read_back` says,
/// each read into a fresh track.
pub open spec fn spec_smdl_read_back(s: SMDLView) -> SMDLView {
    SMDLView {
        header: s.header,
        song: s.song,
        trks: TableView { read_n: s.song.nbtrks as usize, objects: spec_tracks_read_back(s.trks.objects) },
        eoc: s.eoc,
    }
}

/// Reading the bytes of a written sequence file, wherever they stand, gives
/// it back as `spec_smdl_read_back` says: the header, the song chunk and the
/// closing chunk as they were; each track with its header and preamble as
/// they were, its events with the smallest duration byte counts and zeros
/// after the parameters their codes take, and the padding that was written.
/// This holds of a file whose read markers are consistent (`spec_smdl_ok`).
pub proof fn lemma_smdl_roundtrip(s: SMDL, data: Seq<u8>, pos: int)
    requires
        spec_smdl_ok(s@),
        s.spec_write() is Ok,
        0 <= pos,
        pos + s.spec_write().unwrap().len() <= data.len(),
        pos + s.spec_write().unwrap().len() < 0x1_0000_0000_0000_0000,
        data.subrange(pos, pos + s.spec_write().unwrap().len()) == s.spec_write().unwrap(),
    ensures
        SMDL::spec_read(SMDL::spec_default(), data, pos) == Ok::<(SMDLView, int), DSEError>(
            (spec_smdl_read_back(s@), pos + s.spec_write().unwrap().len()),
        ),
{
    let objs = s.trks.objects@;
    let hb = s.header.spec_encode();
    let sb = s.song.spec_encode();
    let t = spec_table_write(objs).unwrap();
    let eb = s.eoc.spec_encode();
    s.header.lemma_parse_encode();
    s.song.lemma_parse_encode();
    s.eoc.lemma_parse_encode();
    lemma_eoc_first_byte(s.eoc);
    let w = s.spec_write().unwrap();
    assert(w == hb + sb + t + eb);
    let tl = t.len() as int;
    lemma_piece(data, pos, w, 0, 64);
    assert(w.subrange(0, 64) =~= hb);
    lemma_piece(data, pos, w, 64, 64);
    assert(w.subrange(64, 128) =~= sb);
    lemma_piece(data, pos, w, 128, tl);
    assert(w.subrange(128, 128 + tl) =~= t);
    lemma_piece(data, pos, w, 128 + tl, 16);
    assert(w.subrange(128 + tl, 144 + tl) =~= eb);
    assert(data[pos + 128 + tl] == eb[0]) by {
        assert(data.subrange(pos + 128 + tl, pos + 144 + tl)[0] == eb[0]);
    }
    let n = objs.len();
    assert(objs.take(n as int) =~= objs);
    lemma_tracks_roundtrip(objs, data, pos + 128, n);
    assert(Seq::<TrkChunkView>::empty() + spec_tracks_read_back(s@.trks.objects) =~= spec_tracks_read_back(s@.trks.objects));
}

/// Whether each track has events, each read back as the kind it is.
pub open spec fn spec_tracks_readable(trks: Seq<TrkChunkView>) -> bool {
    forall|i: int| 0 <= i < trks.len() ==> (#[trigger] trks[i]).events.events.len() > 0 && spec_events_readable(trks[i].events.events)
}

/// Tracks with the same events, track by track, can be written alike and
/// take as many bytes.
proof fn lemma_tracks_same_events(a: Seq<TrkChunk>, b: Seq<TrkChunk>)
    requires
        a.len() == b.len(),
        forall|i: int| 0 <= i < a.len() ==> (#[trigger] a[i]).events.events@ == b[i].events.events@,
    ensures
        spec_table_write(a) is Ok <==> spec_table_write(b) is Ok,
        spec_table_write(a) is Ok ==> spec_table_write(a).unwrap().len() == spec_table_write(b).unwrap().len(),
    decreases a.len(),
{
    if a.len() > 0 {
        let j = a.len() - 1;
        assert forall|i: int| 0 <= i < a.drop_last().len() implies (#[trigger] a.drop_last()[i]).events.events@ == b.drop_last()[i].events.events@ by {
            assert(a.drop_last()[i] == a[i]);
            assert(b.drop_last()[i] == b[i]);
        }
        lemma_tracks_same_events(a.drop_last(), b.drop_last());
        assert(a[j].events.events@ == b[j].events.events@);
        a[j].header.lemma_parse_encode();
        b[j].header.lemma_parse_encode();
        a[j].preamble.lemma_parse_encode();
        b[j].preamble.lemma_parse_encode();
        assert(a.last().spec_self_index() is None);
        assert(b.last().spec_self_index() is None);
    }
}

/// After its read markers are regenerated without error, a sequence file
/// with at most 255 tracks, each with events that are read back as the kind
/// they are, has consistent read markers.
pub proof fn lemma_regenerated_smdl_ok(s: SMDL)
    requires
        SMDL::spec_regenerate_read_markers(s).1 is Ok,
        s.trks.objects@.len() <= 255,
        spec_tracks_readable(s@.trks.objects),
    ensures
        spec_smdl_ok(SMDL::spec_regenerate_read_markers(s).0),
{
    let objs = s.trks.objects@;
    let views = s@.trks.objects;
    let r = SMDL::spec_regenerate_read_markers(s).0;
    let b = s.spec_write().unwrap();
    let t = spec_table_write(objs).unwrap();
    assert(b.len() <= 0xFFFF_FFFF);
    assert(r.trks.objects == views.map_values(|t: TrkChunkView| spec_track_markers(t)));
    assert forall|i: int| 0 <= i < r.trks.objects.len() implies spec_track_ok(#[trigger] r.trks.objects[i]) && r.trks.objects[i].header.label == 0x206B7274 by {
        lemma_table_write_parts(objs, i);
        assert(views[i] == objs[i]@);
        let ev = spec_events_write(objs[i].events.events@).unwrap();
        objs[i].header.lemma_parse_encode();
        objs[i].preamble.lemma_parse_encode();
        assert(objs[i].spec_write().unwrap().len() >= 20 + ev.len());
        assert(r.trks.objects[i] == spec_track_markers(views[i]));
    }
}

/// A sequence file written after its read markers were regenerated without
/// error reads back as `spec_smdl_read_back` says, whatever bytes follow it,
/// when it has at most 255 tracks, each with events that are read back as
/// the kind they are. `s` is the file before, `s2` the file after.
pub proof fn lemma_regenerated_smdl_roundtrip(s: SMDL, s2: SMDL, rest: Seq<u8>)
    requires
        SMDL::spec_regenerate_read_markers(s).1 is Ok,
        s2@ == SMDL::spec_regenerate_read_markers(s).0,
        s.trks.objects@.len() <= 255,
        spec_tracks_readable(s@.trks.objects),
    ensures
        s2.spec_write() is Ok,
        SMDL::spec_read(SMDL::spec_default(), s2.spec_write().unwrap() + rest, 0) == Ok::<(SMDLView, int), DSEError>(
            (spec_smdl_read_back(s2@), s2.spec_write().unwrap().len() as int),
        ),
{
    lemma_regenerated_smdl_ok(s);
    let a = s.trks.objects@;
    let c = s2.trks.objects@;
    assert(s2@.trks.objects == c.map_values(|t: TrkChunk| t@));
    assert(c.len() == a.len()) by {
        assert(s2@.trks.objects.len() == s@.trks.objects.len());
    }
    assert forall|i: int| 0 <= i < a.len() implies (#[trigger] a[i]).events.events@ == c[i].events.events@ by {
        assert(s2@.trks.objects[i] == c[i]@);
        assert(s@.trks.objects[i] == a[i]@);
    }
    lemma_tracks_same_events(a, c);
    s.header.lemma_parse_encode();
    s.song.lemma_parse_encode();
    s.eoc.lemma_parse_encode();
    s2.header.lemma_parse_encode();
    s2.song.lemma_parse_encode();
    s2.eoc.lemma_parse_encode();
    assert(s.spec_write().unwrap().len() <= 0xFFFF_FFFF);
    let w = s2.spec_write().unwrap();
    assert(w.len() == s.spec_write().unwrap().len());
    let data = w + rest;
    assert(data.subrange(0, w.len() as int) =~= w);
    lemma_smdl_roundtrip(s2, data, 0);
}

// ---------------------------------------------------------------------------
// Writing back what was read
// ---------------------------------------------------------------------------

/// Whether a track read from bytes is written back as those bytes: each
/// note's duration there takes the fewest bytes, and its padding is as long
/// as the writer makes it.
pub open spec fn spec_track_canonical(t: TrkChunkView) -> bool {
    &&& forall|i: int| 0 <= i < t.events.events.len() ==> spec_event_canonical(#[trigger] t.events.events[i])
    &&& spec_events_write(t.events.events) is Ok
    &&& t._padding.len() == spec_pad4(20 + spec_events_write(t.events.events).unwrap().len())
}

/// The bytes that a run of padding bytes skips are padding bytes.
proof fn lemma_pad_run_bytes(data: Seq<u8>, p: int)
    requires
        spec_pad_run(data, p) is Ok,
    ensures
        p <= spec_pad_run(data, p).unwrap() < data.len(),
        forall|i: int| p <= i < spec_pad_run(data, p).unwrap() ==> data[i] == 0x98,
    decreases data.len() - p,
{
    if data[p] == 0x98 {
        lemma_pad_run_bytes(data, p + 1);
    }
}

/// Writing a track read from bytes into a fresh track gives those bytes
/// back, when it reads as the writer writes it (`spec_track_canonical`).
proof fn lemma_track_read_write(x: TrkChunk, data: Seq<u8>, pos: int)
    requires
        TrkChunk::spec_read(TrkChunk::spec_default(), data, pos) is Ok,
        x@ == TrkChunk::spec_read(TrkChunk::spec_default(), data, pos).unwrap().0,
        spec_track_canonical(x@),
    ensures
        x.spec_write() == Ok::<Seq<u8>, DSEError>(data.subrange(pos, TrkChunk::spec_read(TrkChunk::spec_default(), data, pos).unwrap().1)),
{
    let p1 = pos + 16;
    let p2 = p1 + 4;
    let h = x.header;
    let limit = spec_limit(p2, h.chunklen as u64);
    let (evs, p3) = spec_events_from(data, p2, limit).unwrap();
    let p4 = spec_pad_run(data, p3).unwrap();
    TrkChunkHeader::lemma_encode_parse(data.subrange(pos, p1));
    TrkChunkPreamble::lemma_encode_parse(data.subrange(p1, p2));
    assert(x.events.events@ =~= evs);
    lemma_events_read_write(data, p2, limit);
    lemma_events_from_bounds(data, p2, limit);
    lemma_pad_run_bytes(data, p3);
    assert(x._padding@ =~= data.subrange(p3, p4));
    let k = spec_pad4(20 + (p3 - p2) as nat);
    assert(spec_repeat(0x98, k) =~= data.subrange(p3, p4));
    assert(data.subrange(pos, p1) + data.subrange(p1, p2) + data.subrange(p2, p3) + data.subrange(p3, p4) =~= data.subrange(pos, p4));
}

/// Writing the first `k` tracks read from bytes gives those bytes back, when
/// each reads as the writer writes it.
proof fn lemma_tracks_read_write(objs: Seq<TrkChunk>, data: Seq<u8>, pos: int, k: nat)
    requires
        0 <= pos <= data.len(),
        spec_table_read::<TrkChunk>(data, pos, k) is Ok,
        objs.len() == k,
        objs.map_values(|t: TrkChunk| t@) == spec_table_read::<TrkChunk>(data, pos, k).unwrap().0,
        forall|i: int| 0 <= i < k ==> spec_track_canonical(#[trigger] objs[i]@),
    ensures
        spec_table_write(objs) == Ok::<Seq<u8>, DSEError>(data.subrange(pos, spec_table_read::<TrkChunk>(data, pos, k).unwrap().1)),
        pos <= spec_table_read::<TrkChunk>(data, pos, k).unwrap().1 <= data.len(),
    decreases k,
{
    if k == 0 {
        assert(data.subrange(pos, pos) =~= Seq::<u8>::empty());
    } else {
        let d = objs.drop_last();
        let (items, p) = spec_table_read::<TrkChunk>(data, pos, (k - 1) as nat).unwrap();
        let (t_last, q_last) = TrkChunk::spec_read(TrkChunk::spec_default(), data, p).unwrap();
        assert(spec_table_read::<TrkChunk>(data, pos, k).unwrap().0 == items.push(t_last));
        assert(d.map_values(|t: TrkChunk| t@) =~= items) by {
            assert forall|i: int| 0 <= i < d.len() implies d.map_values(|t: TrkChunk| t@)[i] == items[i] by {
                assert(objs.map_values(|t: TrkChunk| t@)[i] == objs[i]@);
                assert(d[i] == objs[i]);
            }
        }
        assert forall|i: int| 0 <= i < k - 1 implies spec_track_canonical(#[trigger] d[i]@) by {
            assert(d[i] == objs[i]);
            assert(spec_track_canonical(objs[i]@));
        }
        lemma_tracks_read_write(d, data, pos, (k - 1) as nat);
        let last = objs[k - 1];
        assert(objs.map_values(|t: TrkChunk| t@)[k - 1] == last@);
        assert(spec_track_canonical(objs[k - 1]@));
        lemma_track_read_write(last, data, p);
        let (t, q) = TrkChunk::spec_read(TrkChunk::spec_default(), data, p).unwrap();
        lemma_track_read_advances(data, p);
        assert(objs.last() == last);
        assert(last.spec_self_index() is None);
        assert(data.subrange(pos, p) + data.subrange(p, q) =~= data.subrange(pos, q));
    }
}

/// Reading a track moves forward.
proof fn lemma_track_read_advances(data: Seq<u8>, pos: int)
    requires
        TrkChunk::spec_read(TrkChunk::spec_default(), data, pos) is Ok,
    ensures
        pos <= TrkChunk::spec_read(TrkChunk::spec_default(), data, pos).unwrap().1 <= data.len(),
{
    let h = spec_record_read::<TrkChunkHeader>(data, pos).unwrap().0;
    let limit = spec_limit(pos + 20, h.chunklen as u64);
    lemma_events_from_bounds(data, pos + 20, limit);
    let p3 = spec_events_from(data, pos + 20, limit).unwrap().1;
    lemma_pad_run_bytes(data, p3);
}

/// Reading `k` tracks gives `k` tracks.
proof fn lemma_table_read_len(data: Seq<u8>, pos: int, k: nat)
    requires
        spec_table_read::<TrkChunk>(data, pos, k) is Ok,
    ensures
        spec_table_read::<TrkChunk>(data, pos, k).unwrap().0.len() == k,
    decreases k,
{
    if k > 0 {
        lemma_table_read_len(data, pos, (k - 1) as nat);
    }
}

/// Writing a sequence file read from bytes gives those bytes back, when
/// each track reads as the writer writes it (`spec_track_canonical`): each
/// note's duration takes the fewest bytes and each track's padding is as
/// long as the writer makes it. `x` is the file read.
pub proof fn lemma_smdl_read_write(x: SMDL, data: Seq<u8>, pos: int)
    requires
        SMDL::spec_read(SMDL::spec_default(), data, pos) is Ok,
        x@ == SMDL::spec_read(SMDL::spec_default(), data, pos).unwrap().0,
        forall|i: int| 0 <= i < x@.trks.objects.len() ==> spec_track_canonical(#[trigger] x@.trks.objects[i]),
    ensures
        x.spec_write() == Ok::<Seq<u8>, DSEError>(data.subrange(pos, SMDL::spec_read(SMDL::spec_default(), data, pos).unwrap().1)),
{
    let p1 = pos + 64;
    let p2 = p1 + 64;
    let n = x.song.nbtrks as nat;
    let (items, p3) = spec_table_read::<TrkChunk>(data, p2, n).unwrap();
    let p4 = p3 + 16;
    SMDLHeader::lemma_encode_parse(data.subrange(pos, p1));
    SongChunk::lemma_encode_parse(data.subrange(p1, p2));
    EOCChunk::lemma_encode_parse(data.subrange(p3, p4));
    let objs = x.trks.objects@;
    lemma_table_read_len(data, p2, n);
    assert(x@.trks.objects =~= items);
    assert forall|i: int| 0 <= i < n implies spec_track_canonical(#[trigger] objs[i]@) by {
        assert(x@.trks.objects[i] == objs[i]@);
    }
    lemma_tracks_read_write(objs, data, p2, n);
    assert(data.subrange(pos, p1) + data.subrange(p1, p2) + data.subrange(p2, p3) + data.subrange(p3, p4) =~= data.subrange(pos, p4));
}

} // verus!
