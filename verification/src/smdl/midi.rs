//! Building a track event by event while a MIDI sequence is converted: the
//! track keeps its own clock, turns gaps into pauses, notes into note events
//! with their durations, and records the programs it uses.
use vstd::prelude::*;
use crate::codec::{array_from_seq, lemma_u32_digits, be_u16, lemma_array_from_seq, le_u16, le_u32, push_i16, push_i16_be, push_u16, push_u16_be, push_u32, u16_of_i16};
use crate::dtype::DSEError;
use super::{DSEEvent, TrkChunk, TrkChunkPreamble, TrkChunkView, TrkEventsView};
use super::events::{FixedDurationPause, Other, PlayNote, spec_event_name, spec_name_to_code};
use super::names::lemma_name_to_code_of_lookup;

verus! {

// ---------------------------------------------------------------------------
// Programs
// ---------------------------------------------------------------------------

/// The model of a program used by a track.
pub struct ProgramUsedView {
    pub bank: u8,
    pub program: u8,
    pub is_default: bool,
    pub notes: Set<(u8, u8)>,
}

/// A program (bank and program number) that a track selects, with the keys
/// and velocities played while it was selected.
#[derive(Debug, Clone)]
pub struct ProgramUsed {
    pub bank: u8,
    pub program: u8,
    /// Whether the track selected it by default rather than by a MIDI message.
    pub is_default: bool,
    /// The (key, velocity) pairs played, each once.
    pub notes: Vec<(u8, u8)>,
}

impl View for ProgramUsed {
    type V = ProgramUsedView;

    open spec fn view(&self) -> ProgramUsedView {
        ProgramUsedView { bank: self.bank, program: self.program, is_default: self.is_default, notes: self.notes@.to_set() }
    }
}

impl ProgramUsed {
    /// A program with no notes played yet.
    pub fn new(bank: u8, program: u8, is_default: bool) -> (r: ProgramUsed)
        ensures
            r@ == (ProgramUsedView { bank, program, is_default, notes: Set::empty() }),
    {
        let r = ProgramUsed { bank, program, is_default, notes: Vec::new() };
        assert(r.notes@.to_set() =~= Set::<(u8, u8)>::empty());
        r
    }

    /// The program of a DSE program id: bank `id / 128`, program `id % 128`.
    pub fn from_dse(id: u8, is_default: bool) -> (r: ProgramUsed)
        ensures
            r@ == (ProgramUsedView { bank: id / 128, program: id % 128, is_default, notes: Set::empty() }),
    {
        ProgramUsed::new(id / 128, id % 128, is_default)
    }

    /// The DSE program id: 128 times the bank plus the program.
    pub fn to_dse(&self) -> (r: u8)
        requires
            self.bank * 128 + self.program <= 255,
        ensures
            r == self.bank * 128 + self.program,
    {
        self.bank * 128 + self.program
    }

    pub fn is_default(&self) -> (r: bool)
        ensures
            r == self.is_default,
    {
        self.is_default
    }

    /// Records that `key` was played with velocity `vel`.
    fn add_note(&mut self, key: u8, vel: u8)
        ensures
            final(self)@ == (ProgramUsedView { notes: old(self)@.notes.insert((key, vel)), ..old(self)@ }),
    {
        let n = self.notes.len();
        let mut i: usize = 0;
        while i < n
            invariant
                i <= n,
                n == self.notes@.len(),
                self.notes@ == old(self).notes@,
                forall|k: int| 0 <= k < i ==> self.notes@[k] != (key, vel),
            decreases n - i,
        {
            if self.notes[i].0 == key && self.notes[i].1 == vel {
                assert(self.notes@.to_set().insert((key, vel)) =~= self.notes@.to_set()) by {
                    assert(self.notes@.contains((key, vel)));
                }
                return;
            }
            i = i + 1;
        }
        let ghost before = self.notes@;
        self.notes.push((key, vel));
        assert(self.notes@.to_set() =~= before.to_set().insert((key, vel))) by {
            assert forall|x: (u8, u8)| self.notes@.to_set().contains(x) <==> before.to_set().insert((key, vel)).contains(x) by {
                if self.notes@.contains(x) {
                    let k = choose|k: int| 0 <= k < self.notes@.len() && self.notes@[k] == x;
                    if k < before.len() {
                        assert(before.contains(x));
                    }
                }
                if before.contains(x) {
                    let k = choose|k: int| 0 <= k < before.len() && before[k] == x;
                    assert(self.notes@[k] == x);
                }
                if x == (key, vel) {
                    assert(self.notes@[before.len() as int] == x);
                }
            }
        }
    }
}

/// Taking a DSE program id apart and putting it together again gives it back.
pub proof fn lemma_dse_program_roundtrip(id: u8)
    ensures
        (id / 128) * 128 + id % 128 == id,
        (id / 128) * 128 + id % 128 <= 255,
{
}

// ---------------------------------------------------------------------------
// Track writer
// ---------------------------------------------------------------------------

/// The other event `code` with the parameter bytes `params` (five of them).
pub open spec fn spec_other(code: u8, params: Seq<u8>) -> DSEEvent {
    DSEEvent::Other(Other { code, parameters: array_from_seq::<5>(params) })
}

/// Parameter bytes: `b` followed by zeros, five in all.
pub open spec fn spec_params(b: Seq<u8>) -> Seq<u8> {
    b + Seq::new((5 - b.len()) as nat, |_i: int| 0u8)
}

/// The pause events that move a track's clock on by `delta` ticks: pauses
/// of 0xFFFFFF ticks while more remain, then one pause of 8, 16 or 24 bits.
pub open spec fn spec_pauses(delta: nat) -> Seq<DSEEvent>
    decreases delta,
{
    if delta == 0 {
        Seq::empty()
    } else if delta <= 0xFF {
        seq![spec_other(0x92, spec_params(seq![delta as u8]))]
    } else if delta <= 0xFFFF {
        seq![spec_other(0x93, spec_params(le_u16(delta as u16)))]
    } else if delta <= 0xFF_FFFF {
        seq![spec_other(0x94, spec_params(le_u32(delta as u32)))]
    } else {
        seq![spec_other(0x94, spec_params(le_u32(0xFF_FFFF)))] + spec_pauses((delta - 0xFF_FFFF) as nat)
    }
}

/// The ticks a pause event waits: the 8, 16 or 24-bit count, least
/// significant byte first, in the parameter bytes of a "Pause8Bits" (0x92),
/// "Pause16Bits" (0x93) or "Pause24Bits" (0x94) event; other events count
/// for none here.
pub open spec fn spec_pause_ticks(e: DSEEvent) -> nat {
    match e {
        DSEEvent::Other(o) => {
            let p = o.parameters@;
            if o.code == 0x92 {
                p[0] as nat
            } else if o.code == 0x93 {
                (p[0] + 256 * p[1]) as nat
            } else if o.code == 0x94 {
                (p[0] + 256 * p[1] + 0x1_0000 * p[2]) as nat
            } else {
                0
            }
        },
        _ => 0,
    }
}

/// The ticks that the pause events of `s` wait in all.
pub open spec fn spec_total_pause(s: Seq<DSEEvent>) -> nat
    decreases s.len(),
{
    if s.len() == 0 {
        0
    } else {
        spec_pause_ticks(s[0]) + spec_total_pause(s.subrange(1, s.len() as int))
    }
}

/// The pauses that move a track's clock on by `delta` ticks wait exactly
/// `delta` ticks in all.
pub proof fn lemma_pauses_total(delta: nat)
    ensures
        spec_total_pause(spec_pauses(delta)) == delta,
    decreases delta,
{
    let s = spec_pauses(delta);
    if delta == 0 {
    } else if delta <= 0xFF {
        lemma_array_from_seq::<5>(spec_params(seq![delta as u8]));
        assert(s.subrange(1, 1) =~= Seq::<DSEEvent>::empty());
        assert(spec_total_pause(Seq::<DSEEvent>::empty()) == 0);
    } else if delta <= 0xFFFF {
        let v = delta as u16;
        lemma_array_from_seq::<5>(spec_params(le_u16(v)));
        assert(s.subrange(1, 1) =~= Seq::<DSEEvent>::empty());
        assert(spec_total_pause(Seq::<DSEEvent>::empty()) == 0);
        assert(v % 256 + 256 * (v / 256) == v);
        assert(spec_pause_ticks(s[0]) == delta);
    } else if delta <= 0xFF_FFFF {
        let v = delta as u32;
        lemma_array_from_seq::<5>(spec_params(le_u32(v)));
        assert(s.subrange(1, 1) =~= Seq::<DSEEvent>::empty());
        assert(spec_total_pause(Seq::<DSEEvent>::empty()) == 0);
        lemma_u32_digits(v);
        assert(spec_pause_ticks(s[0]) == delta);
    } else {
        let v = 0xFF_FFFFu32;
        lemma_array_from_seq::<5>(spec_params(le_u32(v)));
        lemma_u32_digits(v);
        let rest = spec_pauses((delta - 0xFF_FFFF) as nat);
        assert(s.subrange(1, s.len() as int) =~= rest);
        lemma_pauses_total((delta - 0xFF_FFFF) as nat);
        assert(spec_pause_ticks(s[0]) == 0xFF_FFFF);
    }
}

/// The track chunk of a closed writer: an "EndOfTrack" event (code 0x98)
/// ends its events, and it carries the writer's track and channel ids.
pub open spec fn spec_closed(v: TrkChunkWriterView) -> TrkChunkView {
    TrkChunkView {
        preamble: TrkChunkPreamble { trkid: v.trkid, chanid: v.chanid, ..TrkChunkPreamble::spec_default() },
        events: TrkEventsView { read_n: 0, events: v.events.push(spec_other(0x98, spec_params(Seq::empty()))) },
        ..TrkChunk::spec_default()
    }
}

/// The model of a track writer.
pub struct TrkChunkWriterView {
    pub trkid: u8,
    pub chanid: u8,
    pub tick: u128,
    pub events: Seq<DSEEvent>,
    pub held: Seq<Option<(usize, u128)>>,
    pub bank: u8,
    pub program: u8,
    pub programs_used: Seq<ProgramUsedView>,
    pub last_pc_tick: Option<u128>,
    pub last_pc_index: Option<usize>,
}

/// A track being written: its events so far, its clock, the notes held down
/// (by key: the index of the note's event and the tick it started), the
/// selected bank and program, and the programs it has used.
#[derive(Debug, Clone)]
pub struct TrkChunkWriter {
    pub trkid: u8,
    pub chanid: u8,
    pub current_global_tick: u128,
    pub trk_events: Vec<DSEEvent>,
    /// One slot per key.
    pub notes_held: Vec<Option<(usize, u128)>>,
    pub bank: u8,
    pub program: u8,
    pub programs_used: Vec<ProgramUsed>,
    pub last_program_change_global_tick: Option<u128>,
    pub last_program_change_event_index: Option<usize>,
}

impl View for TrkChunkWriter {
    type V = TrkChunkWriterView;

    open spec fn view(&self) -> TrkChunkWriterView {
        TrkChunkWriterView {
            trkid: self.trkid,
            chanid: self.chanid,
            tick: self.current_global_tick,
            events: self.trk_events@,
            held: self.notes_held@,
            bank: self.bank,
            program: self.program,
            programs_used: self.programs_used@.map_values(|p: ProgramUsed| p@),
            last_pc_tick: self.last_program_change_global_tick,
            last_pc_index: self.last_program_change_event_index,
        }
    }
}

/// Whether a writer's model is consistent: a slot for each of the 256 keys;
/// each held note points to a note event and started no later than now; the
/// last program change points to an other event and happened no later than
/// now.
pub open spec fn spec_writer_wf(v: TrkChunkWriterView) -> bool {
    &&& v.held.len() == 256
    &&& forall|k: int| 0 <= k < 256 ==> (#[trigger] v.held[k] matches Some((i, t)) ==> i < v.events.len() && v.events[i as int] is PlayNote && t <= v.tick)
    &&& (v.last_pc_index matches Some(i) ==> i < v.events.len() && v.events[i as int] is Other)
    &&& (v.last_pc_tick matches Some(t) ==> t <= v.tick)
    &&& (v.last_pc_tick is Some ==> v.programs_used.len() > 0)
}

/// The writer after `e` is appended to its events.
pub open spec fn spec_with_event(v: TrkChunkWriterView, e: DSEEvent) -> TrkChunkWriterView {
    TrkChunkWriterView { events: v.events.push(e), ..v }
}

/// The held notes after the event at `r` is removed: later indices move down.
pub open spec fn spec_shift_held(held: Seq<Option<(usize, u128)>>, r: usize) -> Seq<Option<(usize, u128)>> {
    held.map_values(|h: Option<(usize, u128)>| match h {
        Some((i, t)) => if i > r { Some(((i - 1) as usize, t)) } else { Some((i, t)) },
        None => None,
    })
}

/// What a bank select or program change does to a writer before it adds the
/// new program change event: at the tick of the last program change, that
/// change is taken back (its program use dropped, its event removed if it
/// was mapped). Gives the writer and whether it was the same tick.
pub open spec fn spec_undo_same_tick(v: TrkChunkWriterView) -> (TrkChunkWriterView, bool) {
    match v.last_pc_tick {
        Some(t) => if v.tick == t {
            let u = TrkChunkWriterView { programs_used: v.programs_used.drop_last(), ..v };
            match v.last_pc_index {
                Some(i) => (TrkChunkWriterView { events: v.events.remove(i as int), held: spec_shift_held(v.held, i), ..u }, true),
                None => (u, true),
            }
        } else {
            (v, false)
        },
        None => (v, false),
    }
}

/// A bank select or program change on a writer whose bank and program are
/// already set: the same tick's change is taken back, the program use is
/// recorded, and a "SetProgram" event is added with the mapped program id
/// (0 when there is none). Gives the writer, the event's index when mapped,
/// and whether it was the same tick.
pub open spec fn spec_program_event(v: TrkChunkWriterView, is_default: bool, mapped: Option<u8>) -> (TrkChunkWriterView, Option<usize>, bool) {
    let (u, same_tick) = spec_undo_same_tick(v);
    let idx = u.events.len() as usize;
    let id: u8 = match mapped {
        Some(m) => m,
        None => 0,
    };
    let w = TrkChunkWriterView {
        programs_used: u.programs_used.push(ProgramUsedView { bank: u.bank, program: u.program, is_default, notes: Set::empty() }),
        last_pc_tick: Some(u.tick),
        events: u.events.push(spec_other(0xAC, spec_params(seq![id]))),
        last_pc_index: match mapped {
            Some(_) => Some(idx),
            None => None,
        },
        ..u
    };
    (w, match mapped {
        Some(_) => Some(idx),
        None => None,
    }, same_tick)
}

/// A bank select or program change ends with a "SetProgram" event carrying
/// the mapped id (0 where there is none) and records the program used; one
/// at the same tick as the track's last change replaces that change (its
/// program use, and its event where it was mapped), otherwise it is added.
pub proof fn lemma_program_event_replaces(v: TrkChunkWriterView, is_default: bool, mapped: Option<u8>)
    requires
        spec_writer_wf(v),
    ensures
        ({
            let (w, idx, same) = spec_program_event(v, is_default, mapped);
            let id: u8 = match mapped { Some(m) => m, None => 0 };
            &&& w.events.len() > 0 && w.events.last() == spec_other(0xAC, spec_params(seq![id]))
            &&& w.programs_used.len() > 0
            &&& w.programs_used.last() == (ProgramUsedView { bank: v.bank, program: v.program, is_default, notes: Set::empty() })
            &&& w.last_pc_tick == Some(v.tick)
            &&& (mapped is Some ==> idx == Some((w.events.len() - 1) as usize) && w.last_pc_index == idx)
            &&& (mapped is None ==> idx is None && w.last_pc_index is None)
            &&& same == (v.last_pc_tick == Some(v.tick))
            &&& (same ==> w.programs_used == v.programs_used.drop_last().push(w.programs_used.last()))
            &&& (!same ==> w.programs_used == v.programs_used.push(w.programs_used.last()) && w.events == v.events.push(w.events.last()))
            &&& (same && v.last_pc_index is Some ==> w.events == v.events.remove(v.last_pc_index.unwrap() as int).push(w.events.last()))
            &&& (same && v.last_pc_index is None ==> w.events == v.events.push(w.events.last()))
        }),
{
}

/// The writer after the note on `key` ends, and the result: its slot is
/// emptied and, when it was held at most 0xFFFFFF ticks, its note event gets
/// that duration; a note held longer is an error.
pub open spec fn spec_note_off(v: TrkChunkWriterView, key: u8) -> (TrkChunkWriterView, Result<(), DSEError>) {
    match v.held[key as int] {
        None => (v, Ok(())),
        Some((i, t)) => {
            let u = TrkChunkWriterView { held: v.held.update(key as int, None), ..v };
            if v.tick - t > 0xFF_FFFF {
                (u, Err(DSEError::DSESmfNotesTooLong()))
            } else {
                match v.events[i as int] {
                    DSEEvent::PlayNote(n) => (TrkChunkWriterView {
                        events: v.events.update(i as int, DSEEvent::PlayNote(PlayNote { keydownduration: (v.tick - t) as u32, ..n })),
                        ..u
                    }, Ok(())),
                    _ => (u, Ok(())),
                }
            }
        },
    }
}

/// The writer after the note `key` starts with velocity `vel` (a held note
/// of the same key ends first), and the result: an event that sets the
/// track's octave to `key / 12`, then the note event (octave change 2, key
/// `key % 12`), held from now; the last program used records the key and
/// velocity.
pub open spec fn spec_note_on(v: TrkChunkWriterView, key: u8, vel: u8) -> (TrkChunkWriterView, Result<(), DSEError>) {
    let (v1, r1) = spec_note_off(v, key);
    if r1 is Err {
        (v1, r1)
    } else {
        let note = PlayNote { velocity: vel, _nbparambytes: 0, octavemod: 2, note: key % 12, keydownduration: 0 };
        let events = v1.events.push(spec_other(0xA0, spec_params(seq![key / 12]))).push(DSEEvent::PlayNote(note));
        let n = v1.programs_used.len();
        (TrkChunkWriterView {
            events,
            held: v1.held.update(key as int, Some(((events.len() - 1) as usize, v1.tick))),
            programs_used: if n > 0 {
                v1.programs_used.update(n - 1, ProgramUsedView { notes: v1.programs_used[n - 1].notes.insert((key, vel)), ..v1.programs_used[n - 1] })
            } else {
                v1.programs_used
            },
            ..v1
        }, Ok(()))
    }
}

pub(crate) fn other_event(code: u8, params: [u8; 5]) -> (r: DSEEvent)
    ensures
        r == spec_other(code, params@),
{
    proof {
        lemma_array_from_seq::<5>(params@);
        assert(params =~= array_from_seq::<5>(params@));
    }
    DSEEvent::Other(Other { code, parameters: params })
}

/// The five parameter bytes that start with `b`.
pub(crate) fn params_of(b: &Vec<u8>) -> (r: [u8; 5])
    requires
        b@.len() <= 5,
    ensures
        r@ == spec_params(b@),
{
    let mut r: [u8; 5] = [0; 5];
    let mut i: usize = 0;
    while i < b.len()
        invariant
            i <= b@.len(),
            b@.len() <= 5,
            forall|k: int| 0 <= k < i ==> #[trigger] r@[k] == b@[k],
            forall|k: int| i <= k < 5 ==> #[trigger] r@[k] == 0,
        decreases b@.len() - i,
    {
        r[i] = b[i];
        i = i + 1;
    }
    assert(r@ =~= spec_params(b@));
    r
}

/// The code of a name that the table holds.
proof fn lemma_table_name(v: u8)
    requires
        v >= 0x90,
    ensures
        spec_name_to_code(spec_event_name(v)) == Some(v),
{
    lemma_name_to_code_of_lookup(v);
}

impl TrkChunkWriter {
    /// The model of a writer as `create` starts it, before its first events.
    pub open spec fn spec_empty(trkid: u8, chanid: u8) -> TrkChunkWriterView {
        TrkChunkWriterView {
            trkid,
            chanid,
            tick: 0,
            events: Seq::empty(),
            held: Seq::new(256, |_k: int| None),
            bank: 0,
            program: 0,
            programs_used: Seq::empty(),
            last_pc_tick: None,
            last_pc_index: None,
        }
    }

    /// The model of a writer as `create` makes it: its events start with
    /// the expression set to 100 and, except for track 0, with the bank
    /// (`link_bytes.0`) and sample bank (`link_bytes.1`) to use.
    pub open spec fn spec_created(trkid: u8, chanid: u8, link_bytes: (u8, u8)) -> TrkChunkWriterView {
        TrkChunkWriterView {
            events: if trkid == 0 {
                seq![spec_other(0xE3, spec_params(seq![100u8]))]
            } else {
                seq![
                    spec_other(0xE3, spec_params(seq![100u8])),
                    spec_other(0xA9, spec_params(seq![link_bytes.1])),
                    spec_other(0xAA, spec_params(seq![link_bytes.0])),
                ]
            },
            ..TrkChunkWriter::spec_empty(trkid, chanid)
        }
    }

    /// A writer for track `trkid` on channel `chanid` (see `spec_created`).
    pub fn create(trkid: u8, chanid: u8, link_bytes: (u8, u8)) -> (r: Result<TrkChunkWriter, DSEError>)
        ensures
            r matches Ok(w) && spec_writer_wf(w@) && w@ == TrkChunkWriter::spec_created(trkid, chanid, link_bytes),
    {
        let mut held: Vec<Option<(usize, u128)>> = Vec::new();
        while held.len() < 256
            invariant
                held@.len() <= 256,
                forall|k: int| 0 <= k < held@.len() ==> #[trigger] held@[k] is None,
            decreases 256 - held@.len(),
        {
            held.push(None);
        }
        assert(held@ =~= Seq::new(256, |_k: int| None::<(usize, u128)>));
        let mut w = TrkChunkWriter {
            trkid,
            chanid,
            current_global_tick: 0,
            trk_events: Vec::new(),
            notes_held: held,
            bank: 0,
            program: 0,
            programs_used: Vec::new(),
            last_program_change_global_tick: None,
            last_program_change_event_index: None,
        };
        proof {
            lemma_table_name(0xE3);
            lemma_table_name(0xA9);
            lemma_table_name(0xAA);
            reveal_strlit("SetTrackExpression");
            reveal_strlit("SetSwdl");
            reveal_strlit("SetBank");
            assert(w.programs_used@.map_values(|p: ProgramUsed| p@) =~= Seq::<ProgramUsedView>::empty());
            assert(w.trk_events@ =~= Seq::<DSEEvent>::empty());
            assert(spec_name_to_code("SetTrackExpression"@) == Some(0xE3u8));
        }
        let ghost w0 = w@;
        w.add_other_with_params_u8("SetTrackExpression", 100)?;
        assert(w@ == spec_with_event(w0, spec_other(0xE3, spec_params(seq![100u8]))));
        if !(trkid == 0) {
            w.add_swdl(link_bytes.1)?;
            w.add_bank(link_bytes.0)?;
        }
        proof {
            assert(w@.events =~= (if trkid == 0 {
                seq![spec_other(0xE3, spec_params(seq![100u8]))]
            } else {
                seq![
                    spec_other(0xE3, spec_params(seq![100u8])),
                    spec_other(0xA9, spec_params(seq![link_bytes.1])),
                    spec_other(0xAA, spec_params(seq![link_bytes.0])),
                ]
            }));
        }
        Ok(w)
    }

    pub fn programs_used(&self) -> (r: &Vec<ProgramUsed>)
        ensures
            r@.map_values(|p: ProgramUsed| p@) == self@.programs_used,
    {
        &self.programs_used
    }

    /// Appends an event; gives its index.
    pub fn add(&mut self, event: DSEEvent) -> (r: usize)
        requires
            spec_writer_wf(old(self)@),
        ensures
            r == old(self)@.events.len(),
            final(self)@ == spec_with_event(old(self)@, event),
            spec_writer_wf(final(self)@),
    {
        let new_event_index = self.trk_events.len();
        self.trk_events.push(event);
        new_event_index
    }

    pub fn add_playnote_event(&mut self, playnote: PlayNote) -> (r: usize)
        requires
            spec_writer_wf(old(self)@),
        ensures
            r == old(self)@.events.len(),
            final(self)@ == spec_with_event(old(self)@, DSEEvent::PlayNote(playnote)),
            spec_writer_wf(final(self)@),
    {
        self.add(DSEEvent::PlayNote(playnote))
    }

    pub fn add_fixeddurationpause_event(&mut self, fixeddurationpause: FixedDurationPause) -> (r: usize)
        requires
            spec_writer_wf(old(self)@),
        ensures
            r == old(self)@.events.len(),
            final(self)@ == spec_with_event(old(self)@, DSEEvent::FixedDurationPause(fixeddurationpause)),
            spec_writer_wf(final(self)@),
    {
        self.add(DSEEvent::FixedDurationPause(fixeddurationpause))
    }

    pub fn add_other_event(&mut self, other: Other) -> (r: usize)
        requires
            spec_writer_wf(old(self)@),
        ensures
            r == old(self)@.events.len(),
            final(self)@ == spec_with_event(old(self)@, DSEEvent::Other(other)),
            spec_writer_wf(final(self)@),
    {
        self.add(DSEEvent::Other(other))
    }

    /// Appends the event named `name`, without parameters.
    pub fn add_other_no_params(&mut self, name: &str) -> (r: Result<usize, DSEError>)
        requires
            spec_writer_wf(old(self)@),
        ensures
            spec_writer_wf(final(self)@),
            match spec_name_to_code(name@) {
                Some(c) => r == Ok::<usize, DSEError>(old(self)@.events.len() as usize)
                    && final(self)@ == spec_with_event(old(self)@, spec_other(c, spec_params(Seq::empty()))),
                None => r matches Err(DSEError::DSEEventNameLookupError(s)) && s@ == name@ && final(self)@ == old(self)@,
            },
    {
        let code = Other::name_to_code(name)?;
        let params: [u8; 5] = [0; 5];
        assert(params@ =~= spec_params(Seq::empty()));
        Ok(self.add(other_event(code, params)))
    }

    /// Sets the first parameter byte of an other event.
    pub fn set_other_with_params_u8(event: &mut DSEEvent, val: u8) -> (r: Result<(), DSEError>)
        ensures
            match *old(event) {
                DSEEvent::Other(o) => r is Ok && *final(event) == DSEEvent::Other(Other { parameters: array_from_seq::<5>(o.parameters@.update(0, val)), ..o }),
                _ => r == Err::<(), DSEError>(DSEError::_InvalidEventTypePassedToSetOtherWithParamsU8()) && *final(event) == *old(event),
            },
    {
        if let DSEEvent::Other(o) = event {
            let ghost before = o.parameters@;
            o.parameters[0] = val;
            proof {
                lemma_array_from_seq::<5>(before.update(0, val));
                assert(o.parameters =~= array_from_seq::<5>(before.update(0, val)));
            }
            Ok(())
        } else {
            Err(DSEError::_InvalidEventTypePassedToSetOtherWithParamsU8())
        }
    }

    /// Appends the event named `name` with the parameter byte `val`.
    pub fn add_other_with_params_u8(&mut self, name: &str, val: u8) -> (r: Result<usize, DSEError>)
        requires
            spec_writer_wf(old(self)@),
        ensures
            spec_writer_wf(final(self)@),
            match spec_name_to_code(name@) {
                Some(c) => r == Ok::<usize, DSEError>(old(self)@.events.len() as usize)
                    && final(self)@ == spec_with_event(old(self)@, spec_other(c, spec_params(seq![val]))),
                None => r matches Err(DSEError::DSEEventNameLookupError(s)) && s@ == name@ && final(self)@ == old(self)@,
            },
    {
        let code = Other::name_to_code(name)?;
        let mut params: [u8; 5] = [0; 5];
        params[0] = val;
        assert(params@ =~= spec_params(seq![val]));
        Ok(self.add(other_event(code, params)))
    }

    /// Appends the event named `name` with the two bytes of `val`, most
    /// significant first when `big_endian`.
    pub fn add_other_with_params_i16(&mut self, name: &str, val: i16, big_endian: bool) -> (r: Result<usize, DSEError>)
        requires
            spec_writer_wf(old(self)@),
        ensures
            spec_writer_wf(final(self)@),
            match spec_name_to_code(name@) {
                Some(c) => r == Ok::<usize, DSEError>(old(self)@.events.len() as usize)
                    && final(self)@ == spec_with_event(old(self)@, spec_other(c, spec_params(
                        if big_endian { be_u16(u16_of_i16(val)) } else { le_u16(u16_of_i16(val)) }))),
                None => r matches Err(DSEError::DSEEventNameLookupError(s)) && s@ == name@ && final(self)@ == old(self)@,
            },
    {
        let code = Other::name_to_code(name)?;
        let mut bytes: Vec<u8> = Vec::new();
        if big_endian {
            push_i16_be(&mut bytes, val);
        } else {
            push_i16(&mut bytes, val);
        }
        let params = params_of(&bytes);
        Ok(self.add(other_event(code, params)))
    }

    /// Appends the event named `name` with the two bytes of `val`, most
    /// significant first when `big_endian`.
    pub fn add_other_with_params_u16(&mut self, name: &str, val: u16, big_endian: bool) -> (r: Result<usize, DSEError>)
        requires
            spec_writer_wf(old(self)@),
        ensures
            spec_writer_wf(final(self)@),
            match spec_name_to_code(name@) {
                Some(c) => r == Ok::<usize, DSEError>(old(self)@.events.len() as usize)
                    && final(self)@ == spec_with_event(old(self)@, spec_other(c, spec_params(
                        if big_endian { be_u16(val) } else { le_u16(val) }))),
                None => r matches Err(DSEError::DSEEventNameLookupError(s)) && s@ == name@ && final(self)@ == old(self)@,
            },
    {
        let code = Other::name_to_code(name)?;
        let mut bytes: Vec<u8> = Vec::new();
        if big_endian {
            push_u16_be(&mut bytes, val);
        } else {
            push_u16(&mut bytes, val);
        }
        let params = params_of(&bytes);
        Ok(self.add(other_event(code, params)))
    }

    /// Appends a "SetSwdl" event (code 0xA9).
    pub fn add_swdl(&mut self, unk2: u8) -> (r: Result<usize, DSEError>)
        requires
            spec_writer_wf(old(self)@),
        ensures
            spec_writer_wf(final(self)@),
            r == Ok::<usize, DSEError>(old(self)@.events.len() as usize),
            final(self)@ == spec_with_event(old(self)@, spec_other(0xA9, spec_params(seq![unk2]))),
    {
        proof {
            lemma_table_name(0xA9);
            reveal_strlit("SetSwdl");
        }
        self.add_other_with_params_u8("SetSwdl", unk2)
    }

    /// Appends a "SetBank" event (code 0xAA).
    pub fn add_bank(&mut self, unk1: u8) -> (r: Result<usize, DSEError>)
        requires
            spec_writer_wf(old(self)@),
        ensures
            spec_writer_wf(final(self)@),
            r == Ok::<usize, DSEError>(old(self)@.events.len() as usize),
            final(self)@ == spec_with_event(old(self)@, spec_other(0xAA, spec_params(seq![unk1]))),
    {
        proof {
            lemma_table_name(0xAA);
            reveal_strlit("SetBank");
        }
        self.add_other_with_params_u8("SetBank", unk1)
    }
}

impl TrkChunkWriter {
    /// Takes back the program change of the current tick, if there was one:
    /// its program use is dropped and its event, when mapped, removed.
    fn undo_same_tick(&mut self) -> (same_tick: bool)
        requires
            spec_writer_wf(old(self)@),
        ensures
            (final(self)@, same_tick) == spec_undo_same_tick(old(self)@),
    {
        if let Some(t) = self.last_program_change_global_tick {
            if self.current_global_tick - t == 0 {
                let ghost before = self.programs_used@;
                let ghost v0 = self@;
                self.programs_used.pop();
                proof {
                    assert(self.programs_used@ =~= before.drop_last());
                    assert(self.programs_used@.map_values(|p: ProgramUsed| p@) =~= before.map_values(|p: ProgramUsed| p@).drop_last());
                }
                if let Some(r) = self.last_program_change_event_index {
                    let ghost ev0 = self.trk_events@;
                    self.trk_events.remove(r);
                    assert(self.trk_events@ == ev0.remove(r as int));
                    let ghost held0 = self.notes_held@;
                    let ghost x = self@;
                    let mut k: usize = 0;
                    while k < 256
                        invariant
                            self@ == (TrkChunkWriterView { held: self.notes_held@, ..x }),
                            k <= 256,
                            self.notes_held@.len() == 256,
                            held0.len() == 256,
                            forall|j: int| 0 <= j < k ==> #[trigger] self.notes_held@[j] == spec_shift_held(held0, r)[j],
                            forall|j: int| k <= j < 256 ==> #[trigger] self.notes_held@[j] == held0[j],
                        decreases 256 - k,
                    {
                        if let Some((i, tk)) = self.notes_held[k] {
                            if i > r {
                                self.notes_held.set(k, Some((i - 1, tk)));
                            }
                        }
                        k = k + 1;
                    }
                    assert(self.notes_held@ =~= spec_shift_held(held0, r));
                }
                proof {
                    let w = spec_undo_same_tick(v0).0;
                    assert(self@.programs_used == w.programs_used);
                    assert(self@.events == w.events);
                    assert(self@.held == w.held);
                    assert(self@.tick == w.tick);
                    assert(self@.last_pc_index == w.last_pc_index);
                    assert(self@ == w);
                }
                return true;
            }
        }
        false
    }

    /// Records a program change: the same tick's change is taken back, the
    /// program use is recorded, and a "SetProgram" event is added with the
    /// mapped program id.
    fn program_event(&mut self, is_default: bool, mapped: Option<u8>) -> (r: (Option<usize>, bool))
        requires
            spec_writer_wf(old(self)@),
        ensures
            spec_writer_wf(final(self)@),
            (final(self)@, r.0, r.1) == spec_program_event(old(self)@, is_default, mapped),
    {
        let ghost v0 = self@;
        let same_tick = self.undo_same_tick();
        let ghost u = self@;
        proof {
            if v0.last_pc_tick is Some && v0.tick == v0.last_pc_tick.unwrap() && v0.last_pc_index is Some {
                let r = v0.last_pc_index.unwrap();
                assert forall|k: int| 0 <= k < 256 implies (#[trigger] u.held[k] matches Some((i, t)) ==> i < u.events.len() && u.events[i as int] is PlayNote && t <= u.tick) by {
                    match v0.held[k] {
                        Some((i0, t0)) => {
                            assert(i0 != r);
                            if i0 > r {
                                assert(u.events[i0 - 1] == v0.events[i0 as int]);
                            } else {
                                assert(u.events[i0 as int] == v0.events[i0 as int]);
                            }
                        },
                        None => {},
                    }
                }
            }
        }
        let ghost before = self.programs_used@;
        self.programs_used.push(ProgramUsed::new(self.bank, self.program, is_default));
        proof {
            assert(self.programs_used@.map_values(|p: ProgramUsed| p@) =~= before.map_values(|p: ProgramUsed| p@).push(ProgramUsedView { bank: u.bank, program: u.program, is_default, notes: Set::empty() }));
        }
        self.last_program_change_global_tick = Some(self.current_global_tick);
        self.last_program_change_event_index = None;
        proof {
            lemma_table_name(0xAC);
            reveal_strlit("SetProgram");
        }
        let ghost len_before = self.trk_events.len();
        assert(self@.events == u.events);
        let idx = match self.add_other_with_params_u8("SetProgram", 0) {
            Ok(i) => i,
            Err(_) => {
                assert(false);
                return (None, same_tick);
            },
        };
        match mapped {
            Some(program_id) => {
                let ghost ev = self.trk_events@;
                assert(ev == u.events.push(spec_other(0xAC, spec_params(seq![0u8]))));
                assert(idx == len_before);
                assert(ev[idx as int] == spec_other(0xAC, spec_params(seq![0u8])));
                let mut e = self.trk_events[idx];
                assert(e == ev[idx as int]);
                assert(e == spec_other(0xAC, spec_params(seq![0u8])));
                proof {
                    lemma_array_from_seq::<5>(spec_params(seq![0u8]));
                    lemma_array_from_seq::<5>(spec_params(seq![program_id]));
                    assert(spec_params(seq![0u8]).update(0, program_id) =~= spec_params(seq![program_id]));
                }
                let _ = TrkChunkWriter::set_other_with_params_u8(&mut e, program_id);
                assert(e == spec_other(0xAC, spec_params(seq![program_id])));
                self.trk_events.set(idx, e);
                proof {
                    assert(spec_params(seq![0u8]).update(0, program_id) =~= spec_params(seq![program_id]));
                    assert(self.trk_events@[idx as int] == spec_other(0xAC, spec_params(seq![program_id])));
                    assert(self.trk_events@ == ev.update(idx as int, spec_other(0xAC, spec_params(seq![program_id]))));
                }
                self.last_program_change_event_index = Some(idx);
                assert(self@.events =~= u.events.push(spec_other(0xAC, spec_params(seq![program_id]))));
                (Some(idx), same_tick)
            },
            None => (None, same_tick),
        }
    }

    /// Selects `bank` and records a program change (see `program_change`).
    /// Gives the index of the "SetProgram" event when `mapped` gives a
    /// program id, and whether the previous change was at the same tick.
    pub fn bank_select(&mut self, bank: u8, is_default: bool, mapped: Option<u8>) -> (r: Result<(Option<usize>, bool), DSEError>)
        requires
            spec_writer_wf(old(self)@),
        ensures
            spec_writer_wf(final(self)@),
            r matches Ok((i, same)) && (final(self)@, i, same) == spec_program_event(
                TrkChunkWriterView { bank, ..old(self)@ },
                is_default,
                mapped,
            ),
    {
        self.bank = bank;
        Ok(self.program_event(is_default, mapped))
    }

    /// Selects program `prgm` and records the change: at the tick of the
    /// previous change, that change is taken back; the program use is
    /// recorded; a "SetProgram" event is added with the program id that
    /// `mapped` gives (0 and not remembered when it gives none). Gives the
    /// event's index when mapped, and whether it was the same tick.
    pub fn program_change(&mut self, prgm: u8, is_default: bool, mapped: Option<u8>) -> (r: Result<(Option<usize>, bool), DSEError>)
        requires
            spec_writer_wf(old(self)@),
        ensures
            spec_writer_wf(final(self)@),
            r matches Ok((i, same)) && (final(self)@, i, same) == spec_program_event(
                TrkChunkWriterView { program: prgm, ..old(self)@ },
                is_default,
                mapped,
            ),
    {
        self.program = prgm;
        Ok(self.program_event(is_default, mapped))
    }

    /// Ends the note on `key`, if it is held.
    pub fn note_off(&mut self, key: u8) -> (r: Result<(), DSEError>)
        requires
            spec_writer_wf(old(self)@),
        ensures
            spec_writer_wf(final(self)@),
            (final(self)@, r) == spec_note_off(old(self)@, key),
    {
        let k = key as usize;
        match self.notes_held[k] {
            None => Ok(()),
            Some((i, t)) => {
                self.notes_held.set(k, None);
                let delta = self.current_global_tick - t;
                if delta > 0xFF_FFFF {
                    return Err(DSEError::DSESmfNotesTooLong());
                }
                match self.trk_events[i] {
                    DSEEvent::PlayNote(n) => {
                        let mut n2 = n;
                        n2.keydownduration = delta as u32;
                        self.trk_events.set(i, DSEEvent::PlayNote(n2));
                    },
                    _ => {},
                }
                Ok(())
            },
        }
    }

    /// Starts the note `key` with velocity `vel`; a held note of the same key
    /// ends first.
    pub fn note_on(&mut self, key: u8, vel: u8) -> (r: Result<(), DSEError>)
        requires
            spec_writer_wf(old(self)@),
        ensures
            spec_writer_wf(final(self)@),
            (final(self)@, r) == spec_note_on(old(self)@, key, vel),
    {
        if self.notes_held[key as usize].is_some() {
            self.note_off(key)?;
        }
        let ghost v1 = self@;
        proof {
            lemma_table_name(0xA0);
            reveal_strlit("SetTrackOctave");
        }
        match self.add_other_with_params_u8("SetTrackOctave", key / 12) {
            Ok(_) => {},
            Err(e) => {
                assert(false);
                return Err(e);
            },
        }
        let evt = PlayNote { velocity: vel, _nbparambytes: 0, octavemod: 2, note: key % 12, keydownduration: 0 };
        let idx = self.add(DSEEvent::PlayNote(evt));
        self.notes_held.set(key as usize, Some((idx, self.current_global_tick)));
        let n = self.programs_used.len();
        if n > 0 {
            let ghost before = self.programs_used@;
            self.programs_used[n - 1].add_note(key, vel);
            proof {
                assert(self.programs_used@.map_values(|p: ProgramUsed| p@) =~= before.map_values(|p: ProgramUsed| p@).update(
                    n - 1,
                    ProgramUsedView { notes: before[n - 1]@.notes.insert((key, vel)), ..before[n - 1]@ },
                ));
            }
        }
        Ok(())
    }

    /// Moves the track's clock on to `new_global_tick` with pause events.
    pub fn fix_current_global_tick(&mut self, new_global_tick: u128) -> (r: Result<(), DSEError>)
        requires
            spec_writer_wf(old(self)@),
            old(self)@.tick <= new_global_tick,
        ensures
            spec_writer_wf(final(self)@),
            r is Ok,
            final(self)@ == (TrkChunkWriterView {
                tick: new_global_tick,
                events: old(self)@.events + spec_pauses((new_global_tick - old(self)@.tick) as nat),
                ..old(self)@
            }),
    {
        proof {
            lemma_table_name(0x92);
            lemma_table_name(0x93);
            lemma_table_name(0x94);
            reveal_strlit("Pause8Bits");
            reveal_strlit("Pause16Bits");
            reveal_strlit("Pause24Bits");
        }
        let ghost v0 = self@;
        let ghost total = (new_global_tick - v0.tick) as nat;
        loop
            invariant
                v0 == old(self)@,
                total == new_global_tick - v0.tick,
                spec_writer_wf(self@),
                v0.tick <= self@.tick <= new_global_tick,
                self@ == (TrkChunkWriterView { tick: self@.tick, events: self@.events, ..v0 }),
                self@.events + spec_pauses((new_global_tick - self@.tick) as nat) == v0.events + spec_pauses(total),
                spec_name_to_code("Pause8Bits"@) == Some(0x92u8),
                spec_name_to_code("Pause16Bits"@) == Some(0x93u8),
                spec_name_to_code("Pause24Bits"@) == Some(0x94u8),
            decreases new_global_tick - self@.tick,
        {
            let delta = new_global_tick - self.current_global_tick;
            let ghost ev0 = self@.events;
            if delta == 0 {
                assert(self@.events =~= v0.events + spec_pauses(total));
                return Ok(());
            } else if delta <= 0xFF {
                self.current_global_tick = self.current_global_tick + delta;
                let _ = self.add_other_with_params_u8("Pause8Bits", delta as u8);
                assert(self@.events =~= v0.events + spec_pauses(total));
                return Ok(());
            } else if delta <= 0xFFFF {
                self.current_global_tick = self.current_global_tick + delta;
                let _ = self.add_other_with_params_u16("Pause16Bits", delta as u16, false);
                assert(self@.events =~= v0.events + spec_pauses(total));
                return Ok(());
            } else {
                let step: u32 = if delta <= 0xFF_FFFF { delta as u32 } else { 0xFF_FFFF };
                self.current_global_tick = self.current_global_tick + step as u128;
                let mut bytes: Vec<u8> = Vec::new();
                push_u32(&mut bytes, step);
                let params = params_of(&bytes);
                let _ = self.add(other_event(0x94, params));
                proof {
                    vstd::seq_lib::lemma_concat_associative(ev0, seq![spec_other(0x94, spec_params(le_u32(step)))], spec_pauses((new_global_tick - self@.tick) as nat));
                    assert(ev0.push(spec_other(0x94, spec_params(le_u32(step)))) =~= ev0 + seq![spec_other(0x94, spec_params(le_u32(step)))]);
                }
                if delta <= 0xFF_FFFF {
                    assert(self@.events =~= v0.events + spec_pauses(total));
                    return Ok(());
                }
            }
        }
    }

    /// Closes the track: an "EndOfTrack" event (code 0x98) ends the events,
    /// and the track chunk carries the writer's track and channel ids.
    pub fn close_track(self) -> (r: TrkChunk)
        requires
            spec_writer_wf(self@),
        ensures
            r@ == spec_closed(self@),
    {
        let mut w = self;
        proof {
            lemma_table_name(0x98);
            reveal_strlit("EndOfTrack");
        }
        let _ = w.add_other_no_params("EndOfTrack");
        let mut trk = TrkChunk::default();
        trk.preamble.trkid = w.trkid;
        trk.preamble.chanid = w.chanid;
        trk.events.events = w.trk_events;
        trk
    }
}

} // verus!
