//! MIDI input: the events of a standard MIDI file as plain values, the
//! merging of a multi-track file into one stream, and the copying of that
//! stream into the writers of a song's tracks.
use vstd::prelude::*;
use vstd::multiset::Multiset;
use vstd::utf8::{decode_utf8, valid_utf8};
use vstd::string::StringSliceAdditionalSpecFns;
use crate::dtype::DSEError;
use super::events::{spec_parse_u8, parse_u8, trim_0x, digit_value, lemma_digits_prefix_none, spec_name_to_code, spec_digits, spec_trim_0x, spec_event_info, spec_event_name};
use super::{DSEEvent, SMDL, SMDLView, TrkChunk};
use super::events::Other;
use super::records::{SMDLHeader, SongChunk};
use crate::dtype::{DSELinkBytes, TableView};
use super::midi::{
    ProgramUsed, ProgramUsedView, spec_closed, TrkChunkWriter, other_event, params_of, TrkChunkWriterView, spec_note_off, spec_note_on, spec_other, spec_params, spec_pauses,
    spec_program_event, spec_undo_same_tick, spec_with_event, spec_writer_wf,
};
use crate::codec::{be_u16, lemma_array_from_seq, u16_of_i16, spec_pow256, spec_le_bytes, spec_be_bytes, le_write_uint128, be_write_uint128};
use super::names::lemma_name_to_code_of_lookup;

verus! {

// ---------------------------------------------------------------------------
// MIDI events
// ---------------------------------------------------------------------------

/// A channel message of a MIDI event (the channel is carried beside it).
#[derive(Debug, Clone, Copy, PartialEq, Eq)]
pub enum MidiMessage {
    NoteOff { key: u8, vel: u8 },
    NoteOn { key: u8, vel: u8 },
    Aftertouch { key: u8, vel: u8 },
    Controller { controller: u8, value: u8 },
    ProgramChange { program: u8 },
    ChannelAftertouch { vel: u8 },
    /// The bend from the middle position, in `-0x2000..=0x1FFF`.
    PitchBend { bend: i16 },
}

/// What a MIDI event carries, as far as a song conversion reads it.
#[derive(Debug, Clone)]
pub enum MidiEventKind {
    /// A channel message on channel `channel` (0 to 15).
    Midi { channel: u8, message: MidiMessage },
    SysEx,
    Escape,
    /// A marker meta event with its text bytes.
    Marker(Vec<u8>),
    /// A tempo meta event: microseconds per beat.
    Tempo(u32),
    /// Any other meta event.
    OtherMeta,
}

/// A MIDI event: the ticks since the previous event, and what it carries.
#[derive(Debug, Clone)]
pub struct MidiEvent {
    pub delta: u32,
    pub kind: MidiEventKind,
}

/// The model of what a MIDI event carries.
pub enum MidiEventKindView {
    Midi { channel: u8, message: MidiMessage },
    SysEx,
    Escape,
    Marker(Seq<u8>),
    Tempo(u32),
    OtherMeta,
}

/// The model of a MIDI event.
pub struct MidiEventView {
    pub delta: u32,
    pub kind: MidiEventKindView,
}

impl View for MidiEventKind {
    type V = MidiEventKindView;

    open spec fn view(&self) -> MidiEventKindView {
        match self {
            MidiEventKind::Midi { channel, message } => MidiEventKindView::Midi { channel: *channel, message: *message },
            MidiEventKind::SysEx => MidiEventKindView::SysEx,
            MidiEventKind::Escape => MidiEventKindView::Escape,
            MidiEventKind::Marker(b) => MidiEventKindView::Marker(b@),
            MidiEventKind::Tempo(t) => MidiEventKindView::Tempo(*t),
            MidiEventKind::OtherMeta => MidiEventKindView::OtherMeta,
        }
    }
}

impl View for MidiEvent {
    type V = MidiEventView;

    open spec fn view(&self) -> MidiEventView {
        MidiEventView { delta: self.delta, kind: self.kind@ }
    }
}

impl MidiEvent {
    /// A copy of the event.
    pub fn duplicate(&self) -> (r: MidiEvent)
        ensures
            r@ == self@,
    {
        let kind = match &self.kind {
            MidiEventKind::Midi { channel, message } => MidiEventKind::Midi { channel: *channel, message: *message },
            MidiEventKind::SysEx => MidiEventKind::SysEx,
            MidiEventKind::Escape => MidiEventKind::Escape,
            MidiEventKind::Marker(b) => {
                let c = b.clone();
                assert(c@ =~= b@);
                MidiEventKind::Marker(c)
            },
            MidiEventKind::Tempo(t) => MidiEventKind::Tempo(*t),
            MidiEventKind::OtherMeta => MidiEventKind::OtherMeta,
        };
        MidiEvent { delta: self.delta, kind }
    }
}

// ---------------------------------------------------------------------------
// Text of markers
// ---------------------------------------------------------------------------

/// Whether `c` is white space as `char::is_whitespace` says: the characters
/// of Unicode's White_Space property.
pub open spec fn spec_is_whitespace(c: char) -> bool {
    let v = c as u32;
    ||| 0x09 <= v <= 0x0D
    ||| v == 0x20
    ||| v == 0x85
    ||| v == 0xA0
    ||| v == 0x1680
    ||| 0x2000 <= v <= 0x200A
    ||| v == 0x2028
    ||| v == 0x2029
    ||| v == 0x202F
    ||| v == 0x205F
    ||| v == 0x3000
}

/// `s` without its leading white space.
pub open spec fn spec_trim_start(s: Seq<char>) -> Seq<char>
    decreases s.len(),
{
    if s.len() > 0 && spec_is_whitespace(s[0]) {
        spec_trim_start(s.drop_first())
    } else {
        s
    }
}

/// `s` without its trailing white space.
pub open spec fn spec_trim_end(s: Seq<char>) -> Seq<char>
    decreases s.len(),
{
    if s.len() > 0 && spec_is_whitespace(s.last()) {
        spec_trim_end(s.drop_last())
    } else {
        s
    }
}

/// `s` without its leading and trailing white space, as `str::trim` gives it.
pub open spec fn spec_trim(s: Seq<char>) -> Seq<char> {
    spec_trim_end(spec_trim_start(s))
}

/// Whether `s` starts with `p`.
pub open spec fn spec_starts_with(s: Seq<char>, p: Seq<char>) -> bool {
    s.len() >= p.len() && s.take(p.len() as int) == p
}

/// `s` without its parentheses.
pub open spec fn spec_drop_parens(s: Seq<char>) -> Seq<char> {
    s.filter(|c: char| c != '(' && c != ')')
}

/// The bytes of `s` when each of its characters is ASCII.
pub open spec fn spec_ascii_bytes(s: Seq<char>) -> Option<Seq<u8>> {
    if forall|i: int| 0 <= i < s.len() ==> (s[i] as u32) < 0x80 {
        Some(s.map_values(|c: char| c as u8))
    } else {
        None
    }
}

/// The `u8` that `str::parse` reads from the characters `s`: digits of base
/// ten with an optional leading `+`. A character that is not ASCII is no
/// digit, so its text reads as nothing.
pub open spec fn spec_parse_u8_chars(s: Seq<char>) -> Option<u8> {
    match spec_ascii_bytes(s) {
        Some(b) => spec_parse_u8(b, 10),
        None => None,
    }
}

/// `s` in lower case, as `str::to_lowercase` maps it: Unicode's full
/// lower-case mapping of each character, with the rule for a final sigma.
pub uninterp spec fn spec_lowercase(s: Seq<char>) -> Seq<char>;

/// Calls `str::to_lowercase` on the text of `s`. Claims that the result is
/// the named function of the characters of `s` alone.
#[verifier::external_body]
fn lowercase(s: &Vec<char>) -> (r: Vec<char>)
    ensures
        r@ == spec_lowercase(s@),
{
    s.iter().collect::<String>().to_lowercase().chars().collect()
}

/// Calls `std::str::from_utf8`. Claims what its documentation says: it gives
/// the text exactly when the bytes are valid UTF-8, and the text then has
/// those bytes.
#[verifier::external_body]
fn utf8_text(b: &[u8]) -> (r: Option<&str>)
    ensures
        r is Some <==> valid_utf8(b@),
        r matches Some(s) ==> s.spec_bytes() == b@,
{
    match std::str::from_utf8(b) {
        Ok(s) => Some(s),
        Err(_) => None,
    }
}

/// The characters of `s`.
fn chars_of(s: &str) -> (r: Vec<char>)
    ensures
        r@ == s@,
{
    let mut r: Vec<char> = Vec::new();
    for c in it: s.chars()
        invariant
            r@ == it.seq().take(it.index() as int),
            it.seq() == s@,
    {
        r.push(c);
    }
    assert(r@ =~= s@);
    r
}

fn is_whitespace(c: char) -> (r: bool)
    ensures
        r == spec_is_whitespace(c),
{
    let v = c as u32;
    (0x09 <= v && v <= 0x0D) || v == 0x20 || v == 0x85 || v == 0xA0 || v == 0x1680 || (0x2000 <= v && v <= 0x200A)
        || v == 0x2028 || v == 0x2029 || v == 0x202F || v == 0x205F || v == 0x3000
}

/// The position of the first character from `from` on that is not white
/// space (or the end).
fn skip_whitespace(s: &Vec<char>, from: usize) -> (r: usize)
    requires
        from <= s@.len(),
    ensures
        from <= r <= s@.len(),
        s@.subrange(r as int, s@.len() as int) == spec_trim_start(s@.subrange(from as int, s@.len() as int)),
{
    let n = s.len();
    let mut a = from;
    while a < n && is_whitespace(s[a])
        invariant
            from <= a <= n,
            n == s@.len(),
            spec_trim_start(s@.subrange(a as int, n as int)) == spec_trim_start(s@.subrange(from as int, n as int)),
        decreases n - a,
    {
        assert(s@.subrange(a as int, n as int).drop_first() =~= s@.subrange(a + 1, n as int));
        a = a + 1;
    }
    proof {
        let t = s@.subrange(a as int, n as int);
        if t.len() > 0 {
            assert(t[0] == s@[a as int]);
        }
    }
    a
}

/// The end, from `to` back to `from`, after which only white space follows.
fn skip_whitespace_back(s: &Vec<char>, from: usize, to: usize) -> (r: usize)
    requires
        from <= to <= s@.len(),
    ensures
        from <= r <= to,
        s@.subrange(from as int, r as int) == spec_trim_end(s@.subrange(from as int, to as int)),
{
    let mut b = to;
    while b > from && is_whitespace(s[b - 1])
        invariant
            from <= b <= to,
            to <= s@.len(),
            spec_trim_end(s@.subrange(from as int, b as int)) == spec_trim_end(s@.subrange(from as int, to as int)),
        decreases b - from,
    {
        assert(s@.subrange(from as int, b as int).drop_last() =~= s@.subrange(from as int, b - 1));
        b = b - 1;
    }
    proof {
        let t = s@.subrange(from as int, b as int);
        if t.len() > 0 {
            assert(t.last() == s@[b - 1]);
        }
    }
    b
}

/// The characters of `s` from `a` to `b`.
fn sub_chars(s: &Vec<char>, a: usize, b: usize) -> (r: Vec<char>)
    requires
        a <= b <= s@.len(),
    ensures
        r@ == s@.subrange(a as int, b as int),
{
    let mut r: Vec<char> = Vec::new();
    let mut i = a;
    while i < b
        invariant
            a <= i <= b,
            b <= s@.len(),
            r@ == s@.subrange(a as int, i as int),
        decreases b - i,
    {
        r.push(s[i]);
        assert(r@ =~= s@.subrange(a as int, i + 1));
        i = i + 1;
    }
    r
}

/// `s` without its leading and trailing white space.
fn trim_chars(s: &Vec<char>) -> (r: Vec<char>)
    ensures
        r@ == spec_trim(s@),
{
    let n = s.len();
    let a = skip_whitespace(s, 0);
    assert(s@.subrange(0, n as int) =~= s@);
    let b = skip_whitespace_back(s, a, n);
    sub_chars(s, a, b)
}

/// Whether the characters `a` are those of `b`.
fn chars_eq(a: &Vec<char>, b: &str) -> (r: bool)
    ensures
        r == (a@ == b@),
{
    let bc = chars_of(b);
    if a.len() != bc.len() {
        assert(!(a@ =~= b@));
        return false;
    }
    let mut i: usize = 0;
    while i < a.len()
        invariant
            i <= a@.len(),
            a@.len() == bc@.len(),
            bc@ == b@,
            forall|k: int| 0 <= k < i ==> a@[k] == bc@[k],
        decreases a@.len() - i,
    {
        if a[i] != bc[i] {
            assert(a@[i as int] != bc@[i as int]);
            assert(!(a@ =~= b@));
            return false;
        }
        i = i + 1;
    }
    assert(a@ =~= bc@);
    true
}

/// Whether the characters `a` start with those of `p`.
fn chars_start_with(a: &Vec<char>, p: &str) -> (r: bool)
    ensures
        r == spec_starts_with(a@, p@),
{
    let pc = chars_of(p);
    if a.len() < pc.len() {
        return false;
    }
    let mut i: usize = 0;
    while i < pc.len()
        invariant
            i <= pc@.len(),
            pc@.len() <= a@.len(),
            pc@ == p@,
            forall|k: int| 0 <= k < i ==> a@[k] == pc@[k],
        decreases pc@.len() - i,
    {
        if a[i] != pc[i] {
            assert(a@[i as int] != pc@[i as int]);
            assert(a@.take(pc@.len() as int)[i as int] != pc@[i as int]);
            assert(!(a@.take(pc@.len() as int) =~= p@));
            return false;
        }
        i = i + 1;
    }
    assert(a@.take(pc@.len() as int) =~= pc@);
    true
}

/// The characters of `s` from `from` on, without parentheses.
fn drop_parens(s: &Vec<char>, from: usize) -> (r: Vec<char>)
    requires
        from <= s@.len(),
    ensures
        r@ == spec_drop_parens(s@.subrange(from as int, s@.len() as int)),
{
    let n = s.len();
    let mut r: Vec<char> = Vec::new();
    let mut i = from;
    while i < n
        invariant
            from <= i <= n,
            n == s@.len(),
            r@ == spec_drop_parens(s@.subrange(from as int, i as int)),
        decreases n - i,
    {
        let c = s[i];
        proof {
            let pre = s@.subrange(from as int, i as int);
            let nxt = s@.subrange(from as int, i + 1);
            assert(nxt =~= pre.push(c));
            assert(nxt.drop_last() =~= pre);
            reveal(Seq::filter);
        }
        if c != '(' && c != ')' {
            r.push(c);
        }
        i = i + 1;
    }
    r
}

/// The `u8` that the characters `s` read as in base ten.
fn parse_u8_chars(s: &Vec<char>) -> (r: Option<u8>)
    ensures
        r == spec_parse_u8_chars(s@),
{
    let mut b: Vec<u8> = Vec::new();
    let mut i: usize = 0;
    while i < s.len()
        invariant
            i <= s@.len(),
            b@ == s@.take(i as int).map_values(|c: char| c as u8),
            forall|k: int| 0 <= k < i ==> (s@[k] as u32) < 0x80,
        decreases s@.len() - i,
    {
        let c = s[i];
        if (c as u32) >= 0x80 {
            return None;
        }
        b.push(c as u8);
        assert(b@ =~= s@.take(i + 1).map_values(|c: char| c as u8));
        i = i + 1;
    }
    assert(s@.take(s@.len() as int) =~= s@);
    parse_u8(b.as_slice(), 10)
}

// ---------------------------------------------------------------------------
// Markers
// ---------------------------------------------------------------------------

/// The model of what a marker asks of a song conversion.
pub enum MarkerActionView {
    Ignore,
    LoopStart,
    LoopEnd,
    LoopEndNoReset,
    /// "Signal(n)", with `n` when it reads as a `u8`.
    Signal(Option<u8>),
    /// "dsec" followed by commands.
    Dsec(Seq<char>),
}

/// What a marker asks of a song conversion.
pub enum MarkerAction {
    Ignore,
    LoopStart,
    LoopEnd,
    LoopEndNoReset,
    Signal(Option<u8>),
    Dsec(Vec<char>),
}

impl View for MarkerAction {
    type V = MarkerActionView;

    open spec fn view(&self) -> MarkerActionView {
        match self {
            MarkerAction::Ignore => MarkerActionView::Ignore,
            MarkerAction::LoopStart => MarkerActionView::LoopStart,
            MarkerAction::LoopEnd => MarkerActionView::LoopEnd,
            MarkerAction::LoopEndNoReset => MarkerActionView::LoopEndNoReset,
            MarkerAction::Signal(v) => MarkerActionView::Signal(*v),
            MarkerAction::Dsec(c) => MarkerActionView::Dsec(c@),
        }
    }
}

/// What the marker with the text bytes `b` asks: nothing unless the text is
/// UTF-8; then, trimmed and in lower case, "loopstart", "loopend",
/// "loopendnoreset", or "signal" and a number (parentheses dropped); or,
/// trimmed and as written, "dsec" and commands.
pub open spec fn spec_marker_action(b: Seq<u8>) -> MarkerActionView {
    if !valid_utf8(b) {
        MarkerActionView::Ignore
    } else {
        let t = spec_trim(decode_utf8(b));
        let l = spec_lowercase(t);
        if l == "loopstart"@ {
            MarkerActionView::LoopStart
        } else if l == "loopend"@ {
            MarkerActionView::LoopEnd
        } else if l == "loopendnoreset"@ {
            MarkerActionView::LoopEndNoReset
        } else if spec_starts_with(l, "signal"@) {
            MarkerActionView::Signal(spec_parse_u8_chars(spec_trim(spec_drop_parens(l.skip(6)))))
        } else if spec_starts_with(t, "dsec"@) {
            MarkerActionView::Dsec(spec_trim_start(t.skip(4)))
        } else {
            MarkerActionView::Ignore
        }
    }
}

/// What the marker with the text bytes `b` asks.
pub fn marker_action(b: &[u8]) -> (r: MarkerAction)
    ensures
        r@ == spec_marker_action(b@),
{
    let text = match utf8_text(b) {
        Some(text) => text,
        None => return MarkerAction::Ignore,
    };
    let chars = chars_of(text);
    proof {
        vstd::utf8::encode_utf8_decode_utf8(text@);
    }
    let t = trim_chars(&chars);
    let l = lowercase(&t);
    if chars_eq(&l, "loopstart") {
        MarkerAction::LoopStart
    } else if chars_eq(&l, "loopend") {
        MarkerAction::LoopEnd
    } else if chars_eq(&l, "loopendnoreset") {
        MarkerAction::LoopEndNoReset
    } else if chars_start_with(&l, "signal") {
        proof {
            reveal_strlit("signal");
        }
        let arg = drop_parens(&l, 6);
        assert(l@.subrange(6, l@.len() as int) =~= l@.skip(6));
        let arg = trim_chars(&arg);
        MarkerAction::Signal(parse_u8_chars(&arg))
    } else if chars_start_with(&t, "dsec") {
        proof {
            reveal_strlit("dsec");
        }
        let a = skip_whitespace(&t, 4);
        assert(t@.subrange(4, t@.len() as int) =~= t@.skip(4));
        MarkerAction::Dsec(sub_chars(&t, a, t.len()))
    } else {
        MarkerAction::Ignore
    }
}

// ---------------------------------------------------------------------------
// Copying a MIDI stream into track writers
// ---------------------------------------------------------------------------

/// A program change that still waits for its DSE program id: the index of
/// its "SetProgram" event in its track, and the bank and program selected.
pub type ProgramRequest = (usize, (u8, u8));

/// The writers of a song's tracks and, for each track, its program changes
/// that wait for an id.
#[verifier::ext_equal]
pub struct CopyState {
    pub trks: Seq<TrkChunkWriterView>,
    pub reqs: Seq<Seq<ProgramRequest>>,
}

/// Why the copying of a stream failed.
pub enum CopyFail {
    /// A note was held for more than 0xFFFFFF ticks.
    NotesTooLong,
    /// No event has the name.
    NameLookup(Seq<char>),
    /// The number of a "signal" marker is not a `u8`.
    SignalUnreadable,
    /// A "trk" command of a "dsec" marker names no track number.
    DsecTrkChange(Seq<char>),
    /// A "dsec" command is malformed: the command and what is wrong.
    DsecCommand(Seq<char>, Seq<char>),
    /// A typed argument does not read as its type: the command, the
    /// argument and the type.
    DsecTyped(Seq<char>, Seq<char>, Seq<char>),
    /// A command gives other than the number of bytes its event takes: the
    /// command, the bytes given, the event's name and the bytes it takes.
    DsecArguments(Seq<char>, nat, Seq<char>, nat),
    /// A code below 0x90 names no event.
    EventLookup(u8),
}

/// Whether the error `e` is the failure `f`.
pub open spec fn spec_fail_is(e: DSEError, f: CopyFail) -> bool {
    match f {
        CopyFail::NotesTooLong => e == DSEError::DSESmfNotesTooLong(),
        CopyFail::NameLookup(n) => e matches DSEError::DSEEventNameLookupError(s) && s@ == n,
        CopyFail::SignalUnreadable => e matches DSEError::Invalid(s) && s@ == "MIDI Marker 'Signal(n)' must have a uint8 as its parameter!"@,
        CopyFail::DsecTrkChange(c) => e matches DSEError::InvalidDSECommandFailedToParseTrkChange(s) && s@ == c,
        CopyFail::DsecCommand(c, m) => e matches DSEError::InvalidDSECommand(s, t) && s@ == c && t@ == m,
        CopyFail::DsecTyped(c, a, ty) => e matches DSEError::InvalidDSECommandTypedArgument(s, t, u) && s@ == c && t@ == a && u@ == ty,
        CopyFail::DsecArguments(c, n, name, m) => e matches DSEError::InvalidDSECommandArguments(s, n2, t, m2) && s@ == c && n2 == n && t@ == name && m2 == m,
        CopyFail::EventLookup(code) => e == DSEError::DSEEventLookupError(code),
    }
}

/// How the copying of one event ends: go on, stop copying (the song's loop
/// ends), fail, or halt (the event asks for what cannot be done: a track
/// that does not exist, or a clock set back).
pub enum CopyFlow {
    Go,
    Stop,
    Halt,
    Fail(CopyFail),
}

/// The flow after a note ends or starts.
pub open spec fn spec_note_flow(r: Result<(), DSEError>) -> CopyFlow {
    match r {
        Ok(_) => CopyFlow::Go,
        Err(_) => CopyFlow::Fail(CopyFail::NotesTooLong),
    }
}

/// The writer after its clock moves on to `t`, pause events filling the gap.
pub open spec fn spec_fix(v: TrkChunkWriterView, t: u128) -> TrkChunkWriterView {
    TrkChunkWriterView { tick: t, events: v.events + spec_pauses((t - v.tick) as nat), ..v }
}

/// The program requests after a program change on track `i`: the one of
/// the same tick is taken back and the new one recorded.
pub open spec fn spec_request(reqs: Seq<Seq<ProgramRequest>>, i: int, same: bool, idx: Option<usize>, bank: u8, program: u8) -> Seq<Seq<ProgramRequest>> {
    let l = if same && reqs[i].len() > 0 { reqs[i].drop_last() } else { reqs[i] };
    reqs.update(i, match idx {
        Some(x) => l.push((x, (bank, program))),
        None => l,
    })
}

/// The state after the writer of track `i` becomes `w`.
pub open spec fn spec_set_trk(st: CopyState, i: int, w: TrkChunkWriterView) -> CopyState {
    CopyState { trks: st.trks.update(i, w), ..st }
}

/// The tempo byte of `m` microseconds per beat: the beats per minute,
/// rounded half up and at most 255 (255 for a tempo of 0).
pub open spec fn spec_tempo_byte(m: u32) -> u8 {
    if m == 0 {
        255
    } else {
        let q = (120_000_000 + m) / (2 * m);
        if q > 255 { 255 } else { q as u8 }
    }
}

/// A channel message at tick `t` for track `i`: the track's clock moves on
/// to `t` (but for aftertouch, which is ignored), then a note ends or
/// starts (a note on of velocity 0 ends it), a bank select (controller 0)
/// or program change is recorded, the volume (7), pan (10) or expression
/// (11) is set, or the pitch is bent.
pub open spec fn spec_channel_step(st: CopyState, i: int, t: u128, m: MidiMessage) -> (CopyState, CopyFlow) {
    match m {
        MidiMessage::Aftertouch { .. } => (st, CopyFlow::Go),
        MidiMessage::ChannelAftertouch { .. } => (st, CopyFlow::Go),
        _ => if i >= st.trks.len() || st.trks[i].tick > t {
            (st, CopyFlow::Halt)
        } else {
            let f = spec_fix(st.trks[i], t);
            match m {
                MidiMessage::NoteOn { key, vel } => {
                    let (w, r) = if vel == 0 { spec_note_off(f, key) } else { spec_note_on(f, key, vel) };
                    (spec_set_trk(st, i, w), spec_note_flow(r))
                },
                MidiMessage::NoteOff { key, .. } => {
                    let (w, r) = spec_note_off(f, key);
                    (spec_set_trk(st, i, w), spec_note_flow(r))
                },
                MidiMessage::Controller { controller, value } => if controller == 0 {
                    let (w, idx, same) = spec_program_event(TrkChunkWriterView { bank: value, ..f }, false, Some(0u8));
                    (CopyState { trks: st.trks.update(i, w), reqs: spec_request(st.reqs, i, same, idx, w.bank, w.program) }, CopyFlow::Go)
                } else if controller == 7 {
                    (spec_set_trk(st, i, spec_with_event(f, spec_other(0xE0, spec_params(seq![value])))), CopyFlow::Go)
                } else if controller == 10 {
                    (spec_set_trk(st, i, spec_with_event(f, spec_other(0xE8, spec_params(seq![value])))), CopyFlow::Go)
                } else if controller == 11 {
                    (spec_set_trk(st, i, spec_with_event(f, spec_other(0xE3, spec_params(seq![value])))), CopyFlow::Go)
                } else {
                    (spec_set_trk(st, i, f), CopyFlow::Go)
                },
                MidiMessage::ProgramChange { program } => {
                    let (w, idx, same) = spec_program_event(TrkChunkWriterView { program, ..f }, false, Some(0u8));
                    (CopyState { trks: st.trks.update(i, w), reqs: spec_request(st.reqs, i, same, idx, w.bank, w.program) }, CopyFlow::Go)
                },
                MidiMessage::PitchBend { bend } => {
                    (spec_set_trk(st, i, spec_with_event(f, spec_other(0xD7, spec_params(be_u16(u16_of_i16(bend)))))), CopyFlow::Go)
                },
                _ => (st, CopyFlow::Go),
            }
        },
    }
}

/// Every track from `k` on moves on to tick `t` and gets a "LoopPoint"
/// event; the flow halts at a track whose clock is past `t`.
pub open spec fn spec_loop_start(trks: Seq<TrkChunkWriterView>, k: nat, t: u128) -> (Seq<TrkChunkWriterView>, CopyFlow)
    decreases trks.len() - k,
{
    if k >= trks.len() {
        (trks, CopyFlow::Go)
    } else if trks[k as int].tick > t {
        (trks, CopyFlow::Halt)
    } else {
        spec_loop_start(trks.update(k as int, spec_with_event(spec_fix(trks[k as int], t), spec_other(0x99, spec_params(Seq::empty())))), k + 1, t)
    }
}

/// The notes on keys `key` to 254 end, one after the other, until one fails.
pub open spec fn spec_notes_off(v: TrkChunkWriterView, key: nat) -> (TrkChunkWriterView, Result<(), DSEError>)
    decreases 255 - key,
{
    if key >= 255 {
        (v, Ok(()))
    } else {
        let (w, r) = spec_note_off(v, key as u8);
        if r is Err {
            (w, r)
        } else {
            spec_notes_off(w, key + 1)
        }
    }
}

/// Every track from `k` on moves on to tick `t` and ends its notes on keys
/// 0 to 254; then the copying stops.
pub open spec fn spec_loop_end(trks: Seq<TrkChunkWriterView>, k: nat, t: u128) -> (Seq<TrkChunkWriterView>, CopyFlow)
    decreases trks.len() - k,
{
    if k >= trks.len() {
        (trks, CopyFlow::Stop)
    } else if trks[k as int].tick > t {
        (trks, CopyFlow::Halt)
    } else {
        let (w, r) = spec_notes_off(spec_fix(trks[k as int], t), 0);
        if r is Err {
            (trks.update(k as int, w), CopyFlow::Fail(CopyFail::NotesTooLong))
        } else {
            spec_loop_end(trks.update(k as int, w), k + 1, t)
        }
    }
}


// ---------------------------------------------------------------------------
// Commands of "dsec" markers
// ---------------------------------------------------------------------------

/// The pieces of `s` between the separators `sep`, as `str::split` gives
/// them (one piece, maybe empty, more than there are separators).
pub open spec fn spec_split(s: Seq<char>, sep: char) -> Seq<Seq<char>>
    decreases s.len(),
{
    if s.len() == 0 {
        seq![Seq::empty()]
    } else {
        let p = spec_split(s.drop_last(), sep);
        if s.last() == sep {
            p.push(Seq::empty())
        } else {
            p.update(p.len() - 1, p.last().push(s.last()))
        }
    }
}

/// The integer that `from_str_radix` reads from `s` for an integer type of
/// the range `lo..=hi`: an optional `+` (or `-` when the type has negative
/// numbers), then at least one digit.
pub open spec fn spec_parse_int(s: Seq<u8>, radix: nat, lo: int, hi: int) -> Option<int> {
    if s.len() == 0 {
        None
    } else if s.len() == 1 && (s[0] == 0x2Bu8 || s[0] == 0x2Du8) {
        None
    } else {
        let neg = s[0] == 0x2Du8 && lo < 0;
        let d = if s[0] == 0x2Bu8 || neg { s.drop_first() } else { s };
        match spec_digits(d, radix) {
            Some(v) => {
                let x = if neg { -v } else { v as int };
                if lo <= x <= hi { Some(x) } else { None }
            },
            None => None,
        }
    }
}

/// The smallest integer of a type of `w` bytes.
pub open spec fn spec_int_lo(signed: bool, w: nat) -> int {
    if signed { -(spec_pow256(w) / 2) } else { 0 }
}

/// The largest integer of a type of `w` bytes.
pub open spec fn spec_int_hi(signed: bool, w: nat) -> int {
    if signed { spec_pow256(w) / 2 - 1 } else { spec_pow256(w) - 1 }
}

/// The integer that the characters `s` read as for the type: in base ten,
/// else in base sixteen after the leading "0x"s.
pub open spec fn spec_parse_typed(s: Seq<char>, signed: bool, w: nat) -> Option<int> {
    match spec_ascii_bytes(s) {
        None => None,
        Some(b) => match spec_parse_int(b, 10, spec_int_lo(signed, w), spec_int_hi(signed, w)) {
            Some(x) => Some(x),
            None => spec_parse_int(spec_trim_0x(b), 16, spec_int_lo(signed, w), spec_int_hi(signed, w)),
        },
    }
}

/// The bits of `x` in `w` bytes, two's complement.
pub open spec fn spec_twos(x: int, w: nat) -> nat {
    if x < 0 { (x + spec_pow256(w)) as nat } else { x as nat }
}

/// The type an argument's suffix names: signed or not, its bytes, and
/// whether its bytes go most significant first.
pub open spec fn spec_arg_type(t: Seq<char>) -> Option<(bool, nat, bool)> {
    if t == "i8"@ { Some((true, 1, false)) }
    else if t == "u8"@ { Some((false, 1, false)) }
    else if t == "i16le"@ { Some((true, 2, false)) }
    else if t == "u16le"@ { Some((false, 2, false)) }
    else if t == "i32le"@ { Some((true, 4, false)) }
    else if t == "u32le"@ { Some((false, 4, false)) }
    else if t == "i64le"@ { Some((true, 8, false)) }
    else if t == "u64le"@ { Some((false, 8, false)) }
    else if t == "i128le"@ { Some((true, 16, false)) }
    else if t == "u128le"@ { Some((false, 16, false)) }
    else if t == "i16be"@ { Some((true, 2, true)) }
    else if t == "u16be"@ { Some((false, 2, true)) }
    else if t == "i32be"@ { Some((true, 4, true)) }
    else if t == "u32be"@ { Some((false, 4, true)) }
    else if t == "i64be"@ { Some((true, 8, true)) }
    else if t == "u64be"@ { Some((false, 8, true)) }
    else if t == "i128be"@ { Some((true, 16, true)) }
    else if t == "u128be"@ { Some((false, 16, true)) }
    else { None }
}

/// What an argument of a "dsec" command gives.
pub enum ArgBytes {
    Bytes(Seq<u8>),
    /// The argument (trimmed, in lower case) and its type, which it does
    /// not read as.
    BadTyped(Seq<char>, Seq<char>),
    /// The argument, which reads as no byte.
    BadValue(Seq<char>),
}

/// The bytes of an argument as written between commas: trimmed and in
/// lower case, nothing when empty; "value_type" gives the value in the
/// bytes of its type; else the value as an `i8`, or else as a `u8`.
pub open spec fn spec_dsec_arg(raw: Seq<char>) -> ArgBytes {
    let arg = spec_lowercase(spec_trim(raw));
    if arg.len() == 0 {
        ArgBytes::Bytes(Seq::empty())
    } else {
        let typed = spec_split(arg, '_').map_values(|p: Seq<char>| spec_trim(p));
        if typed.len() == 2 {
            match spec_arg_type(typed[1]) {
                None => ArgBytes::BadTyped(arg, typed[1]),
                Some((signed, w, be)) => match spec_parse_typed(typed[0], signed, w) {
                    Some(x) => ArgBytes::Bytes(if be { spec_be_bytes(spec_twos(x, w), w) } else { spec_le_bytes(spec_twos(x, w), w) }),
                    None => ArgBytes::BadTyped(arg, typed[1]),
                },
            }
        } else {
            match spec_parse_typed(arg, true, 1) {
                Some(x) => ArgBytes::Bytes(seq![spec_twos(x, 1) as u8]),
                None => match spec_parse_typed(arg, false, 1) {
                    Some(x) => ArgBytes::Bytes(seq![x as u8]),
                    None => ArgBytes::BadValue(arg),
                },
            }
        }
    }
}

/// The bytes of the arguments `args[k..]` after `acc`, or the first failure.
pub open spec fn spec_dsec_args(cmd: Seq<char>, args: Seq<Seq<char>>, k: nat, acc: Seq<u8>) -> Result<Seq<u8>, CopyFail>
    decreases args.len() - k,
{
    if k >= args.len() {
        Ok(acc)
    } else {
        match spec_dsec_arg(args[k as int]) {
            ArgBytes::Bytes(b) => spec_dsec_args(cmd, args, k + 1, acc + b),
            ArgBytes::BadTyped(a, t) => Err(CopyFail::DsecTyped(cmd, a, t)),
            ArgBytes::BadValue(a) => Err(CopyFail::DsecCommand(cmd, "Value '"@ + a + "' could not be parsed!"@)),
        }
    }
}

/// The bytes of the UTF-8 encoding of `c`.
pub open spec fn spec_utf8_len(c: char) -> nat {
    let v = c as u32;
    if v < 0x80 { 1 } else if v < 0x800 { 2 } else if v < 0x10000 { 3 } else { 4 }
}

/// The bytes of the UTF-8 encoding of `s`.
pub open spec fn spec_byte_len(s: Seq<char>) -> nat
    decreases s.len(),
{
    if s.len() == 0 { 0 } else { spec_byte_len(s.drop_last()) + spec_utf8_len(s.last()) }
}

/// The number of characters, from `q` on, whose encoding takes the first
/// `b` bytes of `s`: where slicing `s` at byte `b` cuts it, if between
/// characters.
pub open spec fn spec_char_at_byte(s: Seq<char>, b: int, q: nat) -> Option<nat>
    decreases s.len() - q,
{
    if spec_byte_len(s.take(q as int)) == b {
        Some(q)
    } else if q >= s.len() {
        None
    } else {
        spec_char_at_byte(s, b, q + 1)
    }
}

/// The position of the first `c` in `s`.
pub open spec fn spec_find_char(s: Seq<char>, c: char) -> Option<nat>
    decreases s.len(),
{
    if s.len() == 0 {
        None
    } else {
        match spec_find_char(s.drop_last(), c) {
            Some(i) => Some(i),
            None => if s.last() == c { Some((s.len() - 1) as nat) } else { None },
        }
    }
}

/// The name and argument bytes of a command (trimmed), or how it fails or
/// halts (`None`: it cuts the text inside a character). With a `(`, the
/// name is what comes before it and the arguments, between commas, what
/// comes after it up to a closing `)`; the text is cut at the byte whose
/// number is the position of the `(` counted in characters.
pub open spec fn spec_dsec_parts(cmd: Seq<char>) -> Option<Result<(Seq<char>, Seq<u8>), CopyFail>> {
    match spec_find_char(cmd, '(') {
        None => Some(Ok((cmd, Seq::empty()))),
        Some(p) => match (spec_char_at_byte(cmd, p as int, 0), spec_char_at_byte(cmd, p + 1 as int, 0)) {
            (Some(qa), Some(qb)) => {
                let name = spec_trim_end(cmd.take(qa as int));
                let rest = spec_trim_start(cmd.skip(qb as int));
                if rest.len() == 0 || rest.last() != ')' {
                    Some(Err(CopyFail::DsecCommand(cmd, "Opening parentheses must be closed!!"@)))
                } else {
                    let args = spec_split(spec_trim_end(rest.drop_last()), ',');
                    match spec_dsec_args(cmd, args, 0, Seq::empty()) {
                        Ok(b) => Some(Ok((name, b))),
                        Err(f) => Some(Err(f)),
                    }
                }
            },
            _ => None,
        },
    }
}

/// The `usize` that the characters `s` read as in base ten.
pub open spec fn spec_parse_usize(s: Seq<char>) -> Option<nat> {
    match spec_ascii_bytes(s) {
        None => None,
        Some(b) => match spec_parse_int(b, 10, 0, usize::MAX as int) {
            Some(x) => Some(x as nat),
            None => None,
        },
    }
}

/// One command of a "dsec" marker at tick `t`, with the commands going to
/// track `trk`: "trk n" sends the next ones to track `n`, "evttrk" to track
/// 0; any other names an event, with argument bytes as many as the event
/// takes, and adds it to the track after its clock moves on to `t`. Gives
/// the state, the track for the next command, and the flow.
pub open spec fn spec_dsec_cmd(st: CopyState, trk: nat, t: u128, raw: Seq<char>) -> (CopyState, nat, CopyFlow) {
    let cmd = spec_trim(raw);
    if spec_starts_with(cmd, "trk"@) {
        match spec_parse_usize(spec_trim_start(cmd.skip(3))) {
            Some(n) => (st, n, CopyFlow::Go),
            None => (st, trk, CopyFlow::Fail(CopyFail::DsecTrkChange(cmd))),
        }
    } else if spec_starts_with(cmd, "evttrk"@) {
        (st, 0, CopyFlow::Go)
    } else {
        match spec_dsec_parts(cmd) {
            None => (st, trk, CopyFlow::Halt),
            Some(Err(f)) => (st, trk, CopyFlow::Fail(f)),
            Some(Ok((name, args))) => match spec_name_to_code(name) {
                None => (st, trk, CopyFlow::Fail(CopyFail::NameLookup(name))),
                Some(code) => match spec_event_info(code) {
                    None => (st, trk, CopyFlow::Fail(CopyFail::EventLookup(code))),
                    Some(info) => if args.len() != info.2 {
                        (st, trk, CopyFlow::Fail(CopyFail::DsecArguments(cmd, args.len(), spec_event_name(code), info.2 as nat)))
                    } else if trk >= st.trks.len() || st.trks[trk as int].tick > t {
                        (st, trk, CopyFlow::Halt)
                    } else {
                        (spec_set_trk(st, trk as int, spec_with_event(spec_fix(st.trks[trk as int], t), spec_other(code, spec_params(args)))), trk, CopyFlow::Go)
                    },
                },
            },
        }
    }
}

/// The commands `cmds[k..]` of a "dsec" marker, the next going to track `trk`.
pub open spec fn spec_dsec(st: CopyState, trk: nat, t: u128, cmds: Seq<Seq<char>>, k: nat) -> (CopyState, CopyFlow)
    decreases cmds.len() - k,
{
    if k >= cmds.len() {
        (st, CopyFlow::Go)
    } else {
        let (st2, trk2, flow) = spec_dsec_cmd(st, trk, t, cmds[k as int]);
        match flow {
            CopyFlow::Go => spec_dsec(st2, trk2, t, cmds, k + 1),
            _ => (st2, flow),
        }
    }
}

/// A marker at tick `t`.
pub open spec fn spec_marker_step(st: CopyState, t: u128, b: Seq<u8>) -> (CopyState, CopyFlow) {
    match spec_marker_action(b) {
        MarkerActionView::LoopStart => {
            let (trks, flow) = spec_loop_start(st.trks, 0, t);
            (CopyState { trks, ..st }, flow)
        },
        MarkerActionView::LoopEnd => {
            let (trks, flow) = spec_loop_end(st.trks, 0, t);
            (CopyState { trks, ..st }, flow)
        },
        MarkerActionView::LoopEndNoReset => (st, CopyFlow::Stop),
        MarkerActionView::Signal(None) => (st, CopyFlow::Fail(CopyFail::SignalUnreadable)),
        MarkerActionView::Dsec(text) => spec_dsec(st, 0, t, spec_split(text, ';'), 0),
        MarkerActionView::Signal(Some(v)) => if st.trks.len() == 0 || st.trks[0].tick > t {
            (st, CopyFlow::Halt)
        } else {
            let f = spec_fix(st.trks[0], t);
            match spec_name_to_code("Signal"@) {
                Some(c) => (spec_set_trk(st, 0, spec_with_event(f, spec_other(c, spec_params(seq![v])))), CopyFlow::Go),
                None => (spec_set_trk(st, 0, f), CopyFlow::Fail(CopyFail::NameLookup("Signal"@))),
            }
        },
        _ => (st, CopyFlow::Go),
    }
}

/// One event at tick `t`: a channel message goes to the track of its
/// channel plus one; a tempo sets the tempo on track 0; a marker acts as it
/// asks; the rest is ignored.
pub open spec fn spec_copy_step(st: CopyState, t: u128, e: MidiEventView) -> (CopyState, CopyFlow) {
    match e.kind {
        MidiEventKindView::Midi { channel, message } => spec_channel_step(st, channel + 1, t, message),
        MidiEventKindView::Tempo(m) => if st.trks.len() == 0 || st.trks[0].tick > t {
            (st, CopyFlow::Halt)
        } else {
            (spec_set_trk(st, 0, spec_with_event(spec_fix(st.trks[0], t), spec_other(0xA4, spec_params(seq![spec_tempo_byte(m)])))), CopyFlow::Go)
        },
        MidiEventKindView::Marker(b) => spec_marker_step(st, t, b),
        _ => (st, CopyFlow::Go),
    }
}

/// Every track from `k` on moves on to tick `t`.
pub open spec fn spec_fix_all(trks: Seq<TrkChunkWriterView>, k: nat, t: u128) -> (Seq<TrkChunkWriterView>, bool)
    decreases trks.len() - k,
{
    if k >= trks.len() {
        (trks, false)
    } else if trks[k as int].tick > t {
        (trks, true)
    } else {
        spec_fix_all(trks.update(k as int, spec_fix(trks[k as int], t)), k + 1, t)
    }
}

/// The end of a copy: the writers, the program requests, the final tick or
/// the failure, and whether it halted.
#[verifier::ext_equal]
pub struct CopyOutcome {
    pub trks: Seq<TrkChunkWriterView>,
    pub reqs: Seq<Seq<ProgramRequest>>,
    pub result: Result<u128, CopyFail>,
    pub halted: bool,
}

/// The end of a copy that stops at tick `t`: every track moves on to `t`.
pub open spec fn spec_copy_finish(st: CopyState, t: u128) -> CopyOutcome {
    let (trks, halted) = spec_fix_all(st.trks, 0, t);
    CopyOutcome { trks, reqs: st.reqs, result: Ok(t), halted }
}

proof fn lemma_fix_all_ticks(trks: Seq<TrkChunkWriterView>, k: nat, t: u128)
    ensures
        spec_fix_all(trks, k, t).0.len() == trks.len(),
        forall|m: int| 0 <= m < k && m < trks.len() ==> #[trigger] spec_fix_all(trks, k, t).0[m] == trks[m],
        !spec_fix_all(trks, k, t).1 ==> forall|m: int| k <= m < trks.len() ==> (#[trigger] spec_fix_all(trks, k, t).0[m]).tick == t,
    decreases trks.len() - k,
{
    if k < trks.len() && trks[k as int].tick <= t {
        let u = trks.update(k as int, spec_fix(trks[k as int], t));
        lemma_fix_all_ticks(u, k + 1, t);
    }
}

/// The copy of the events from `i` on, with the clock at `tick`: each
/// event's delta moves the clock on, then the event is copied; after the
/// last event or a loop end, every track moves on to the clock.
pub open spec fn spec_copy(evs: Seq<MidiEventView>, i: nat, st: CopyState, tick: u128) -> CopyOutcome
    decreases evs.len() - i,
{
    if i >= evs.len() {
        spec_copy_finish(st, tick)
    } else {
        let t = (tick + evs[i as int].delta) as u128;
        let (st2, flow) = spec_copy_step(st, t, evs[i as int]);
        match flow {
            CopyFlow::Go => spec_copy(evs, i + 1, st2, t),
            CopyFlow::Stop => spec_copy_finish(st2, t),
            CopyFlow::Halt => CopyOutcome { trks: st2.trks, reqs: st2.reqs, result: Ok(t), halted: true },
            CopyFlow::Fail(f) => CopyOutcome { trks: st2.trks, reqs: st2.reqs, result: Err(f), halted: false },
        }
    }
}

/// The models of track writers.
pub open spec fn spec_trk_views(t: Seq<TrkChunkWriter>) -> Seq<TrkChunkWriterView> {
    t.map_values(|w: TrkChunkWriter| w@)
}

/// The models of per-track program requests.
pub open spec fn spec_req_views(r: Seq<Vec<ProgramRequest>>) -> Seq<Seq<ProgramRequest>> {
    r.map_values(|v: Vec<ProgramRequest>| v@)
}

/// Whether every writer of `s` is consistent.
pub open spec fn spec_all_wf(s: Seq<TrkChunkWriterView>) -> bool {
    forall|k: int| 0 <= k < s.len() ==> #[trigger] spec_writer_wf(s[k])
}

/// The copy state of writers and requests.
pub open spec fn spec_state(trks: Seq<TrkChunkWriter>, reqs: Seq<Vec<ProgramRequest>>) -> CopyState {
    CopyState { trks: spec_trk_views(trks), reqs: spec_req_views(reqs) }
}

/// Records a program change of track `i` that waits for its id.
fn record_request(reqs: &mut Vec<Vec<ProgramRequest>>, i: usize, same: bool, idx: Option<usize>, bank: u8, program: u8)
    requires
        i < old(reqs)@.len(),
    ensures
        spec_req_views(final(reqs)@) == spec_request(spec_req_views(old(reqs)@), i as int, same, idx, bank, program),
{
    let ghost before = spec_req_views(reqs@);
    let ghost l0 = reqs@[i as int]@;
    if same && reqs[i].len() > 0 {
        let _ = reqs[i].pop();
    }
    match idx {
        Some(x) => {
            reqs[i].push((x, (bank, program)));
        },
        None => {},
    }
    proof {
        let l = if same && l0.len() > 0 { l0.drop_last() } else { l0 };
        assert(reqs@[i as int]@ =~= match idx {
            Some(x) => l.push((x, (bank, program))),
            None => l,
        });
        assert(spec_req_views(reqs@) =~= spec_request(before, i as int, same, idx, bank, program));
    }
}

/// Copies a channel message at tick `t` into track `i`; gives whether it
/// halts the copy.
fn copy_channel(trks: &mut Vec<TrkChunkWriter>, reqs: &mut Vec<Vec<ProgramRequest>>, i: usize, t: u128, m: MidiMessage) -> (r: Result<bool, DSEError>)
    requires
        spec_all_wf(spec_trk_views(old(trks)@)),
        old(reqs)@.len() == old(trks)@.len(),
        spec_reqs_ok(spec_trk_views(old(trks)@), spec_req_views(old(reqs)@)),
    ensures
        ({
            let (st, flow) = spec_channel_step(spec_state(old(trks)@, old(reqs)@), i as int, t, m);
            &&& (flow is Halt <==> r == Ok::<bool, DSEError>(true))
            &&& !(flow is Halt) ==> {
                &&& spec_state(final(trks)@, final(reqs)@) == st
                &&& spec_all_wf(st.trks)
                &&& spec_reqs_ok(st.trks, st.reqs)
                &&& final(reqs)@.len() == final(trks)@.len()
                &&& (flow is Go <==> r == Ok::<bool, DSEError>(false))
                &&& (flow matches CopyFlow::Fail(f) ==> r matches Err(e) && spec_fail_is(e, f))
            }
        }),
{
    let ghost st0 = spec_state(trks@, reqs@);
    match m {
        MidiMessage::Aftertouch { .. } => return Ok(false),
        MidiMessage::ChannelAftertouch { .. } => return Ok(false),
        _ => {},
    }
    if i >= trks.len() || trks[i].current_global_tick > t {
        return Ok(true);
    }
    assert(spec_writer_wf(st0.trks[i as int]));
    let _ = trks[i].fix_current_global_tick(t);
    let ghost f = spec_fix(st0.trks[i as int], t);
    assert(trks@[i as int]@ == f);
    let _n_events = trks[i].trk_events.len();
    assert(f.events.len() <= usize::MAX);
    proof {
        lemma_fix_keeps(st0.trks[i as int], t);
        assert(spec_keeps_others(f.events, f.events));
    }
    proof {
        lemma_name_to_code_of_lookup(0xE0);
        lemma_name_to_code_of_lookup(0xE8);
        lemma_name_to_code_of_lookup(0xE3);
        lemma_name_to_code_of_lookup(0xD7);
        reveal_strlit("SetTrackVolume");
        reveal_strlit("SetTrackPan");
        reveal_strlit("SetTrackExpression");
        reveal_strlit("PitchBend");
    }
    let r = match m {
        MidiMessage::NoteOn { key, vel } => {
            proof {
                lemma_note_off_keeps(f, key);
                lemma_note_on_keeps(f, key, vel);
            }
            if vel == 0 {
                trks[i].note_off(key)
            } else {
                trks[i].note_on(key, vel)
            }
        },
        MidiMessage::NoteOff { key, .. } => {
            proof {
                lemma_note_off_keeps(f, key);
            }
            trks[i].note_off(key)
        },
        MidiMessage::Controller { controller, value } => {
            if controller == 0 {
                proof {
                    lemma_reqs_program(st0.trks, st0.reqs, i as int, TrkChunkWriterView { bank: value, ..f });
                }
                match trks[i].bank_select(value, false, Some(0)) {
                    Ok((idx, same)) => {
                        let bank = trks[i].bank;
                        let program = trks[i].program;
                        record_request(reqs, i, same, idx, bank, program);
                    },
                    Err(_) => {},
                }
            } else if controller == 7 {
                let _ = trks[i].add_other_with_params_u8("SetTrackVolume", value);
            } else if controller == 10 {
                let _ = trks[i].add_other_with_params_u8("SetTrackPan", value);
            } else if controller == 11 {
                let _ = trks[i].add_other_with_params_u8("SetTrackExpression", value);
            }
            Ok(())
        },
        MidiMessage::ProgramChange { program } => {
            proof {
                lemma_reqs_program(st0.trks, st0.reqs, i as int, TrkChunkWriterView { program, ..f });
            }
            match trks[i].program_change(program, false, Some(0)) {
                Ok((idx, same)) => {
                    let bank = trks[i].bank;
                    let program = trks[i].program;
                    record_request(reqs, i, same, idx, bank, program);
                },
                Err(_) => {},
            }
            Ok(())
        },
        MidiMessage::PitchBend { bend } => {
            let _ = trks[i].add_other_with_params_i16("PitchBend", bend, true);
            Ok(())
        },
        _ => Ok(()),
    };
    proof {
        let (st, flow) = spec_channel_step(st0, i as int, t, m);
        assert(spec_trk_views(trks@) =~= st.trks);
        assert(spec_req_views(reqs@) =~= st.reqs);
        match m {
            MidiMessage::Controller { controller, value } => {
                if controller != 0 {
                    lemma_reqs_after(st0, i as int, t, st.trks[i as int]);
                }
            },
            MidiMessage::ProgramChange { .. } => {},
            _ => {
                lemma_reqs_after(st0, i as int, t, st.trks[i as int]);
            },
        }
    }
    match r {
        Ok(()) => Ok(false),
        Err(e) => Err(e),
    }
}

/// Moves every track on to tick `t` and adds a "LoopPoint" event to each;
/// gives whether a track's clock is past `t`, which halts the copy.
fn loop_start(trks: &mut Vec<TrkChunkWriter>, reqs: &Vec<Vec<ProgramRequest>>, t: u128) -> (r: bool)
    requires
        spec_all_wf(spec_trk_views(old(trks)@)),
        spec_reqs_ok(spec_trk_views(old(trks)@), spec_req_views(reqs@)),
    ensures
        r == (spec_loop_start(spec_trk_views(old(trks)@), 0, t).1 is Halt),
        !r ==> spec_trk_views(final(trks)@) == spec_loop_start(spec_trk_views(old(trks)@), 0, t).0,
        !r ==> spec_reqs_ok(spec_trk_views(final(trks)@), spec_req_views(reqs@)),
        !r ==> spec_all_wf(spec_trk_views(final(trks)@)),
        final(trks)@.len() == old(trks)@.len(),
{
    proof {
        lemma_name_to_code_of_lookup(0x99);
        reveal_strlit("LoopPoint");
    }
    let ghost goal = spec_loop_start(spec_trk_views(trks@), 0, t);
    let n = trks.len();
    let mut k: usize = 0;
    while k < n
        invariant
            k <= n,
            n == trks@.len(),
            spec_all_wf(spec_trk_views(trks@)),
            spec_loop_start(spec_trk_views(trks@), k as nat, t) == goal,
            spec_reqs_ok(spec_trk_views(trks@), spec_req_views(reqs@)),
            goal == spec_loop_start(spec_trk_views(old(trks)@), 0, t),
            n == old(trks)@.len(),
            spec_name_to_code("LoopPoint"@) == Some(0x99u8),
        decreases n - k,
    {
        let ghost v = spec_trk_views(trks@);
        if trks[k].current_global_tick > t {
            return true;
        }
        assert(spec_writer_wf(v[k as int]));
        let _ = trks[k].fix_current_global_tick(t);
        let _ = trks[k].add_other_no_params("LoopPoint");
        assert(spec_trk_views(trks@) =~= v.update(k as int, spec_with_event(spec_fix(v[k as int], t), spec_other(0x99, spec_params(Seq::empty())))));
        proof {
            lemma_reqs_after(CopyState { trks: v, reqs: spec_req_views(reqs@) }, k as int, t, spec_with_event(spec_fix(v[k as int], t), spec_other(0x99, spec_params(Seq::empty()))));
        }
        k = k + 1;
    }
    assert(spec_loop_start(spec_trk_views(trks@), k as nat, t).0 == spec_trk_views(trks@));
    false
}

/// Ends the notes on keys 0 to 254 of track `k`, one after the other, until
/// one fails.
fn notes_off(trks: &mut Vec<TrkChunkWriter>, k: usize) -> (r: Result<(), DSEError>)
    requires
        k < old(trks)@.len(),
        spec_all_wf(spec_trk_views(old(trks)@)),
    ensures
        ({
            let (w, res) = spec_notes_off(old(trks)@[k as int]@, 0);
            &&& spec_trk_views(final(trks)@) == spec_trk_views(old(trks)@).update(k as int, w)
            &&& r == res
        }),
        spec_all_wf(spec_trk_views(final(trks)@)),
        final(trks)@.len() == old(trks)@.len(),
{
    let ghost v0 = spec_trk_views(trks@);
    let ghost goal = spec_notes_off(v0[k as int], 0);
    let mut key: u8 = 0;
    while key < 255
        invariant
            k < trks@.len(),
            spec_all_wf(spec_trk_views(trks@)),
            spec_trk_views(trks@) == v0.update(k as int, trks@[k as int]@),
            spec_notes_off(trks@[k as int]@, key as nat) == goal,
            v0.len() == trks@.len(),
            v0 == spec_trk_views(old(trks)@),
            goal == spec_notes_off(old(trks)@[k as int]@, 0),
            old(trks)@.len() == trks@.len(),
        decreases 255 - key,
    {
        let ghost v = spec_trk_views(trks@);
        assert(spec_writer_wf(v[k as int]));
        let r = trks[k].note_off(key);
        assert(spec_trk_views(trks@) =~= v.update(k as int, trks@[k as int]@));
        assert(v.update(k as int, trks@[k as int]@) =~= v0.update(k as int, trks@[k as int]@));
        if r.is_err() {
            return r;
        }
        key = key + 1;
    }
    Ok(())
}


/// A failure to end the notes is that a note was held too long.
proof fn lemma_notes_off_error(v: TrkChunkWriterView, key: nat)
    ensures
        spec_notes_off(v, key).1 is Err ==> spec_notes_off(v, key).1 == Err::<(), DSEError>(DSEError::DSESmfNotesTooLong()),
    decreases 255 - key,
{
    if key < 255 {
        let (w, r) = spec_note_off(v, key as u8);
        if r is Ok {
            lemma_notes_off_error(w, key + 1);
        }
    }
}

/// Moves every track on to tick `t` and ends its notes on keys 0 to 254;
/// gives whether a track's clock is past `t`, which halts the copy.
fn loop_end(trks: &mut Vec<TrkChunkWriter>, reqs: &Vec<Vec<ProgramRequest>>, t: u128) -> (r: Result<bool, DSEError>)
    requires
        spec_all_wf(spec_trk_views(old(trks)@)),
        spec_reqs_ok(spec_trk_views(old(trks)@), spec_req_views(reqs@)),
    ensures
        ({
            let (trks_after, flow) = spec_loop_end(spec_trk_views(old(trks)@), 0, t);
            &&& (flow is Halt <==> r == Ok::<bool, DSEError>(true))
            &&& !(flow is Halt) ==> {
                &&& spec_reqs_ok(spec_trk_views(final(trks)@), spec_req_views(reqs@))
                &&& spec_trk_views(final(trks)@) == trks_after
                &&& (flow is Stop <==> r == Ok::<bool, DSEError>(false))
                &&& (flow matches CopyFlow::Fail(f) ==> r matches Err(e) && spec_fail_is(e, f))
                &&& spec_all_wf(spec_trk_views(final(trks)@))
            }
        }),
        final(trks)@.len() == old(trks)@.len(),
{
    let ghost goal = spec_loop_end(spec_trk_views(trks@), 0, t);
    let n = trks.len();
    let mut k: usize = 0;
    while k < n
        invariant
            k <= n,
            n == trks@.len(),
            spec_all_wf(spec_trk_views(trks@)),
            spec_loop_end(spec_trk_views(trks@), k as nat, t) == goal,
            goal == spec_loop_end(spec_trk_views(old(trks)@), 0, t),
            spec_reqs_ok(spec_trk_views(trks@), spec_req_views(reqs@)),
            old(trks)@.len() == trks@.len(),
        decreases n - k,
    {
        let ghost v = spec_trk_views(trks@);
        if trks[k].current_global_tick > t {
            return Ok(true);
        }
        assert(spec_writer_wf(v[k as int]));
        let _ = trks[k].fix_current_global_tick(t);
        assert(spec_trk_views(trks@) =~= v.update(k as int, spec_fix(v[k as int], t)));
        let ghost v1 = spec_trk_views(trks@);
        let r = notes_off(trks, k);
        assert(v1.update(k as int, spec_notes_off(spec_fix(v[k as int], t), 0).0) =~= v.update(k as int, spec_notes_off(spec_fix(v[k as int], t), 0).0));
        proof {
            lemma_notes_off_error(spec_fix(v[k as int], t), 0);
            lemma_notes_off_keeps(spec_fix(v[k as int], t), 0);
            lemma_reqs_after(CopyState { trks: v, reqs: spec_req_views(reqs@) }, k as int, t, spec_notes_off(spec_fix(v[k as int], t), 0).0);
        }
        if let Err(e) = r {
            return Err(e);
        }
        k = k + 1;
    }
    Ok(false)
}

/// Moves every track on to tick `t`; gives whether a track's clock is past
/// `t`, which halts the copy.
fn fix_all(trks: &mut Vec<TrkChunkWriter>, reqs: &Vec<Vec<ProgramRequest>>, t: u128) -> (r: bool)
    requires
        spec_all_wf(spec_trk_views(old(trks)@)),
        spec_reqs_ok(spec_trk_views(old(trks)@), spec_req_views(reqs@)),
    ensures
        r == spec_fix_all(spec_trk_views(old(trks)@), 0, t).1,
        !r ==> spec_reqs_ok(spec_trk_views(final(trks)@), spec_req_views(reqs@)),
        !r ==> spec_trk_views(final(trks)@) == spec_fix_all(spec_trk_views(old(trks)@), 0, t).0,
        !r ==> spec_all_wf(spec_trk_views(final(trks)@)),
        final(trks)@.len() == old(trks)@.len(),
{
    let ghost goal = spec_fix_all(spec_trk_views(trks@), 0, t);
    let n = trks.len();
    let mut k: usize = 0;
    while k < n
        invariant
            k <= n,
            n == trks@.len(),
            spec_all_wf(spec_trk_views(trks@)),
            spec_fix_all(spec_trk_views(trks@), k as nat, t) == goal,
            spec_reqs_ok(spec_trk_views(trks@), spec_req_views(reqs@)),
            goal == spec_fix_all(spec_trk_views(old(trks)@), 0, t),
            n == old(trks)@.len(),
        decreases n - k,
    {
        let ghost v = spec_trk_views(trks@);
        if trks[k].current_global_tick > t {
            return true;
        }
        assert(spec_writer_wf(v[k as int]));
        let _ = trks[k].fix_current_global_tick(t);
        assert(spec_trk_views(trks@) =~= v.update(k as int, spec_fix(v[k as int], t)));
        proof {
            lemma_reqs_after(CopyState { trks: v, reqs: spec_req_views(reqs@) }, k as int, t, spec_fix(v[k as int], t));
        }
        k = k + 1;
    }
    assert(spec_fix_all(spec_trk_views(trks@), k as nat, t).0 == spec_trk_views(trks@));
    false
}

/// The tempo byte of `m` microseconds per beat.
fn tempo_byte(m: u32) -> (r: u8)
    ensures
        r == spec_tempo_byte(m),
{
    if m == 0 {
        255
    } else {
        let q: u64 = (120_000_000u64 + m as u64) / (2 * m as u64);
        if q > 255 { 255 } else { q as u8 }
    }
}


/// A loop start goes on unless it halts.
proof fn lemma_loop_start_flow(trks: Seq<TrkChunkWriterView>, k: nat, t: u128)
    ensures
        spec_loop_start(trks, k, t).1 is Go || spec_loop_start(trks, k, t).1 is Halt,
    decreases trks.len() - k,
{
    if k < trks.len() && trks[k as int].tick <= t {
        lemma_loop_start_flow(trks.update(k as int, spec_with_event(spec_fix(trks[k as int], t), spec_other(0x99, spec_params(Seq::empty())))), k + 1, t);
    }
}

/// A loop end stops, fails or halts; it never goes on.
proof fn lemma_loop_end_flow(trks: Seq<TrkChunkWriterView>, k: nat, t: u128)
    ensures
        !(spec_loop_end(trks, k, t).1 is Go),
    decreases trks.len() - k,
{
    if k < trks.len() && trks[k as int].tick <= t {
        let (w, r) = spec_notes_off(spec_fix(trks[k as int], t), 0);
        if r is Ok {
            lemma_loop_end_flow(trks.update(k as int, w), k + 1, t);
        }
    }
}

/// How the copying of one event ends where it does not fail: the copy
/// goes on, stops (the song's loop ends), or halts.
enum StepEnd {
    Next,
    Stop,
    Halt,
}

/// Copies a marker at tick `t`.
fn copy_marker(trks: &mut Vec<TrkChunkWriter>, reqs: &Vec<Vec<ProgramRequest>>, t: u128, b: &Vec<u8>) -> (r: Result<StepEnd, DSEError>)
    requires
        spec_all_wf(spec_trk_views(old(trks)@)),
        reqs@.len() == old(trks)@.len(),
        spec_reqs_ok(spec_trk_views(old(trks)@), spec_req_views(reqs@)),
    ensures
        ({
            let (st, flow) = spec_marker_step(spec_state(old(trks)@, reqs@), t, b@);
            &&& (flow is Halt <==> r matches Ok(StepEnd::Halt))
            &&& !(flow is Halt) ==> {
                &&& spec_state(final(trks)@, reqs@) == st
                &&& spec_all_wf(st.trks)
                &&& spec_reqs_ok(st.trks, st.reqs)
                &&& final(trks)@.len() == old(trks)@.len()
                &&& (flow is Go ==> r matches Ok(StepEnd::Next))
                &&& (flow is Stop ==> r matches Ok(StepEnd::Stop))
                &&& (flow matches CopyFlow::Fail(f) ==> r matches Err(e) && spec_fail_is(e, f))
            }
        }),
{
    let ghost st0 = spec_state(trks@, reqs@);
    let a = marker_action(b.as_slice());
    assert(a@ == spec_marker_action(b@));
    proof {
        lemma_loop_start_flow(st0.trks, 0, t);
        lemma_loop_end_flow(st0.trks, 0, t);
        if let MarkerActionView::Dsec(text) = a@ {
            lemma_dsec_facts(st0, 0, t, spec_split(text, ';'), 0);
        }
    }
    match a {
        MarkerAction::LoopStart => {
            if loop_start(trks, reqs, t) {
                return Ok(StepEnd::Halt);
            }
            assert(spec_state(trks@, reqs@) =~= spec_marker_step(st0, t, b@).0);
            Ok(StepEnd::Next)
        },
        MarkerAction::LoopEnd => {
            match loop_end(trks, reqs, t) {
                Ok(true) => Ok(StepEnd::Halt),
                Ok(false) => {
                    assert(spec_state(trks@, reqs@) =~= spec_marker_step(st0, t, b@).0);
                    Ok(StepEnd::Stop)
                },
                Err(e) => {
                    assert(spec_state(trks@, reqs@) =~= spec_marker_step(st0, t, b@).0);
                    Err(e)
                },
            }
        },
        MarkerAction::LoopEndNoReset => Ok(StepEnd::Stop),
        MarkerAction::Dsec(text) => {
            match dsec(trks, reqs, t, &text) {
                Ok(true) => Ok(StepEnd::Halt),
                Ok(false) => {
                    assert(spec_state(trks@, reqs@) =~= spec_marker_step(st0, t, b@).0);
                    Ok(StepEnd::Next)
                },
                Err(e) => {
                    assert(spec_state(trks@, reqs@) =~= spec_marker_step(st0, t, b@).0);
                    Err(e)
                },
            }
        },
        MarkerAction::Signal(None) => {
            Err(DSEError::Invalid("MIDI Marker 'Signal(n)' must have a uint8 as its parameter!".to_owned()))
        },
        MarkerAction::Signal(Some(v)) => {
            if trks.len() == 0 || trks[0].current_global_tick > t {
                return Ok(StepEnd::Halt);
            }
            assert(spec_writer_wf(st0.trks[0]));
            let _ = trks[0].fix_current_global_tick(t);
            let ghost v1 = spec_trk_views(trks@);
            assert(v1 =~= st0.trks.update(0, spec_fix(st0.trks[0], t)));
            let res = trks[0].add_other_with_params_u8("Signal", v);
            assert(spec_trk_views(trks@) =~= v1.update(0, trks@[0]@));
            assert(spec_state(trks@, reqs@) =~= spec_marker_step(st0, t, b@).0);
            proof {
                lemma_reqs_after(st0, 0, t, trks@[0]@);
            }
            match res {
                Ok(_) => Ok(StepEnd::Next),
                Err(e) => Err(e),
            }
        },
        _ => Ok(StepEnd::Next),
    }
}

/// Copies one event at tick `t`.
fn copy_event(trks: &mut Vec<TrkChunkWriter>, reqs: &mut Vec<Vec<ProgramRequest>>, t: u128, e: &MidiEvent) -> (r: Result<StepEnd, DSEError>)
    requires
        spec_all_wf(spec_trk_views(old(trks)@)),
        old(reqs)@.len() == old(trks)@.len(),
        spec_reqs_ok(spec_trk_views(old(trks)@), spec_req_views(old(reqs)@)),
    ensures
        ({
            let (st, flow) = spec_copy_step(spec_state(old(trks)@, old(reqs)@), t, e@);
            &&& (flow is Halt <==> r matches Ok(StepEnd::Halt))
            &&& !(flow is Halt) ==> {
                &&& spec_state(final(trks)@, final(reqs)@) == st
                &&& spec_all_wf(st.trks)
                &&& spec_reqs_ok(st.trks, st.reqs)
                &&& final(reqs)@.len() == final(trks)@.len()
                &&& (flow is Go ==> r matches Ok(StepEnd::Next))
                &&& (flow is Stop ==> r matches Ok(StepEnd::Stop))
                &&& (flow matches CopyFlow::Fail(f) ==> r matches Err(e) && spec_fail_is(e, f))
            }
        }),
{
    let ghost st0 = spec_state(trks@, reqs@);
    match &e.kind {
        MidiEventKind::Midi { channel, message } => {
            let i = *channel as usize + 1;
            match copy_channel(trks, reqs, i, t, *message) {
                Ok(true) => Ok(StepEnd::Halt),
                Ok(false) => Ok(StepEnd::Next),
                Err(e) => Err(e),
            }
        },
        MidiEventKind::Tempo(m) => {
            if trks.len() == 0 || trks[0].current_global_tick > t {
                return Ok(StepEnd::Halt);
            }
            proof {
                lemma_name_to_code_of_lookup(0xA4);
                reveal_strlit("SetTempo");
            }
            assert(spec_writer_wf(st0.trks[0]));
            let _ = trks[0].fix_current_global_tick(t);
            let ghost v1 = spec_trk_views(trks@);
            assert(v1 =~= st0.trks.update(0, spec_fix(st0.trks[0], t)));
            let _ = trks[0].add_other_with_params_u8("SetTempo", tempo_byte(*m));
            assert(spec_trk_views(trks@) =~= v1.update(0, trks@[0]@));
            proof {
                lemma_reqs_after(st0, 0, t, trks@[0]@);
            }
            Ok(StepEnd::Next)
        },
        MidiEventKind::Marker(b) => copy_marker(trks, reqs, t, b),
        _ => Ok(StepEnd::Next),
    }
}

/// The models of MIDI events.
pub open spec fn spec_event_views(s: Seq<MidiEvent>) -> Seq<MidiEventView> {
    s.map_values(|e: MidiEvent| e@)
}

/// Copies a MIDI stream into the writers of a song's tracks, as
/// `copy_midi_messages` does, where the copy does not halt; gives `None`
/// where it halts (an event asks for a track that does not exist, a clock
/// set back, or cuts a "dsec" command inside a character), the writers then
/// left partly written.
pub fn try_copy_midi_messages(midi_messages: &Vec<MidiEvent>, trks: &mut Vec<TrkChunkWriter>, reqs: &mut Vec<Vec<ProgramRequest>>) -> (r: Option<Result<u128, DSEError>>)
    requires
        spec_all_wf(spec_trk_views(old(trks)@)),
        spec_reqs_ok(spec_trk_views(old(trks)@), spec_req_views(old(reqs)@)),
    ensures
        ({
            let o = spec_copy(spec_event_views(midi_messages@), 0, spec_state(old(trks)@, old(reqs)@), 0);
            &&& (r is None <==> o.halted)
            &&& !o.halted ==> {
                &&& spec_state(final(trks)@, final(reqs)@) == (CopyState { trks: o.trks, reqs: o.reqs })
                &&& spec_all_wf(o.trks)
                &&& spec_reqs_ok(o.trks, o.reqs)
                &&& final(reqs)@.len() == final(trks)@.len()
                &&& match o.result {
                    Ok(t) => r == Some(Ok::<u128, DSEError>(t)),
                    Err(f) => r matches Some(Err(e)) && spec_fail_is(e, f),
                }
            }
        }),
{
    let ghost evs = spec_event_views(midi_messages@);
    let ghost goal = spec_copy(evs, 0, spec_state(trks@, reqs@), 0);
    let n = midi_messages.len();
    let mut tick: u128 = 0;
    let mut i: usize = 0;
    while i < n
        invariant
            i <= n,
            n == midi_messages@.len(),
            evs == spec_event_views(midi_messages@),
            spec_all_wf(spec_trk_views(trks@)),
            reqs@.len() == trks@.len(),
            spec_reqs_ok(spec_trk_views(trks@), spec_req_views(reqs@)),
            spec_copy(evs, i as nat, spec_state(trks@, reqs@), tick) == goal,
            goal == spec_copy(spec_event_views(midi_messages@), 0, spec_state(old(trks)@, old(reqs)@), 0),
            tick <= i as u128 * 0x1_0000_0000,
        decreases n - i,
    {
        let e = &midi_messages[i];
        assert(evs[i as int] == e@);
        let t = tick + e.delta as u128;
        match copy_event(trks, reqs, t, e) {
            Ok(StepEnd::Next) => {},
            Ok(StepEnd::Stop) => {
                if fix_all(trks, reqs, t) {
                    return None;
                }
                assert(spec_state(trks@, reqs@) =~= (CopyState { trks: goal.trks, reqs: goal.reqs }));
                return Some(Ok(t));
            },
            Ok(StepEnd::Halt) => {
                return None;
            },
            Err(x) => {
                assert(spec_state(trks@, reqs@) =~= (CopyState { trks: goal.trks, reqs: goal.reqs }));
                return Some(Err(x));
            },
        }
        tick = t;
        i = i + 1;
    }
    if fix_all(trks, reqs, tick) {
        return None;
    }
    assert(spec_state(trks@, reqs@) =~= (CopyState { trks: goal.trks, reqs: goal.reqs }));
    Some(Ok(tick))
}

/// Copies a MIDI stream into the writers of a song's tracks: the events one
/// after the other, each at the tick its delta reaches, until the stream
/// or the song's loop ends; then every track moves on to the last tick.
/// Each bank select and program change adds a "SetProgram" event that
/// waits for its program id, recorded in `reqs` under its track. Gives the
/// last tick.
pub fn copy_midi_messages(midi_messages: &Vec<MidiEvent>, trks: &mut Vec<TrkChunkWriter>, reqs: &mut Vec<Vec<ProgramRequest>>) -> (r: Result<u128, DSEError>)
    requires
        spec_all_wf(spec_trk_views(old(trks)@)),
        spec_reqs_ok(spec_trk_views(old(trks)@), spec_req_views(old(reqs)@)),
        !spec_copy(spec_event_views(midi_messages@), 0, spec_state(old(trks)@, old(reqs)@), 0).halted,
    ensures
        ({
            let o = spec_copy(spec_event_views(midi_messages@), 0, spec_state(old(trks)@, old(reqs)@), 0);
            &&& spec_state(final(trks)@, final(reqs)@) == (CopyState { trks: o.trks, reqs: o.reqs })
            &&& spec_all_wf(o.trks)
            &&& spec_reqs_ok(o.trks, o.reqs)
            &&& final(reqs)@.len() == final(trks)@.len()
            &&& match o.result {
                Ok(t) => r == Ok::<u128, DSEError>(t),
                Err(f) => r matches Err(e) && spec_fail_is(e, f),
            }
        }),
{
    match try_copy_midi_messages(midi_messages, trks, reqs) {
        Some(r) => r,
        None => vstd::pervasive::unreached(),
    }
}

// ---------------------------------------------------------------------------
// Program requests stay attached to their events
// ---------------------------------------------------------------------------

/// Whether the program requests fit the writers: each points, in order of
/// its track's events, to a "SetProgram" event still waiting (parameter 0);
/// a track that changed program has its last change's event as its last
/// request.
pub open spec fn spec_reqs_ok(trks: Seq<TrkChunkWriterView>, reqs: Seq<Seq<ProgramRequest>>) -> bool {
    &&& reqs.len() == trks.len()
    &&& forall|t: int, k: int| 0 <= t < reqs.len() && 0 <= k < reqs[t].len() ==> {
        &&& (#[trigger] reqs[t][k]).0 < trks[t].events.len()
        &&& trks[t].events[reqs[t][k].0 as int] == spec_other(0xAC, spec_params(seq![0u8]))
    }
    &&& forall|t: int, k1: int, k2: int| 0 <= t < reqs.len() && 0 <= k1 < k2 < reqs[t].len() ==> (#[trigger] reqs[t][k1]).0 < (#[trigger] reqs[t][k2]).0
    &&& forall|t: int| 0 <= t < trks.len() ==> (#[trigger] trks[t].last_pc_tick is Some ==> trks[t].last_pc_index is Some)
    &&& forall|t: int| 0 <= t < trks.len() ==> (#[trigger] trks[t].last_pc_index matches Some(r) ==> reqs[t].len() > 0 && reqs[t].last().0 == r)
}

/// Whether `b` keeps every other event of `a` where it was.
pub open spec fn spec_keeps_others(a: Seq<DSEEvent>, b: Seq<DSEEvent>) -> bool {
    &&& b.len() >= a.len()
    &&& forall|j: int| 0 <= j < a.len() && (#[trigger] a[j]) is Other ==> b[j] == a[j]
}

/// A writer that keeps its other events and its last program change keeps
/// the requests fitting.
proof fn lemma_reqs_keep(trks: Seq<TrkChunkWriterView>, reqs: Seq<Seq<ProgramRequest>>, i: int, w: TrkChunkWriterView)
    requires
        spec_reqs_ok(trks, reqs),
        0 <= i < trks.len(),
        spec_keeps_others(trks[i].events, w.events),
        w.last_pc_index == trks[i].last_pc_index,
        w.last_pc_tick == trks[i].last_pc_tick,
    ensures
        spec_reqs_ok(trks.update(i, w), reqs),
{
    let t2 = trks.update(i, w);
    assert forall|t: int, k: int| 0 <= t < reqs.len() && 0 <= k < reqs[t].len() implies {
        &&& (#[trigger] reqs[t][k]).0 < t2[t].events.len()
        &&& t2[t].events[reqs[t][k].0 as int] == spec_other(0xAC, spec_params(seq![0u8]))
    } by {
        if t == i {
            let j = reqs[t][k].0 as int;
            assert(trks[i].events[j] is Other);
        }
    }
    assert forall|t: int| 0 <= t < t2.len() implies (#[trigger] t2[t].last_pc_tick is Some ==> t2[t].last_pc_index is Some) by {
        if t != i {
            assert(trks[t].last_pc_tick is Some ==> trks[t].last_pc_index is Some);
        }
    }
    assert forall|t: int| 0 <= t < t2.len() implies (#[trigger] t2[t].last_pc_index matches Some(r) ==> reqs[t].len() > 0 && reqs[t].last().0 == r) by {
        assert(trks[t].last_pc_index matches Some(r) ==> reqs[t].len() > 0 && reqs[t].last().0 == r);
    }
}


/// Keeping other events carries over.
proof fn lemma_keeps_trans(a: Seq<DSEEvent>, b: Seq<DSEEvent>, c: Seq<DSEEvent>)
    requires
        spec_keeps_others(a, b),
        spec_keeps_others(b, c),
    ensures
        spec_keeps_others(a, c),
{
    assert forall|j: int| 0 <= j < a.len() && (#[trigger] a[j]) is Other implies c[j] == a[j] by {
        assert(b[j] == a[j]);
    }
}

/// The state after a writer of track `i` moves its clock on to `t` and then
/// becomes `w`, keeping its other events, keeps the requests fitting.
proof fn lemma_reqs_after(st: CopyState, i: int, t: u128, w: TrkChunkWriterView)
    requires
        spec_reqs_ok(st.trks, st.reqs),
        0 <= i < st.trks.len(),
        spec_keeps_others(spec_fix(st.trks[i], t).events, w.events),
        w.last_pc_index == st.trks[i].last_pc_index,
        w.last_pc_tick == st.trks[i].last_pc_tick,
    ensures
        spec_reqs_ok(st.trks.update(i, w), st.reqs),
{
    lemma_fix_keeps(st.trks[i], t);
    lemma_keeps_trans(st.trks[i].events, spec_fix(st.trks[i], t).events, w.events);
    lemma_reqs_keep(st.trks, st.reqs, i, w);
}

/// Moving a clock on keeps other events.
proof fn lemma_fix_keeps(v: TrkChunkWriterView, t: u128)
    ensures
        spec_keeps_others(v.events, spec_fix(v, t).events),
        spec_fix(v, t).last_pc_index == v.last_pc_index,
        spec_fix(v, t).last_pc_tick == v.last_pc_tick,
{
}

/// Ending a note keeps other events.
proof fn lemma_note_off_keeps(v: TrkChunkWriterView, key: u8)
    requires
        spec_writer_wf(v),
    ensures
        spec_keeps_others(v.events, spec_note_off(v, key).0.events),
        spec_note_off(v, key).0.last_pc_index == v.last_pc_index,
        spec_note_off(v, key).0.last_pc_tick == v.last_pc_tick,
{
    match v.held[key as int] {
        Some((i, t)) => {
            assert(v.events[i as int] is PlayNote);
        },
        None => {},
    }
}

/// Starting a note keeps other events.
proof fn lemma_note_on_keeps(v: TrkChunkWriterView, key: u8, vel: u8)
    requires
        spec_writer_wf(v),
    ensures
        spec_keeps_others(v.events, spec_note_on(v, key, vel).0.events),
        spec_note_on(v, key, vel).0.last_pc_index == v.last_pc_index,
        spec_note_on(v, key, vel).0.last_pc_tick == v.last_pc_tick,
{
    lemma_note_off_keeps(v, key);
}

/// Ending the notes of keys `key` to 254 keeps other events.
proof fn lemma_notes_off_keeps(v: TrkChunkWriterView, key: nat)
    requires
        spec_writer_wf(v),
    ensures
        spec_keeps_others(v.events, spec_notes_off(v, key).0.events),
        spec_notes_off(v, key).0.last_pc_index == v.last_pc_index,
        spec_notes_off(v, key).0.last_pc_tick == v.last_pc_tick,
        spec_writer_wf(spec_notes_off(v, key).0),
    decreases 255 - key,
{
    if key < 255 {
        lemma_note_off_keeps(v, key as u8);
        lemma_note_off_wf(v, key as u8);
        let (w, r) = spec_note_off(v, key as u8);
        if r is Ok {
            lemma_notes_off_keeps(w, key + 1);
        }
    }
}

/// Ending a note keeps a writer consistent.
proof fn lemma_note_off_wf(v: TrkChunkWriterView, key: u8)
    requires
        spec_writer_wf(v),
    ensures
        spec_writer_wf(spec_note_off(v, key).0),
{
    let w = spec_note_off(v, key).0;
    match v.held[key as int] {
        Some((i, t)) => {
            assert forall|k: int| 0 <= k < 256 implies (#[trigger] w.held[k] matches Some((i2, t2)) ==> i2 < w.events.len() && w.events[i2 as int] is PlayNote && t2 <= w.tick) by {
                if k != key {
                    assert(v.held[k] matches Some((i2, t2)) ==> i2 < v.events.len() && v.events[i2 as int] is PlayNote && t2 <= v.tick);
                }
            }
            assert(v.events[i as int] is PlayNote);
        },
        None => {},
    }
}

/// A program change recorded as a request keeps the requests fitting.
proof fn lemma_reqs_program(trks: Seq<TrkChunkWriterView>, reqs: Seq<Seq<ProgramRequest>>, i: int, v: TrkChunkWriterView)
    requires
        spec_reqs_ok(trks, reqs),
        0 <= i < trks.len(),
        spec_keeps_others(trks[i].events, v.events),
        v.last_pc_index == trks[i].last_pc_index,
        v.last_pc_tick == trks[i].last_pc_tick,
        spec_writer_wf(v),
        v.events.len() <= usize::MAX,
    ensures
        ({
            let (w, idx, same) = spec_program_event(v, false, Some(0u8));
            spec_reqs_ok(trks.update(i, w), spec_request(reqs, i, same, idx, w.bank, w.program))
        }),
{
    lemma_reqs_keep(trks, reqs, i, v);
    let trks1 = trks.update(i, v);
    let (u, same) = spec_undo_same_tick(v);
    let (w, idx, same2) = spec_program_event(v, false, Some(0u8));
    let reqs2 = spec_request(reqs, i, same, idx, w.bank, w.program);
    let t2 = trks.update(i, w);
    let l0 = reqs[i];
    let l = if same && l0.len() > 0 { l0.drop_last() } else { l0 };
    assert(reqs2[i] == l.push((u.events.len() as usize, (w.bank, w.program))));
    if same {
        assert(v.last_pc_tick is Some);
        assert(trks1[i].last_pc_tick is Some ==> trks1[i].last_pc_index is Some);
        assert(trks1[i].last_pc_index matches Some(r) ==> reqs[i].len() > 0 && reqs[i].last().0 == r);
    }
    let n0 = v.events.len();
    if same {
        let r = v.last_pc_index.unwrap();
        assert(u.events == v.events.remove(r as int));
        assert(l0.len() > 0 && l0.last().0 == r);
        assert(r < n0);
    } else {
        assert(u.events == v.events);
    }
    assert(w.events == u.events.push(spec_other(0xAC, spec_params(seq![0u8]))));
    assert forall|k: int| 0 <= k < l.len() implies {
        &&& (#[trigger] l[k]).0 < u.events.len()
        &&& u.events[l[k].0 as int] == spec_other(0xAC, spec_params(seq![0u8]))
        &&& l[k].0 < u.events.len()
    } by {
        assert(l[k] == l0[k]);
        assert(l0[k].0 < trks1[i].events.len());
        assert(trks1[i].events[l0[k].0 as int] == spec_other(0xAC, spec_params(seq![0u8])));
        if same {
            assert(l0[k].0 < l0[l0.len() - 1].0);
        }
    }
    assert forall|t: int, k: int| 0 <= t < reqs2.len() && 0 <= k < reqs2[t].len() implies {
        &&& (#[trigger] reqs2[t][k]).0 < t2[t].events.len()
        &&& t2[t].events[reqs2[t][k].0 as int] == spec_other(0xAC, spec_params(seq![0u8]))
    } by {
        if t == i {
            if k < l.len() {
                assert(reqs2[t][k] == l[k]);
                assert(l[k].0 < u.events.len());
            } else {
                assert(reqs2[t][k] == (u.events.len() as usize, (w.bank, w.program)));
            }
        } else {
            assert(reqs2[t][k] == reqs[t][k]);
            assert(reqs[t][k].0 < trks1[t].events.len());
        }
    }
    assert forall|t: int, k1: int, k2: int| 0 <= t < reqs2.len() && 0 <= k1 < k2 < reqs2[t].len() implies (#[trigger] reqs2[t][k1]).0 < (#[trigger] reqs2[t][k2]).0 by {
        if t == i {
            assert(reqs2[t][k1] == l[k1]);
            assert(l[k1].0 < u.events.len());
            if k2 < l.len() {
                assert(reqs2[t][k2] == l[k2]);
                assert(l[k1] == l0[k1] && l[k2] == l0[k2]);
                assert(l0[k1].0 < l0[k2].0);
            }
        } else {
            assert(reqs2[t][k1] == reqs[t][k1] && reqs2[t][k2] == reqs[t][k2]);
        }
    }
    assert forall|t: int| 0 <= t < t2.len() implies (#[trigger] t2[t].last_pc_tick is Some ==> t2[t].last_pc_index is Some) by {
        if t != i {
            assert(trks1[t].last_pc_tick is Some ==> trks1[t].last_pc_index is Some);
        }
    }
    assert forall|t: int| 0 <= t < t2.len() implies (#[trigger] t2[t].last_pc_index matches Some(r) ==> reqs2[t].len() > 0 && reqs2[t].last().0 == r) by {
        if t != i {
            assert(trks1[t].last_pc_index matches Some(r) ==> reqs[t].len() > 0 && reqs[t].last().0 == r);
        }
    }
}

// ---------------------------------------------------------------------------
// Program ids
// ---------------------------------------------------------------------------

/// The (bank, program) pairs of the requests of tracks `0..t`, track by track.
pub open spec fn spec_track_pairs(reqs: Seq<Seq<ProgramRequest>>, t: nat) -> Seq<(u8, u8)>
    decreases t,
{
    if t == 0 || t > reqs.len() {
        Seq::empty()
    } else {
        spec_track_pairs(reqs, (t - 1) as nat) + reqs[t - 1].map_values(|r: ProgramRequest| r.1)
    }
}

/// The distinct elements of `s` in order of first appearance.
pub open spec fn spec_first_seen(s: Seq<(u8, u8)>) -> Seq<(u8, u8)>
    decreases s.len(),
{
    if s.len() == 0 {
        Seq::empty()
    } else {
        let p = spec_first_seen(s.drop_last());
        if p.contains(s.last()) { p } else { p.push(s.last()) }
    }
}

/// Whether `x` appears in `s` before any appearance of `y`.
pub open spec fn spec_appears_before(s: Seq<(u8, u8)>, x: (u8, u8), y: (u8, u8)) -> bool {
    exists|i: int| 0 <= i < s.len() && s[i] == x && forall|j: int| 0 <= j <= i ==> #[trigger] s[j] != y
}

/// The distinct pairs in order of first appearance hold each pair of `s`
/// once and nothing else, and a pair comes before another when it appears
/// in `s` before any appearance of the other.
pub proof fn lemma_first_seen_order(s: Seq<(u8, u8)>)
    ensures
        spec_first_seen(s).no_duplicates(),
        forall|x: (u8, u8)| #[trigger] spec_first_seen(s).contains(x) <==> s.contains(x),
        forall|a: int, b: int| 0 <= a < b < spec_first_seen(s).len() ==> spec_appears_before(s, #[trigger] spec_first_seen(s)[a], #[trigger] spec_first_seen(s)[b]),
    decreases s.len(),
{
    lemma_first_seen_facts(s);
    if s.len() > 0 {
        let d = s.drop_last();
        lemma_first_seen_order(d);
        lemma_first_seen_facts(d);
        let p = spec_first_seen(d);
        let r = spec_first_seen(s);
        assert forall|a: int, b: int| 0 <= a < b < r.len() implies spec_appears_before(s, #[trigger] r[a], #[trigger] r[b]) by {
            if p.contains(s.last()) {
                assert(r == p);
                assert(spec_appears_before(d, p[a], p[b]));
                let i = choose|i: int| 0 <= i < d.len() && d[i] == p[a] && forall|j: int| 0 <= j <= i ==> #[trigger] d[j] != p[b];
                assert(s[i] == d[i]);
                assert forall|j: int| 0 <= j <= i implies #[trigger] s[j] != r[b] by {
                    assert(s[j] == d[j]);
                }
            } else {
                assert(r == p.push(s.last()));
                if b < p.len() {
                    assert(spec_appears_before(d, p[a], p[b]));
                    let i = choose|i: int| 0 <= i < d.len() && d[i] == p[a] && forall|j: int| 0 <= j <= i ==> #[trigger] d[j] != p[b];
                    assert(r[a] == p[a] && r[b] == p[b]);
                    assert(s[i] == d[i]);
                    assert forall|j: int| 0 <= j <= i implies #[trigger] s[j] != r[b] by {
                        assert(s[j] == d[j]);
                    }
                } else {
                    assert(r[a] == p[a]);
                    assert(p.contains(p[a]));
                    assert(d.contains(p[a]));
                    let i = choose|i: int| 0 <= i < d.len() && d[i] == p[a];
                    assert(s[i] == d[i]);
                    assert(r[b] == s.last());
                    assert forall|j: int| 0 <= j <= i implies #[trigger] s[j] != r[b] by {
                        assert(s[j] == d[j]);
                        if d[j] == s.last() {
                            assert(d.contains(s.last()));
                        }
                    }
                }
            }
        }
    }
}

/// The program pairs of a song by id: each pair the requests ask for, in
/// order of first appearance track by track.
pub open spec fn spec_program_ids(reqs: Seq<Seq<ProgramRequest>>) -> Seq<(u8, u8)> {
    spec_first_seen(spec_track_pairs(reqs, reqs.len()))
}

/// The events after the "SetProgram" events of the requests `rs` get the
/// id of their pair in `ids`.
pub open spec fn spec_patched(ev: Seq<DSEEvent>, rs: Seq<ProgramRequest>, ids: Seq<(u8, u8)>) -> Seq<DSEEvent>
    decreases rs.len(),
{
    if rs.len() == 0 {
        ev
    } else {
        spec_patched(ev, rs.drop_last(), ids).update(rs.last().0 as int, spec_other(0xAC, spec_params(seq![ids.index_of(rs.last().1) as u8])))
    }
}

/// The writers after their program requests got their ids.
pub open spec fn spec_patched_trks(trks: Seq<TrkChunkWriterView>, reqs: Seq<Seq<ProgramRequest>>, ids: Seq<(u8, u8)>) -> Seq<TrkChunkWriterView> {
    Seq::new(trks.len(), |t: int| TrkChunkWriterView { events: spec_patched(trks[t].events, reqs[t], ids), ..trks[t] })
}

proof fn lemma_first_seen_facts(s: Seq<(u8, u8)>)
    ensures
        spec_first_seen(s).no_duplicates(),
        forall|x: (u8, u8)| s.contains(x) <==> spec_first_seen(s).contains(x),
    decreases s.len(),
{
    if s.len() > 0 {
        lemma_first_seen_facts(s.drop_last());
        let p = spec_first_seen(s.drop_last());
        let d = s.drop_last();
        assert forall|x: (u8, u8)| s.contains(x) <==> spec_first_seen(s).contains(x) by {
            assert(d.contains(x) <==> p.contains(x));
            if s.contains(x) {
                let i = choose|i: int| 0 <= i < s.len() && s[i] == x;
                if i < s.len() - 1 {
                    assert(d[i] == x);
                    assert(d.contains(x));
                    assert(p.contains(x));
                    let k = choose|k: int| 0 <= k < p.len() && p[k] == x;
                    assert(p.push(s.last())[k] == x);
                } else {
                    assert(x == s.last());
                    if !p.contains(x) {
                        assert(p.push(x)[p.len() as int] == x);
                    }
                }
            }
            if spec_first_seen(s).contains(x) {
                if x == s.last() {
                    assert(s[s.len() - 1] == x);
                } else {
                    if !p.contains(s.last()) {
                        let k = choose|k: int| 0 <= k < p.push(s.last()).len() && p.push(s.last())[k] == x;
                        assert(k < p.len());
                        assert(p[k] == x);
                    }
                    assert(p.contains(x));
                    assert(d.contains(x));
                    let i = choose|i: int| 0 <= i < d.len() && d[i] == x;
                    assert(s[i] == x);
                }
            }
        }
    }
}

/// The distinct elements of a prefix come first among those of the whole.
proof fn lemma_first_seen_prefix(a: Seq<(u8, u8)>, b: Seq<(u8, u8)>)
    ensures
        spec_first_seen(a).len() <= spec_first_seen(a + b).len(),
        spec_first_seen(a + b).take(spec_first_seen(a).len() as int) == spec_first_seen(a),
    decreases b.len(),
{
    if b.len() == 0 {
        assert(a + b =~= a);
    } else {
        lemma_first_seen_prefix(a, b.drop_last());
        assert((a + b).drop_last() =~= a + b.drop_last());
        let p = spec_first_seen(a + b.drop_last());
        let n = spec_first_seen(a).len() as int;
        if !p.contains((a + b).last()) {
            assert(p.push((a + b).last()).take(n) =~= p.take(n));
        }
    }
}

/// The id of `x` among distinct pairs `ids` that start with `p`, where `x`
/// is at `j` in `p`.
proof fn lemma_index_of_prefix(ids: Seq<(u8, u8)>, p: Seq<(u8, u8)>, j: int, x: (u8, u8))
    requires
        ids.no_duplicates(),
        p.len() <= ids.len(),
        ids.take(p.len() as int) == p,
        0 <= j < p.len(),
        p[j] == x,
    ensures
        ids.index_of(x) == j,
{
    assert(ids[j] == ids.take(p.len() as int)[j]);
    assert(ids.contains(x));
    let i = ids.index_of(x);
    assert(0 <= i < ids.len() && ids[i] == x);
}

/// The position of `x` in `p`, if it is there.
fn find_pair(p: &Vec<(u8, u8)>, x: (u8, u8)) -> (r: Option<usize>)
    ensures
        match r {
            Some(j) => j < p@.len() && p@[j as int] == x,
            None => !p@.contains(x),
        },
{
    let mut j: usize = 0;
    while j < p.len()
        invariant
            j <= p@.len(),
            forall|k: int| 0 <= k < j ==> p@[k] != x,
        decreases p@.len() - j,
    {
        if p[j].0 == x.0 && p[j].1 == x.1 {
            return Some(j);
        }
        j = j + 1;
    }
    None
}

/// The pairs of tracks `0..t` come first among those of tracks `0..t2`.
proof fn lemma_track_pairs_prefix(reqs: Seq<Seq<ProgramRequest>>, t: nat, t2: nat)
    requires
        t <= t2 <= reqs.len(),
    ensures
        spec_track_pairs(reqs, t).len() <= spec_track_pairs(reqs, t2).len(),
        spec_track_pairs(reqs, t2).take(spec_track_pairs(reqs, t).len() as int) == spec_track_pairs(reqs, t),
    decreases t2,
{
    if t < t2 {
        lemma_track_pairs_prefix(reqs, t, (t2 - 1) as nat);
        let a = spec_track_pairs(reqs, (t2 - 1) as nat);
        let m = spec_track_pairs(reqs, t).len() as int;
        assert((a + reqs[t2 - 1].map_values(|r: ProgramRequest| r.1)).take(m) =~= a.take(m));
    }
}

/// A prefix of `whole` has its distinct pairs first among those of `whole`.
proof fn lemma_first_seen_of_prefix(a: Seq<(u8, u8)>, whole: Seq<(u8, u8)>)
    requires
        a.len() <= whole.len(),
        whole.take(a.len() as int) == a,
    ensures
        spec_first_seen(a).len() <= spec_first_seen(whole).len(),
        spec_first_seen(whole).take(spec_first_seen(a).len() as int) == spec_first_seen(a),
{
    let b = whole.skip(a.len() as int);
    assert(a + b =~= whole);
    lemma_first_seen_prefix(a, b);
}

/// Patching requests leaves the events at other positions as they were.
proof fn lemma_patched_other(ev: Seq<DSEEvent>, rs: Seq<ProgramRequest>, ids: Seq<(u8, u8)>, j: int)
    requires
        forall|k: int| 0 <= k < rs.len() ==> (#[trigger] rs[k]).0 != j,
        forall|k: int| 0 <= k < rs.len() ==> (#[trigger] rs[k]).0 < ev.len(),
        0 <= j < ev.len(),
    ensures
        spec_patched(ev, rs, ids).len() == ev.len(),
        spec_patched(ev, rs, ids)[j] == ev[j],
    decreases rs.len(),
{
    if rs.len() > 0 {
        assert forall|k: int| 0 <= k < rs.drop_last().len() implies (#[trigger] rs.drop_last()[k]).0 != j && rs.drop_last()[k].0 < ev.len() by {
            assert(rs.drop_last()[k] == rs[k]);
        }
        lemma_patched_other(ev, rs.drop_last(), ids, j);
        assert(rs.last() == rs[rs.len() - 1]);
    }
}

/// The DSE program id of a (bank, program) pair read as one number:
/// `bank * 128 + program`.
pub open spec fn spec_bank_id(pair: (u8, u8)) -> int {
    pair.0 * 128 + pair.1
}

/// Whether every requested pair's `bank * 128 + program` fits in a byte.
pub open spec fn spec_bank_ids_fit(reqs: Seq<Seq<ProgramRequest>>) -> bool {
    forall|t: int, k: int| 0 <= t < reqs.len() && 0 <= k < reqs[t].len() ==> spec_bank_id((#[trigger] reqs[t][k]).1) <= 255
}

/// The events of a track after each request's "SetProgram" event got the
/// id `bank * 128 + program` of its pair.
pub open spec fn spec_patched_by_bank(ev: Seq<DSEEvent>, rs: Seq<ProgramRequest>) -> Seq<DSEEvent>
    decreases rs.len(),
{
    if rs.len() == 0 {
        ev
    } else {
        spec_patched_by_bank(ev, rs.drop_last()).update(rs.last().0 as int, spec_other(0xAC, spec_params(seq![spec_bank_id(rs.last().1) as u8])))
    }
}

/// An event that no request points to keeps its place and value.
proof fn lemma_by_bank_other(ev: Seq<DSEEvent>, rs: Seq<ProgramRequest>, j: int)
    requires
        forall|k: int| 0 <= k < rs.len() ==> (#[trigger] rs[k]).0 != j,
        forall|k: int| 0 <= k < rs.len() ==> (#[trigger] rs[k]).0 < ev.len(),
        0 <= j < ev.len(),
    ensures
        spec_patched_by_bank(ev, rs).len() == ev.len(),
        spec_patched_by_bank(ev, rs)[j] == ev[j],
    decreases rs.len(),
{
    if rs.len() > 0 {
        assert forall|k: int| 0 <= k < rs.drop_last().len() implies (#[trigger] rs.drop_last()[k]).0 != j && rs.drop_last()[k].0 < ev.len() by {
            assert(rs.drop_last()[k] == rs[k]);
        }
        lemma_by_bank_other(ev, rs.drop_last(), j);
        assert(rs.last() == rs[rs.len() - 1]);
    }
}

/// The event that a request points to, the requests' indices increasing,
/// carries the id of the request's pair.
proof fn lemma_by_bank_request(ev: Seq<DSEEvent>, rs: Seq<ProgramRequest>, k: int)
    requires
        forall|a: int, b: int| 0 <= a < b < rs.len() ==> (#[trigger] rs[a]).0 < (#[trigger] rs[b]).0,
        forall|q: int| 0 <= q < rs.len() ==> (#[trigger] rs[q]).0 < ev.len(),
        0 <= k < rs.len(),
    ensures
        spec_patched_by_bank(ev, rs).len() == ev.len(),
        spec_patched_by_bank(ev, rs)[rs[k].0 as int] == spec_other(0xAC, spec_params(seq![spec_bank_id(rs[k].1) as u8])),
    decreases rs.len(),
{
    let d = rs.drop_last();
    assert forall|a: int, b: int| 0 <= a < b < d.len() implies (#[trigger] d[a]).0 < (#[trigger] d[b]).0 by {
        assert(d[a] == rs[a] && d[b] == rs[b]);
    }
    assert forall|q: int| 0 <= q < d.len() implies (#[trigger] d[q]).0 < ev.len() by {
        assert(d[q] == rs[q]);
    }
    if d.len() > 0 {
        lemma_by_bank_request(ev, d, 0);
    } else {
        assert(d =~= Seq::<ProgramRequest>::empty());
        assert(spec_patched_by_bank(ev, d) == ev);
    }
    let prev = spec_patched_by_bank(ev, d);
    assert(prev.len() == ev.len());
    assert(rs.last() == rs[rs.len() - 1]);
    assert(spec_patched_by_bank(ev, rs) == prev.update(rs.last().0 as int, spec_other(0xAC, spec_params(seq![spec_bank_id(rs.last().1) as u8]))));
    if k < rs.len() - 1 {
        assert(d[k] == rs[k]);
        assert(rs[k].0 < rs[rs.len() - 1].0);
        lemma_by_bank_request(ev, d, k);
    }
}

/// The writers after their program requests got the ids of their pairs.
pub open spec fn spec_patched_by_bank_trks(trks: Seq<TrkChunkWriterView>, reqs: Seq<Seq<ProgramRequest>>) -> Seq<TrkChunkWriterView> {
    Seq::new(trks.len(), |t: int| TrkChunkWriterView { events: spec_patched_by_bank(trks[t].events, reqs[t]), ..trks[t] })
}

/// Writes into each request's "SetProgram" event the id of its (bank,
/// program) pair read as one number, `bank * 128 + program`: every
/// requested event carries its pair's id and every other event stays.
pub fn assign_program_ids_by_bank(trks: &mut Vec<TrkChunkWriter>, reqs: &Vec<Vec<ProgramRequest>>)
    requires
        spec_all_wf(spec_trk_views(old(trks)@)),
        spec_reqs_ok(spec_trk_views(old(trks)@), spec_req_views(reqs@)),
        spec_bank_ids_fit(spec_req_views(reqs@)),
    ensures
        spec_trk_views(final(trks)@) == spec_patched_by_bank_trks(spec_trk_views(old(trks)@), spec_req_views(reqs@)),
        spec_all_wf(spec_trk_views(final(trks)@)),
        forall|t: int, k: int| 0 <= t < reqs@.len() && 0 <= k < reqs@[t]@.len() ==>
            final(trks)@[t]@.events[(#[trigger] reqs@[t]@[k]).0 as int] == spec_other(0xAC, spec_params(seq![spec_bank_id(reqs@[t]@[k].1) as u8])),
        forall|t: int, j: int| 0 <= t < final(trks)@.len() && 0 <= j < old(trks)@[t]@.events.len()
            && (forall|k: int| 0 <= k < reqs@[t]@.len() ==> (#[trigger] reqs@[t]@[k]).0 != j) ==> (#[trigger] final(trks)@[t]@.events[j]) == old(trks)@[t]@.events[j],
{
    let ghost rv = spec_req_views(reqs@);
    let ghost v0 = spec_trk_views(trks@);
    let n = reqs.len();
    let mut t: usize = 0;
    while t < n
        invariant
            t <= n,
            n == rv.len(),
            n == trks@.len(),
            rv == spec_req_views(reqs@),
            v0 == spec_trk_views(old(trks)@),
            spec_reqs_ok(v0, rv),
            spec_bank_ids_fit(rv),
            forall|u: int| 0 <= u < n ==> #[trigger] spec_trk_views(trks@)[u] == (TrkChunkWriterView {
                events: if u < t { spec_patched_by_bank(v0[u].events, rv[u]) } else { v0[u].events },
                ..v0[u]
            }),
            spec_all_wf(spec_trk_views(trks@)),
        decreases n - t,
    {
        let m = reqs[t].len();
        let mut k: usize = 0;
        while k < m
            invariant
                t < n,
                k <= m,
                m == rv[t as int].len(),
                n == rv.len(),
                n == trks@.len(),
                rv == spec_req_views(reqs@),
                spec_reqs_ok(v0, rv),
                spec_bank_ids_fit(rv),
                forall|u: int| 0 <= u < n ==> #[trigger] spec_trk_views(trks@)[u] == (TrkChunkWriterView {
                    events: if u < t { spec_patched_by_bank(v0[u].events, rv[u]) } else if u == t { spec_patched_by_bank(v0[u].events, rv[u].take(k as int)) } else { v0[u].events },
                    ..v0[u]
                }),
                spec_all_wf(spec_trk_views(trks@)),
            decreases m - k,
        {
            let (idx, pair) = reqs[t][k];
            proof {
                assert(rv[t as int][k as int] == (idx, pair));
            }
            assert(spec_bank_id(pair) <= 255);
            let id: u8 = (pair.0 as u16 * 128 + pair.1 as u16) as u8;
            let ghost tv = spec_trk_views(trks@)[t as int];
            assert(spec_writer_wf(tv));
            proof {
                let rs = rv[t as int].take(k as int);
                assert forall|q: int| 0 <= q < rs.len() implies (#[trigger] rs[q]).0 != idx && rs[q].0 < v0[t as int].events.len() by {
                    assert(rs[q] == rv[t as int][q]);
                    assert(rv[t as int][q].0 < rv[t as int][k as int].0);
                    assert(rv[t as int][q].0 < v0[t as int].events.len());
                }
                lemma_by_bank_other(v0[t as int].events, rs, idx as int);
                assert(rv[t as int][k as int].0 < v0[t as int].events.len());
                assert(tv.events[idx as int] == spec_other(0xAC, spec_params(seq![0u8])));
                lemma_array_from_seq::<5>(spec_params(seq![0u8]));
                lemma_array_from_seq::<5>(spec_params(seq![id]));
                assert(spec_params(seq![0u8]).update(0, id) =~= spec_params(seq![id]));
            }
            let ghost vb = spec_trk_views(trks@);
            let mut e = trks[t].trk_events[idx];
            let _ = TrkChunkWriter::set_other_with_params_u8(&mut e, id);
            assert(e == spec_other(0xAC, spec_params(seq![id])));
            trks[t].trk_events.set(idx, e);
            proof {
                let rs2 = rv[t as int].take(k + 1);
                assert(rs2.drop_last() =~= rv[t as int].take(k as int));
                assert(rs2.last() == (idx, pair));
                assert(spec_bank_id(pair) as u8 == id);
                let nv = spec_trk_views(trks@)[t as int];
                assert(nv.events =~= spec_patched_by_bank(v0[t as int].events, rs2));
                assert forall|q: int| 0 <= q < 256 implies (#[trigger] nv.held[q] matches Some((i2, t2)) ==> i2 < nv.events.len() && nv.events[i2 as int] is PlayNote && t2 <= nv.tick) by {
                    assert(tv.held[q] matches Some((i2, t2)) ==> i2 < tv.events.len() && tv.events[i2 as int] is PlayNote && t2 <= tv.tick);
                }
                assert(spec_writer_wf(nv));
                assert forall|u: int| 0 <= u < n implies #[trigger] spec_trk_views(trks@)[u] == (TrkChunkWriterView {
                    events: if u < t { spec_patched_by_bank(v0[u].events, rv[u]) } else if u == t { spec_patched_by_bank(v0[u].events, rv[u].take(k + 1)) } else { v0[u].events },
                    ..v0[u]
                }) by {
                    if u != t {
                        assert(spec_trk_views(trks@)[u] == vb[u]);
                    }
                }
                assert forall|u: int| 0 <= u < n implies #[trigger] spec_writer_wf(spec_trk_views(trks@)[u]) by {
                    if u != t {
                        assert(spec_trk_views(trks@)[u] == vb[u]);
                        assert(spec_writer_wf(vb[u]));
                    }
                }
            }
            k = k + 1;
        }
        proof {
            assert(rv[t as int].take(m as int) =~= rv[t as int]);
        }
        t = t + 1;
    }
    proof {
        assert(spec_trk_views(trks@) =~= spec_patched_by_bank_trks(v0, rv));
        assert forall|t: int, k: int| 0 <= t < reqs@.len() && 0 <= k < reqs@[t]@.len() implies
            trks@[t]@.events[(#[trigger] reqs@[t]@[k]).0 as int] == spec_other(0xAC, spec_params(seq![spec_bank_id(reqs@[t]@[k].1) as u8])) by {
            assert(rv[t] == reqs@[t]@);
            assert(spec_trk_views(trks@)[t] == trks@[t]@);
            assert(v0[t] == old(trks)@[t]@);
            assert forall|a: int, b: int| 0 <= a < b < rv[t].len() implies (#[trigger] rv[t][a]).0 < (#[trigger] rv[t][b]).0 by {}
            assert forall|q: int| 0 <= q < rv[t].len() implies (#[trigger] rv[t][q]).0 < v0[t].events.len() by {}
            lemma_by_bank_request(v0[t].events, rv[t], k);
        }
        assert forall|t: int, j: int| 0 <= t < trks@.len() && 0 <= j < old(trks)@[t]@.events.len()
            && (forall|k: int| 0 <= k < reqs@[t]@.len() ==> (#[trigger] reqs@[t]@[k]).0 != j) implies (#[trigger] trks@[t]@.events[j]) == old(trks)@[t]@.events[j] by {
            assert(rv[t] == reqs@[t]@);
            assert(spec_trk_views(trks@)[t] == trks@[t]@);
            assert(v0[t] == old(trks)@[t]@);
            assert forall|q: int| 0 <= q < rv[t].len() implies (#[trigger] rv[t][q]).0 != j && rv[t][q].0 < v0[t].events.len() by {
                assert(rv[t][q] == reqs@[t]@[q]);
            }
            lemma_by_bank_other(v0[t].events, rv[t], j);
        }
    }
}

/// The pairs of the requests of tracks `0..n` hold the pair of each request
/// of those tracks.
proof fn lemma_track_pairs_contains(reqs: Seq<Seq<ProgramRequest>>, n: nat, t: int, k: int)
    requires
        0 <= t < n <= reqs.len(),
        0 <= k < reqs[t].len(),
    ensures
        spec_track_pairs(reqs, n).contains(reqs[t][k].1),
    decreases n,
{
    let prev = spec_track_pairs(reqs, (n - 1) as nat);
    let m = reqs[n - 1].map_values(|r: ProgramRequest| r.1);
    assert(spec_track_pairs(reqs, n) == prev + m);
    if t == n - 1 {
        assert((prev + m)[prev.len() + k] == reqs[t][k].1);
    } else {
        lemma_track_pairs_contains(reqs, (n - 1) as nat, t, k);
        let q = choose|q: int| 0 <= q < prev.len() && prev[q] == reqs[t][k].1;
        assert((prev + m)[q] == reqs[t][k].1);
    }
}

/// The event that a request points to, the requests' indices increasing,
/// carries the place of the request's pair among `ids`.
proof fn lemma_patched_request(ev: Seq<DSEEvent>, rs: Seq<ProgramRequest>, ids: Seq<(u8, u8)>, k: int)
    requires
        forall|a: int, b: int| 0 <= a < b < rs.len() ==> (#[trigger] rs[a]).0 < (#[trigger] rs[b]).0,
        forall|q: int| 0 <= q < rs.len() ==> (#[trigger] rs[q]).0 < ev.len(),
        0 <= k < rs.len(),
    ensures
        spec_patched(ev, rs, ids).len() == ev.len(),
        spec_patched(ev, rs, ids)[rs[k].0 as int] == spec_other(0xAC, spec_params(seq![ids.index_of(rs[k].1) as u8])),
    decreases rs.len(),
{
    let d = rs.drop_last();
    assert forall|a: int, b: int| 0 <= a < b < d.len() implies (#[trigger] d[a]).0 < (#[trigger] d[b]).0 by {
        assert(d[a] == rs[a] && d[b] == rs[b]);
    }
    assert forall|q: int| 0 <= q < d.len() implies (#[trigger] d[q]).0 < ev.len() by {
        assert(d[q] == rs[q]);
    }
    if d.len() > 0 {
        lemma_patched_request(ev, d, ids, 0);
    } else {
        assert(d =~= Seq::<ProgramRequest>::empty());
        assert(spec_patched(ev, d, ids) == ev);
    }
    let prev = spec_patched(ev, d, ids);
    assert(prev.len() == ev.len());
    assert(rs.last() == rs[rs.len() - 1]);
    if k < rs.len() - 1 {
        assert(d[k] == rs[k]);
        assert(rs[k].0 < rs[rs.len() - 1].0);
        lemma_patched_request(ev, d, ids, k);
    }
}

/// Gives each (bank, program) pair that the requests ask for a DSE program
/// id, the next one in order of first appearance track by track, and writes
/// each request's id into its "SetProgram" event. Gives the pairs by id.
pub fn assign_program_ids(trks: &mut Vec<TrkChunkWriter>, reqs: &Vec<Vec<ProgramRequest>>) -> (r: Vec<(u8, u8)>)
    requires
        spec_all_wf(spec_trk_views(old(trks)@)),
        spec_reqs_ok(spec_trk_views(old(trks)@), spec_req_views(reqs@)),
        spec_program_ids(spec_req_views(reqs@)).len() <= 255,
    ensures
        r@ == spec_program_ids(spec_req_views(reqs@)),
        spec_trk_views(final(trks)@) == spec_patched_trks(spec_trk_views(old(trks)@), spec_req_views(reqs@), r@),
        spec_all_wf(spec_trk_views(final(trks)@)),
        forall|t: int, k: int| 0 <= t < reqs@.len() && 0 <= k < reqs@[t]@.len() ==> exists|id: int| 0 <= id < r@.len()
            && r@[id] == (#[trigger] reqs@[t]@[k]).1
            && final(trks)@[t]@.events[reqs@[t]@[k].0 as int] == spec_other(0xAC, spec_params(seq![id as u8])),
{
    let ghost rv = spec_req_views(reqs@);
    let ghost v0 = spec_trk_views(trks@);
    let ghost ids = spec_program_ids(rv);
    let ghost whole = spec_track_pairs(rv, rv.len());
    proof {
        lemma_first_seen_facts(whole);
    }
    let n = reqs.len();
    let mut pairs: Vec<(u8, u8)> = Vec::new();
    let mut t: usize = 0;
    while t < n
        invariant
            t <= n,
            n == rv.len(),
            n == trks@.len(),
            rv == spec_req_views(reqs@),
            v0 == spec_trk_views(old(trks)@),
            spec_reqs_ok(v0, rv),
            ids == spec_program_ids(rv),
            ids.len() <= 255,
            ids.no_duplicates(),
            whole == spec_track_pairs(rv, rv.len()),
            pairs@ == spec_first_seen(spec_track_pairs(rv, t as nat)),
            forall|u: int| 0 <= u < n ==> #[trigger] spec_trk_views(trks@)[u] == (TrkChunkWriterView {
                events: if u < t { spec_patched(v0[u].events, rv[u], ids) } else { v0[u].events },
                ..v0[u]
            }),
            spec_all_wf(spec_trk_views(trks@)),
        decreases n - t,
    {
        let m = reqs[t].len();
        let ghost base = spec_track_pairs(rv, t as nat);
        let mut k: usize = 0;
        while k < m
            invariant
                t < n,
                k <= m,
                m == rv[t as int].len(),
                n == rv.len(),
                n == trks@.len(),
                rv == spec_req_views(reqs@),
                spec_reqs_ok(v0, rv),
                ids == spec_program_ids(rv),
                ids.len() <= 255,
                ids.no_duplicates(),
                whole == spec_track_pairs(rv, rv.len()),
                base == spec_track_pairs(rv, t as nat),
                pairs@ == spec_first_seen(base + rv[t as int].take(k as int).map_values(|r: ProgramRequest| r.1)),
                forall|u: int| 0 <= u < n ==> #[trigger] spec_trk_views(trks@)[u] == (TrkChunkWriterView {
                    events: if u < t { spec_patched(v0[u].events, rv[u], ids) } else if u == t { spec_patched(v0[u].events, rv[u].take(k as int), ids) } else { v0[u].events },
                    ..v0[u]
                }),
                spec_all_wf(spec_trk_views(trks@)),
            decreases m - k,
        {
            let (idx, pair) = reqs[t][k];
            let ghost done = base + rv[t as int].take(k as int).map_values(|r: ProgramRequest| r.1);
            let ghost done2 = base + rv[t as int].take(k + 1).map_values(|r: ProgramRequest| r.1);
            proof {
                assert(rv[t as int][k as int] == (idx, pair));
                assert(done2 =~= done.push(pair));
                assert(done2.drop_last() =~= done);
                assert(done2.last() == pair);
                // `done2` is a prefix of all pairs
                lemma_track_pairs_prefix(rv, (t + 1) as nat, rv.len());
                let next = spec_track_pairs(rv, (t + 1) as nat);
                assert(next == base + rv[t as int].map_values(|r: ProgramRequest| r.1));
                assert(next.take(done2.len() as int) =~= done2);
                assert(whole.take(done2.len() as int) =~= done2);
                lemma_first_seen_of_prefix(done2, whole);
            }
            let j: usize = match find_pair(&pairs, pair) {
                Some(j) => {
                    proof {
                        assert(spec_first_seen(done2) == pairs@);
                        lemma_index_of_prefix(ids, pairs@, j as int, pair);
                    }
                    j
                },
                None => {
                    let j = pairs.len();
                    pairs.push(pair);
                    proof {
                        assert(spec_first_seen(done2) == pairs@);
                        lemma_index_of_prefix(ids, pairs@, j as int, pair);
                    }
                    j
                },
            };
            assert(ids.index_of(pair) == j);
            // the event still waits for its id
            let ghost tv = spec_trk_views(trks@)[t as int];
            assert(spec_writer_wf(tv));
            proof {
                let rs = rv[t as int].take(k as int);
                assert forall|q: int| 0 <= q < rs.len() implies (#[trigger] rs[q]).0 != idx && rs[q].0 < v0[t as int].events.len() by {
                    assert(rs[q] == rv[t as int][q]);
                    assert(rv[t as int][q].0 < rv[t as int][k as int].0);
                    assert(rv[t as int][q].0 < v0[t as int].events.len());
                }
                lemma_patched_other(v0[t as int].events, rs, ids, idx as int);
                assert(rv[t as int][k as int].0 < v0[t as int].events.len());
                assert(tv.events[idx as int] == spec_other(0xAC, spec_params(seq![0u8])));
                lemma_array_from_seq::<5>(spec_params(seq![0u8]));
                lemma_array_from_seq::<5>(spec_params(seq![j as u8]));
                assert(spec_params(seq![0u8]).update(0, j as u8) =~= spec_params(seq![j as u8]));
            }
            let ghost vb = spec_trk_views(trks@);
            let mut e = trks[t].trk_events[idx];
            let _ = TrkChunkWriter::set_other_with_params_u8(&mut e, j as u8);
            assert(e == spec_other(0xAC, spec_params(seq![j as u8])));
            trks[t].trk_events.set(idx, e);
            proof {
                let rs2 = rv[t as int].take(k + 1);
                assert(rs2.drop_last() =~= rv[t as int].take(k as int));
                assert(rs2.last() == (idx, pair));
                let nv = spec_trk_views(trks@)[t as int];
                assert(nv.events =~= spec_patched(v0[t as int].events, rs2, ids));
                // still consistent
                assert forall|q: int| 0 <= q < 256 implies (#[trigger] nv.held[q] matches Some((i2, t2)) ==> i2 < nv.events.len() && nv.events[i2 as int] is PlayNote && t2 <= nv.tick) by {
                    assert(tv.held[q] matches Some((i2, t2)) ==> i2 < tv.events.len() && tv.events[i2 as int] is PlayNote && t2 <= tv.tick);
                }
                assert(spec_writer_wf(nv));
                assert(nv == (TrkChunkWriterView { events: spec_patched(v0[t as int].events, rs2, ids), ..v0[t as int] }));
                assert forall|u: int| 0 <= u < n implies #[trigger] spec_trk_views(trks@)[u] == (TrkChunkWriterView {
                    events: if u < t { spec_patched(v0[u].events, rv[u], ids) } else if u == t { spec_patched(v0[u].events, rv[u].take(k + 1), ids) } else { v0[u].events },
                    ..v0[u]
                }) by {
                    if u != t {
                        assert(spec_trk_views(trks@)[u] == vb[u]);
                    }
                }
                assert forall|u: int| 0 <= u < n implies #[trigger] spec_writer_wf(spec_trk_views(trks@)[u]) by {
                    if u != t {
                        assert(spec_trk_views(trks@)[u] == vb[u]);
                        assert(spec_writer_wf(vb[u]));
                    }
                }
            }
            k = k + 1;
        }
        proof {
            assert(rv[t as int].take(m as int) =~= rv[t as int]);
            assert(spec_track_pairs(rv, (t + 1) as nat) =~= base + rv[t as int].map_values(|r: ProgramRequest| r.1));
        }
        t = t + 1;
    }
    proof {
        assert(spec_trk_views(trks@) =~= spec_patched_trks(v0, rv, ids));
        lemma_first_seen_facts(whole);
        assert forall|t: int, k: int| 0 <= t < reqs@.len() && 0 <= k < reqs@[t]@.len() implies exists|id: int| 0 <= id < ids.len()
            && ids[id] == (#[trigger] reqs@[t]@[k]).1
            && trks@[t]@.events[reqs@[t]@[k].0 as int] == spec_other(0xAC, spec_params(seq![id as u8])) by {
            assert(rv[t] == reqs@[t]@);
            assert(spec_trk_views(trks@)[t] == trks@[t]@);
            lemma_track_pairs_contains(rv, rv.len(), t, k);
            assert(ids.contains(rv[t][k].1));
            let id = ids.index_of(rv[t][k].1);
            assert forall|a: int, b: int| 0 <= a < b < rv[t].len() implies (#[trigger] rv[t][a]).0 < (#[trigger] rv[t][b]).0 by {}
            assert forall|q: int| 0 <= q < rv[t].len() implies (#[trigger] rv[t][q]).0 < v0[t].events.len() by {}
            lemma_patched_request(v0[t].events, rv[t], ids, k);
            assert(0 <= id < ids.len() && ids[id] == rv[t][k].1);
        }
    }
    pairs
}

// ---------------------------------------------------------------------------
// The tracks of a song from a MIDI stream
// ---------------------------------------------------------------------------

/// A writer's default program: bank `bank` is selected, then program 0, both
/// by default and each recorded as a request (the second takes the first
/// back: they are at the same tick).
pub open spec fn spec_default_program(w0: TrkChunkWriterView, bank: u8) -> (TrkChunkWriterView, Seq<ProgramRequest>) {
    let (w1, i1, s1) = spec_program_event(TrkChunkWriterView { bank, ..w0 }, true, Some(0u8));
    let r1 = spec_request(seq![Seq::<ProgramRequest>::empty()], 0, s1, i1, w1.bank, w1.program);
    let (w2, i2, s2) = spec_program_event(TrkChunkWriterView { program: 0, ..w1 }, true, Some(0u8));
    let r2 = spec_request(r1, 0, s2, i2, w2.bank, w2.program);
    (w2, r2[0])
}

/// Whether an event of the stream on channel `ch` (counted from 1) selects
/// a bank (controller 0) or a program.
pub open spec fn spec_channel_selects(evs: Seq<MidiEventView>, ch: int) -> bool {
    exists|i: int| 0 <= i < evs.len() && match #[trigger] evs[i].kind {
        MidiEventKindView::Midi { channel, message } => channel + 1 == ch && match message {
            MidiMessage::Controller { controller, .. } => controller == 0,
            MidiMessage::ProgramChange { .. } => true,
            _ => false,
        },
        _ => false,
    }
}

/// The bank a track starts with: 128 (the drums) for track 10 when no event
/// of channel 10 selects a bank or program, else 0.
pub open spec fn spec_default_bank(evs: Seq<MidiEventView>, k: int) -> u8 {
    if k == 10 && !spec_channel_selects(evs, 10) { 128 } else { 0 }
}

/// Before a stream is copied, track 0 has used no program and each track
/// `k` from 1 to 16 has used one, by default: program 0 of bank 0, but bank
/// 128 (the drums) on track 10 where no event of MIDI channel 9 selects a
/// bank (controller 0) or a program.
pub proof fn lemma_initial_programs(evs: Seq<MidiEventView>, link_bytes: (u8, u8))
    ensures
        spec_initial_state(evs, link_bytes).trks.len() == 17,
        spec_initial_state(evs, link_bytes).trks[0].programs_used.len() == 0,
        forall|k: int| 1 <= k < 17 ==> (#[trigger] spec_initial_state(evs, link_bytes).trks[k]).programs_used == seq![ProgramUsedView {
            bank: if k == 10 && !(exists|i: int| 0 <= i < evs.len() && ((#[trigger] evs[i]).kind matches MidiEventKindView::Midi { channel, message }
                && channel == 9 && (message matches MidiMessage::Controller { controller, .. } ==> controller == 0)
                && (message is Controller || message is ProgramChange))) { 128 } else { 0 },
            program: 0,
            is_default: true,
            notes: Set::empty(),
        }],
{
    let st = spec_initial_state(evs, link_bytes);
    assert forall|k: int| 1 <= k < 17 implies (#[trigger] st.trks[k]).programs_used == seq![ProgramUsedView {
            bank: if k == 10 && !(exists|i: int| 0 <= i < evs.len() && ((#[trigger] evs[i]).kind matches MidiEventKindView::Midi { channel, message }
                && channel == 9 && (message matches MidiMessage::Controller { controller, .. } ==> controller == 0)
                && (message is Controller || message is ProgramChange))) { 128 } else { 0 },
            program: 0,
            is_default: true,
            notes: Set::empty(),
        }] by {
        let w0 = TrkChunkWriter::spec_created(k as u8, (k - 1) as u8, link_bytes);
        let b = spec_default_bank(evs, k);
        let (w1, i1, s1) = spec_program_event(TrkChunkWriterView { bank: b, ..w0 }, true, Some(0u8));
        assert(!s1);
        assert(w1.programs_used == seq![ProgramUsedView { bank: b, program: 0, is_default: true, notes: Set::empty() }]);
        let (w2, i2, s2) = spec_program_event(TrkChunkWriterView { program: 0, ..w1 }, true, Some(0u8));
        assert(s2);
        assert(w2.programs_used == seq![ProgramUsedView { bank: b, program: 0, is_default: true, notes: Set::empty() }]);
        if k == 10 {
            let sel = spec_channel_selects(evs, 10);
            let raw = exists|i: int| 0 <= i < evs.len() && ((#[trigger] evs[i]).kind matches MidiEventKindView::Midi { channel, message }
                && channel == 9 && (message matches MidiMessage::Controller { controller, .. } ==> controller == 0)
                && (message is Controller || message is ProgramChange));
            if sel {
                let i = choose|i: int| 0 <= i < evs.len() && match #[trigger] evs[i].kind {
                    MidiEventKindView::Midi { channel, message } => channel + 1 == 10 && match message {
                        MidiMessage::Controller { controller, .. } => controller == 0,
                        MidiMessage::ProgramChange { .. } => true,
                        _ => false,
                    },
                    _ => false,
                };
                assert(raw);
            }
            if raw {
                let i = choose|i: int| 0 <= i < evs.len() && ((#[trigger] evs[i]).kind matches MidiEventKindView::Midi { channel, message }
                    && channel == 9 && (message matches MidiMessage::Controller { controller, .. } ==> controller == 0)
                    && (message is Controller || message is ProgramChange));
                assert(sel);
            }
        }
    }
}

/// Whether every program that the writers used has `bank * 128 + program`
/// within a byte.
pub open spec fn spec_used_ids_fit(tv: Seq<TrkChunkWriterView>) -> bool {
    forall|t: int, k: int| 0 <= t < tv.len() && 0 <= k < tv[t].programs_used.len()
        ==> (#[trigger] tv[t].programs_used[k]).bank * 128 + tv[t].programs_used[k].program <= 255
}

/// The DSE program ids, `bank * 128 + program`, of the programs that the
/// first `n` writers used, track by track and in the order they were used.
pub open spec fn spec_used_ids(tv: Seq<TrkChunkWriterView>, n: int) -> Seq<u16>
    decreases n,
{
    if n <= 0 {
        Seq::empty()
    } else {
        spec_used_ids(tv, n - 1) + tv[n - 1].programs_used.map_values(|p: ProgramUsedView| (p.bank * 128 + p.program) as u16)
    }
}

/// The DSE program ids, `bank * 128 + program`, of the programs that the
/// writers used, track by track and in the order they were used.
pub fn used_program_ids(trks: &Vec<TrkChunkWriter>) -> (r: Vec<u16>)
    requires
        spec_used_ids_fit(spec_trk_views(trks@)),
    ensures
        r@ == spec_used_ids(spec_trk_views(trks@), trks@.len() as int),
{
    let ghost tv = spec_trk_views(trks@);
    let mut out: Vec<u16> = Vec::new();
    let mut t: usize = 0;
    while t < trks.len()
        invariant
            t <= trks@.len(),
            tv == spec_trk_views(trks@),
            spec_used_ids_fit(tv),
            out@ == spec_used_ids(tv, t as int),
        decreases trks.len() - t,
    {
        let u = &trks[t].programs_used;
        let ghost pv = tv[t as int].programs_used;
        assert(pv.len() == u@.len());
        let mut k: usize = 0;
        while k < u.len()
            invariant
                t < trks@.len(),
                k <= u@.len(),
                tv == spec_trk_views(trks@),
                spec_used_ids_fit(tv),
                u == &trks@[t as int].programs_used,
                pv == tv[t as int].programs_used,
                pv.len() == u@.len(),
                out@ == spec_used_ids(tv, t as int) + pv.take(k as int).map_values(|p: ProgramUsedView| (p.bank * 128 + p.program) as u16),
            decreases u.len() - k,
        {
            assert(pv[k as int] == u@[k as int]@);
            assert(pv[k as int].bank * 128 + pv[k as int].program <= 255);
            let id = u[k].to_dse();
            let ghost before = out@;
            out.push(id as u16);
            assert(pv.take(k + 1).map_values(|p: ProgramUsedView| (p.bank * 128 + p.program) as u16)
                =~= pv.take(k as int).map_values(|p: ProgramUsedView| (p.bank * 128 + p.program) as u16).push(id as u16));
            assert(out@ =~= spec_used_ids(tv, t as int) + pv.take(k + 1).map_values(|p: ProgramUsedView| (p.bank * 128 + p.program) as u16));
            k = k + 1;
        }
        assert(pv.take(k as int) =~= pv);
        t = t + 1;
    }
    out
}

/// Closes each writer into its track chunk, in order.
pub fn closed_tracks(trks: Vec<TrkChunkWriter>) -> (r: Vec<TrkChunk>)
    requires
        spec_all_wf(spec_trk_views(trks@)),
    ensures
        r@.len() == trks@.len(),
        forall|k: int| 0 <= k < r@.len() ==> (#[trigger] r@[k])@ == spec_closed(trks@[k]@),
{
    let ghost tv = spec_trk_views(trks@);
    let n = trks.len();
    let mut rest = trks;
    let mut back: Vec<TrkChunk> = Vec::new();
    while rest.len() > 0
        invariant
            rest@.len() + back@.len() == n,
            n == tv.len(),
            forall|j: int| 0 <= j < rest@.len() ==> #[trigger] rest@[j]@ == tv[j],
            spec_all_wf(tv),
            forall|j: int| 0 <= j < back@.len() ==> #[trigger] back@[j]@ == spec_closed(tv[n - 1 - j]),
        decreases rest@.len(),
    {
        let ghost k = back@.len();
        let w = rest.pop().unwrap();
        assert(w@ == tv[n - 1 - k]);
        assert(spec_writer_wf(tv[n - 1 - k]));
        back.push(w.close_track());
    }
    let mut out: Vec<TrkChunk> = Vec::new();
    while back.len() > 0
        invariant
            back@.len() + out@.len() == n,
            n == tv.len(),
            forall|j: int| 0 <= j < back@.len() ==> #[trigger] back@[j]@ == spec_closed(tv[n - 1 - j]),
            forall|j: int| 0 <= j < out@.len() ==> #[trigger] out@[j]@ == spec_closed(tv[j]),
        decreases back@.len(),
    {
        let c = back.pop().unwrap();
        out.push(c);
    }
    out
}

/// Whether every requested pair's `bank * 128 + program` fits in a byte.
pub fn bank_ids_fit(reqs: &Vec<Vec<ProgramRequest>>) -> (r: bool)
    ensures
        r == spec_bank_ids_fit(spec_req_views(reqs@)),
{
    let ghost rv = spec_req_views(reqs@);
    let mut t: usize = 0;
    while t < reqs.len()
        invariant
            t <= reqs@.len(),
            rv == spec_req_views(reqs@),
            forall|a: int, k: int| 0 <= a < t && 0 <= k < rv[a].len() ==> spec_bank_id((#[trigger] rv[a][k]).1) <= 255,
        decreases reqs.len() - t,
    {
        let mut k: usize = 0;
        while k < reqs[t].len()
            invariant
                t < reqs@.len(),
                k <= reqs@[t as int]@.len(),
                rv == spec_req_views(reqs@),
                forall|a: int, q: int| 0 <= a < t && 0 <= q < rv[a].len() ==> spec_bank_id((#[trigger] rv[a][q]).1) <= 255,
                forall|q: int| 0 <= q < k ==> spec_bank_id((#[trigger] rv[t as int][q]).1) <= 255,
            decreases reqs@[t as int]@.len() - k,
        {
            let (_idx, pair) = reqs[t][k];
            assert(rv[t as int][k as int] == (_idx, pair));
            if pair.0 as u16 * 128 + pair.1 as u16 > 255 {
                return false;
            }
            k = k + 1;
        }
        t = t + 1;
    }
    true
}

/// Whether every program that the writers used has `bank * 128 + program`
/// within a byte.
pub fn used_ids_fit(trks: &Vec<TrkChunkWriter>) -> (r: bool)
    ensures
        r == spec_used_ids_fit(spec_trk_views(trks@)),
{
    let ghost tv = spec_trk_views(trks@);
    let mut t: usize = 0;
    while t < trks.len()
        invariant
            t <= trks@.len(),
            tv == spec_trk_views(trks@),
            forall|a: int, k: int| 0 <= a < t && 0 <= k < tv[a].programs_used.len()
                ==> (#[trigger] tv[a].programs_used[k]).bank * 128 + tv[a].programs_used[k].program <= 255,
        decreases trks.len() - t,
    {
        let u = &trks[t].programs_used;
        let mut k: usize = 0;
        while k < u.len()
            invariant
                t < trks@.len(),
                k <= u@.len(),
                tv == spec_trk_views(trks@),
                u == &trks@[t as int].programs_used,
                forall|a: int, q: int| 0 <= a < t && 0 <= q < tv[a].programs_used.len()
                    ==> (#[trigger] tv[a].programs_used[q]).bank * 128 + tv[a].programs_used[q].program <= 255,
                forall|q: int| 0 <= q < k ==> (#[trigger] tv[t as int].programs_used[q]).bank * 128 + tv[t as int].programs_used[q].program <= 255,
            decreases u.len() - k,
        {
            assert(tv[t as int].programs_used[k as int] == u@[k as int]@);
            if u[k].bank as u16 * 128 + u[k].program as u16 > 255 {
                return false;
            }
            k = k + 1;
        }
        t = t + 1;
    }
    true
}

/// The writers of a song's 17 tracks as the song tool makes them: track
/// `k` with track and channel number `k`, no program chosen and no request.
pub open spec fn spec_tool_state(link_bytes: (u8, u8)) -> CopyState {
    CopyState {
        trks: Seq::new(17, |k: int| TrkChunkWriter::spec_created(k as u8, k as u8, link_bytes)),
        reqs: Seq::new(17, |k: int| Seq::<ProgramRequest>::empty()),
    }
}

/// The writers of a song's 17 tracks as the song tool makes them (see
/// `spec_tool_state`), with their empty program requests.
pub fn tool_writers(link_bytes: (u8, u8)) -> (r: (Vec<TrkChunkWriter>, Vec<Vec<ProgramRequest>>))
    ensures
        spec_state(r.0@, r.1@) == spec_tool_state(link_bytes),
        spec_all_wf(spec_trk_views(r.0@)),
        spec_reqs_ok(spec_trk_views(r.0@), spec_req_views(r.1@)),
        r.1@.len() == r.0@.len(),
{
    let ghost goal = spec_tool_state(link_bytes);
    let mut trks: Vec<TrkChunkWriter> = Vec::new();
    let mut reqs: Vec<Vec<ProgramRequest>> = Vec::new();
    let mut k: u8 = 0;
    while k < 17
        invariant
            k <= 17,
            trks@.len() == k,
            reqs@.len() == k,
            forall|j: int| 0 <= j < k ==> (#[trigger] trks@[j])@ == goal.trks[j],
            forall|j: int| 0 <= j < k ==> (#[trigger] reqs@[j])@ == Seq::<ProgramRequest>::empty(),
            spec_all_wf(spec_trk_views(trks@)),
            spec_reqs_ok(spec_trk_views(trks@), spec_req_views(reqs@)),
            goal == spec_tool_state(link_bytes),
        decreases 17 - k,
    {
        let w = match TrkChunkWriter::create(k, k, link_bytes) {
            Ok(w) => w,
            Err(_) => vstd::pervasive::unreached(),
        };
        let r: Vec<ProgramRequest> = Vec::new();
        proof {
            assert(spec_reqs_ok(seq![w@], seq![r@]));
            lemma_reqs_push(spec_trk_views(trks@), spec_req_views(reqs@), w@, r@);
        }
        let ghost t0 = trks@;
        let ghost r0 = reqs@;
        trks.push(w);
        reqs.push(r);
        proof {
            assert(spec_trk_views(trks@) =~= spec_trk_views(t0).push(w@));
            assert(spec_req_views(reqs@) =~= spec_req_views(r0).push(r@));
            assert forall|j: int| 0 <= j < spec_trk_views(trks@).len() implies #[trigger] spec_writer_wf(spec_trk_views(trks@)[j]) by {
                if j < t0.len() {
                    assert(spec_trk_views(trks@)[j] == spec_trk_views(t0)[j]);
                }
            }
        }
        k = k + 1;
    }
    assert(spec_state(trks@, reqs@) =~= goal);
    (trks, reqs)
}

/// The writers of a song's 17 tracks before the stream is copied: track 0
/// for meta events, track `k` for channel `k - 1`, with its default program.
pub open spec fn spec_initial_state(evs: Seq<MidiEventView>, link_bytes: (u8, u8)) -> CopyState {
    CopyState {
        trks: Seq::new(17, |k: int| if k == 0 {
            TrkChunkWriter::spec_created(0, 0, link_bytes)
        } else {
            spec_default_program(TrkChunkWriter::spec_created(k as u8, (k - 1) as u8, link_bytes), spec_default_bank(evs, k)).0
        }),
        reqs: Seq::new(17, |k: int| if k == 0 {
            Seq::empty()
        } else {
            spec_default_program(TrkChunkWriter::spec_created(k as u8, (k - 1) as u8, link_bytes), spec_default_bank(evs, k)).1
        }),
    }
}

/// Whether an event of the stream on channel `ch` selects a bank or program.
fn channel_selects(evs: &Vec<MidiEvent>, ch: u8) -> (r: bool)
    ensures
        r == spec_channel_selects(spec_event_views(evs@), ch as int),
{
    let ghost ev = spec_event_views(evs@);
    let mut i: usize = 0;
    while i < evs.len()
        invariant
            i <= evs@.len(),
            ev == spec_event_views(evs@),
            forall|j: int| 0 <= j < i ==> !(match #[trigger] ev[j].kind {
                MidiEventKindView::Midi { channel, message } => channel + 1 == ch && match message {
                    MidiMessage::Controller { controller, .. } => controller == 0,
                    MidiMessage::ProgramChange { .. } => true,
                    _ => false,
                },
                _ => false,
            }),
        decreases evs@.len() - i,
    {
        assert(ev[i as int] == evs@[i as int]@);
        match &evs[i].kind {
            MidiEventKind::Midi { channel, message } => {
                assert(ev[i as int].kind == (MidiEventKindView::Midi { channel: *channel, message: *message }));
                if *channel as u16 + 1 == ch as u16 {
                    match message {
                        MidiMessage::Controller { controller, .. } => {
                            if *controller == 0 {
                                return true;
                            }
                        },
                        MidiMessage::ProgramChange { .. } => {
                            return true;
                        },
                        _ => {},
                    }
                }
            },
            _ => {},
        }
        i = i + 1;
    }
    false
}

/// A track whose requests fit its writer joins a song whose requests fit.
proof fn lemma_reqs_push(trks: Seq<TrkChunkWriterView>, reqs: Seq<Seq<ProgramRequest>>, w: TrkChunkWriterView, r: Seq<ProgramRequest>)
    requires
        spec_reqs_ok(trks, reqs),
        spec_reqs_ok(seq![w], seq![r]),
    ensures
        spec_reqs_ok(trks.push(w), reqs.push(r)),
{
    let t2 = trks.push(w);
    let r2 = reqs.push(r);
    let n = trks.len() as int;
    assert forall|t: int, k: int| 0 <= t < r2.len() && 0 <= k < r2[t].len() implies {
        &&& (#[trigger] r2[t][k]).0 < t2[t].events.len()
        &&& t2[t].events[r2[t][k].0 as int] == spec_other(0xAC, spec_params(seq![0u8]))
    } by {
        if t == n {
            assert(seq![r][0] == r && seq![w][0] == w);
            assert(seq![r][0][k].0 < seq![w][0].events.len());
        } else {
            assert(r2[t] == reqs[t] && t2[t] == trks[t]);
            assert(reqs[t][k].0 < trks[t].events.len());
        }
    }
    assert forall|t: int, k1: int, k2: int| 0 <= t < r2.len() && 0 <= k1 < k2 < r2[t].len() implies (#[trigger] r2[t][k1]).0 < (#[trigger] r2[t][k2]).0 by {
        if t == n {
            assert(seq![r][0] == r);
            assert(seq![r][0][k1].0 < seq![r][0][k2].0);
        } else {
            assert(r2[t] == reqs[t]);
            assert(reqs[t][k1].0 < reqs[t][k2].0);
        }
    }
    assert forall|t: int| 0 <= t < t2.len() implies (#[trigger] t2[t].last_pc_tick is Some ==> t2[t].last_pc_index is Some) by {
        if t == n {
            assert(seq![w][0] == w);
            assert(seq![w][0].last_pc_tick is Some ==> seq![w][0].last_pc_index is Some);
        } else {
            assert(trks[t].last_pc_tick is Some ==> trks[t].last_pc_index is Some);
        }
    }
    assert forall|t: int| 0 <= t < t2.len() implies (#[trigger] t2[t].last_pc_index matches Some(q) ==> r2[t].len() > 0 && r2[t].last().0 == q) by {
        if t == n {
            assert(seq![w][0] == w && seq![r][0] == r);
            assert(seq![w][0].last_pc_index matches Some(q) ==> seq![r][0].len() > 0 && seq![r][0].last().0 == q);
        } else {
            assert(trks[t].last_pc_index matches Some(q) ==> reqs[t].len() > 0 && reqs[t].last().0 == q);
        }
    }
}

/// The writer of track `k` (1 to 16) with its default program, and its
/// requests.
fn default_track(k: u8, link_bytes: (u8, u8), bank: u8) -> (r: (TrkChunkWriter, Vec<ProgramRequest>))
    requires
        1 <= k <= 16,
    ensures
        r.0@ == spec_default_program(TrkChunkWriter::spec_created(k, (k - 1) as u8, link_bytes), bank).0,
        r.1@ == spec_default_program(TrkChunkWriter::spec_created(k, (k - 1) as u8, link_bytes), bank).1,
        spec_writer_wf(r.0@),
        spec_reqs_ok(seq![r.0@], seq![r.1@]),
{
    let mut w = match TrkChunkWriter::create(k, k - 1, link_bytes) {
        Ok(w) => w,
        Err(_) => vstd::pervasive::unreached(),
    };
    let mut trks: Vec<TrkChunkWriter> = Vec::new();
    let mut reqs: Vec<Vec<ProgramRequest>> = Vec::new();
    let ghost w0 = w@;
    reqs.push(Vec::new());
    proof {
        assert(spec_req_views(reqs@) =~= seq![Seq::<ProgramRequest>::empty()]);
        assert(spec_reqs_ok(seq![w0], seq![Seq::<ProgramRequest>::empty()]));
        lemma_reqs_program(seq![w0], seq![Seq::<ProgramRequest>::empty()], 0, TrkChunkWriterView { bank, ..w0 });
    }
    let (i1, s1) = match w.bank_select(bank, true, Some(0)) {
        Ok(x) => x,
        Err(_) => vstd::pervasive::unreached(),
    };
    let b1 = w.bank;
    let p1 = w.program;
    record_request(&mut reqs, 0, s1, i1, b1, p1);
    let ghost w1 = w@;
    proof {
        assert(seq![w0].update(0, w1) =~= seq![w1]);
        let _n = w1.events.len();
        lemma_reqs_program(seq![w1], spec_req_views(reqs@), 0, TrkChunkWriterView { program: 0, ..w1 });
    }
    let (i2, s2) = match w.program_change(0, true, Some(0)) {
        Ok(x) => x,
        Err(_) => vstd::pervasive::unreached(),
    };
    let b2 = w.bank;
    let p2 = w.program;
    record_request(&mut reqs, 0, s2, i2, b2, p2);
    proof {
        assert(seq![w1].update(0, w@) =~= seq![w@]);
    }
    let ghost rv = spec_req_views(reqs@);
    let rq = reqs.pop().unwrap();
    assert(rv =~= seq![rq@]);
    (w, rq)
}

/// The 17 writers of a song's tracks that a MIDI stream is copied into
/// (see `spec_initial_state`), with their program requests.
fn initial_writers(midi_messages: &Vec<MidiEvent>, link_bytes: (u8, u8)) -> (r: (Vec<TrkChunkWriter>, Vec<Vec<ProgramRequest>>))
    ensures
        spec_state(r.0@, r.1@) == spec_initial_state(spec_event_views(midi_messages@), link_bytes),
        spec_all_wf(spec_trk_views(r.0@)),
        spec_reqs_ok(spec_trk_views(r.0@), spec_req_views(r.1@)),
        r.1@.len() == r.0@.len(),
{
    let ghost evs = spec_event_views(midi_messages@);
    let ghost init = spec_initial_state(evs, link_bytes);
    let drums_select = channel_selects(midi_messages, 10);
    let mut trks: Vec<TrkChunkWriter> = Vec::new();
    let mut reqs: Vec<Vec<ProgramRequest>> = Vec::new();
    let w0 = match TrkChunkWriter::create(0, 0, link_bytes) {
        Ok(w) => w,
        Err(_) => vstd::pervasive::unreached(),
    };
    trks.push(w0);
    reqs.push(Vec::new());
    proof {
        assert(spec_reqs_ok(spec_trk_views(trks@), spec_req_views(reqs@)));
    }
    let mut k: u8 = 1;
    while k <= 16
        invariant
            1 <= k <= 17,
            trks@.len() == k,
            reqs@.len() == k,
            evs == spec_event_views(midi_messages@),
            init == spec_initial_state(evs, link_bytes),
            drums_select == spec_channel_selects(evs, 10),
            forall|j: int| 0 <= j < k ==> #[trigger] spec_trk_views(trks@)[j] == init.trks[j],
            forall|j: int| 0 <= j < k ==> #[trigger] spec_req_views(reqs@)[j] == init.reqs[j],
            spec_all_wf(spec_trk_views(trks@)),
            spec_reqs_ok(spec_trk_views(trks@), spec_req_views(reqs@)),
        decreases 17 - k,
    {
        let bank: u8 = if k == 10 && !drums_select { 128 } else { 0 };
        let (w, rq) = default_track(k, link_bytes, bank);
        let ghost tv = spec_trk_views(trks@);
        let ghost qv = spec_req_views(reqs@);
        trks.push(w);
        reqs.push(rq);
        proof {
            assert(spec_trk_views(trks@) =~= tv.push(w@));
            assert(spec_req_views(reqs@) =~= qv.push(rq@));
            lemma_reqs_push(tv, qv, w@, rq@);
            assert(spec_default_bank(evs, k as int) == bank);
        }
        k = k + 1;
    }
    proof {
        assert(spec_trk_views(trks@) =~= init.trks);
        assert(spec_req_views(reqs@) =~= init.reqs);
        assert(spec_state(trks@, reqs@) == init);
    }
    (trks, reqs)
}

/// The writers of a song's tracks made from a MIDI stream, and the program
/// pairs by id: 17 writers (see `spec_initial_state`) get the stream
/// copied into them, then each program change gets the id of its pair.
pub fn midi_to_tracks(midi_messages: &Vec<MidiEvent>, link_bytes: (u8, u8)) -> (r: Result<(Vec<TrkChunkWriter>, Vec<(u8, u8)>), DSEError>)
    requires
        ({
            let o = spec_copy(spec_event_views(midi_messages@), 0, spec_initial_state(spec_event_views(midi_messages@), link_bytes), 0);
            &&& !o.halted
            &&& (o.result is Ok ==> spec_program_ids(o.reqs).len() <= 255)
        }),
    ensures
        ({
            let o = spec_copy(spec_event_views(midi_messages@), 0, spec_initial_state(spec_event_views(midi_messages@), link_bytes), 0);
            match o.result {
                Ok(_) => r matches Ok((trks, ids)) && ids@ == spec_program_ids(o.reqs)
                    && spec_trk_views(trks@) == spec_patched_trks(o.trks, o.reqs, ids@)
                    && spec_all_wf(spec_trk_views(trks@)),
                Err(f) => r matches Err(e) && spec_fail_is(e, f),
            }
        }),
{
    let (mut trks, mut reqs) = initial_writers(midi_messages, link_bytes);
    copy_midi_messages(midi_messages, &mut trks, &mut reqs)?;
    let ids = assign_program_ids(&mut trks, &reqs);
    Ok((trks, ids))
}

/// The (bank, program) pairs that the requests ask for, in order of first
/// appearance track by track.
fn program_pairs(reqs: &Vec<Vec<ProgramRequest>>) -> (r: Vec<(u8, u8)>)
    ensures
        r@ == spec_program_ids(spec_req_views(reqs@)),
{
    let ghost rv = spec_req_views(reqs@);
    let n = reqs.len();
    let mut pairs: Vec<(u8, u8)> = Vec::new();
    let mut t: usize = 0;
    while t < n
        invariant
            t <= n,
            n == rv.len(),
            rv == spec_req_views(reqs@),
            pairs@ == spec_first_seen(spec_track_pairs(rv, t as nat)),
        decreases n - t,
    {
        let m = reqs[t].len();
        let ghost base = spec_track_pairs(rv, t as nat);
        let mut k: usize = 0;
        while k < m
            invariant
                t < n,
                k <= m,
                m == rv[t as int].len(),
                n == rv.len(),
                rv == spec_req_views(reqs@),
                base == spec_track_pairs(rv, t as nat),
                pairs@ == spec_first_seen(base + rv[t as int].take(k as int).map_values(|r: ProgramRequest| r.1)),
            decreases m - k,
        {
            let (_idx, pair) = reqs[t][k];
            let ghost done = base + rv[t as int].take(k as int).map_values(|r: ProgramRequest| r.1);
            let ghost done2 = base + rv[t as int].take(k + 1).map_values(|r: ProgramRequest| r.1);
            proof {
                assert(rv[t as int][k as int].1 == pair);
                assert(done2 =~= done.push(pair));
                assert(done2.drop_last() =~= done);
                assert(done2.last() == pair);
            }
            match find_pair(&pairs, pair) {
                Some(_j) => {},
                None => {
                    pairs.push(pair);
                },
            }
            k = k + 1;
        }
        proof {
            assert(rv[t as int].take(m as int) =~= rv[t as int]);
            assert(spec_track_pairs(rv, (t + 1) as nat) == base + rv[t as int].map_values(|r: ProgramRequest| r.1));
        }
        t = t + 1;
    }
    pairs
}

/// Whether converting a MIDI stream into a song's tracks (see
/// `midi_to_tracks`) halts: an event asks for a track past the song's
/// tracks or sets a track's clock back, or a "dsec" command is cut inside
/// a character.
pub fn midi_conversion_halts(midi_messages: &Vec<MidiEvent>, link_bytes: (u8, u8)) -> (r: bool)
    ensures
        r == spec_copy(spec_event_views(midi_messages@), 0, spec_initial_state(spec_event_views(midi_messages@), link_bytes), 0).halted,
{
    let (mut trks, mut reqs) = initial_writers(midi_messages, link_bytes);
    try_copy_midi_messages(midi_messages, &mut trks, &mut reqs).is_none()
}

/// Whether the (bank, program) pairs that converting a MIDI stream asks for
/// can each get an id in a byte: the copy into the song's writers (see
/// `midi_to_tracks`) fails, or asks for at most 255 pairs.
pub fn midi_pairs_fit(midi_messages: &Vec<MidiEvent>, link_bytes: (u8, u8)) -> (r: bool)
    requires
        !spec_copy(spec_event_views(midi_messages@), 0, spec_initial_state(spec_event_views(midi_messages@), link_bytes), 0).halted,
    ensures
        ({
            let o = spec_copy(spec_event_views(midi_messages@), 0, spec_initial_state(spec_event_views(midi_messages@), link_bytes), 0);
            r == (o.result is Ok ==> spec_program_ids(o.reqs).len() <= 255)
        }),
{
    let (mut trks, mut reqs) = initial_writers(midi_messages, link_bytes);
    match copy_midi_messages(midi_messages, &mut trks, &mut reqs) {
        Ok(_) => {
            let pairs = program_pairs(&reqs);
            pairs.len() <= 255
        },
        Err(_) => true,
    }
}


/// A copy that ends without failing or halting leaves every track at its
/// final tick.
pub proof fn lemma_copy_ends_at_final_tick(evs: Seq<MidiEventView>, i: nat, st: CopyState, tick: u128)
    ensures
        ({
            let o = spec_copy(evs, i, st, tick);
            !o.halted ==> (o.result matches Ok(t) ==> forall|k: int| 0 <= k < o.trks.len() ==> (#[trigger] o.trks[k]).tick == t)
        }),
    decreases evs.len() - i,
{
    if i >= evs.len() {
        lemma_fix_all_ticks(st.trks, 0, tick);
    } else {
        let t = (tick + evs[i as int].delta) as u128;
        let (st2, flow) = spec_copy_step(st, t, evs[i as int]);
        match flow {
            CopyFlow::Go => lemma_copy_ends_at_final_tick(evs, i + 1, st2, t),
            CopyFlow::Stop => lemma_fix_all_ticks(st2.trks, 0, t),
            _ => {},
        }
    }
}

/// A controller message at tick `t` for track `i`, whose clock is not past
/// `t`: the track moves on to `t`, then volume (controller 7), pan (10) and
/// expression (11) add "SetTrackVolume" (0xE0), "SetTrackPan" (0xE8) and
/// "SetTrackExpression" (0xE3) with the value; a bank select (0) selects the
/// bank and adds a "SetProgram" request; any other controller adds nothing.
/// No other track changes and the copy goes on.
pub proof fn lemma_controller_event(st: CopyState, i: int, t: u128, controller: u8, value: u8)
    requires
        0 <= i < st.trks.len(),
        st.trks[i].tick <= t,
    ensures
        ({
            let (st2, flow) = spec_channel_step(st, i, t, MidiMessage::Controller { controller, value });
            let f = spec_fix(st.trks[i], t);
            &&& flow is Go
            &&& st2.trks.len() == st.trks.len()
            &&& forall|k: int| 0 <= k < st.trks.len() && k != i ==> #[trigger] st2.trks[k] == st.trks[k]
            &&& (controller == 7 ==> st2.trks[i] == spec_with_event(f, spec_other(0xE0, spec_params(seq![value]))))
            &&& (controller == 10 ==> st2.trks[i] == spec_with_event(f, spec_other(0xE8, spec_params(seq![value]))))
            &&& (controller == 11 ==> st2.trks[i] == spec_with_event(f, spec_other(0xE3, spec_params(seq![value]))))
            &&& (controller == 0 ==> st2.trks[i] == spec_program_event(TrkChunkWriterView { bank: value, ..f }, false, Some(0u8)).0)
            &&& (controller != 0 && controller != 7 && controller != 10 && controller != 11 ==> st2.trks[i] == f && st2.reqs == st.reqs)
        }),
{
}

/// A note started on a track and ended `d` ticks later (the track's clock
/// moved on in between) is an octave event for `key / 12` followed by a note
/// event of octave change 2 and note `key % 12`, with the velocity it
/// started with and a duration of `d`; a note held more than 0xFFFFFF ticks
/// is an error.
pub proof fn lemma_note_on_then_off(v: TrkChunkWriterView, key: u8, vel: u8, d: u128)
    requires
        spec_writer_wf(v),
        v.held[key as int] is None,
        v.tick + d <= u128::MAX,
        v.events.len() + 2 <= usize::MAX,
    ensures
        ({
            let (w, r) = spec_note_on(v, key, vel);
            let i = w.events.len() - 1;
            let (x, r2) = spec_note_off(spec_fix(w, (v.tick + d) as u128), key);
            &&& r is Ok
            &&& w.events.len() == v.events.len() + 2
            &&& w.events[i - 1] == spec_other(0xA0, spec_params(seq![key / 12]))
            &&& (d <= 0xFF_FFFF ==> r2 is Ok && x.events[i] == DSEEvent::PlayNote(crate::smdl::PlayNote {
                velocity: vel, _nbparambytes: 0, octavemod: 2, note: key % 12, keydownduration: d as u32 }))
            &&& (d > 0xFF_FFFF ==> r2 == Err::<(), DSEError>(DSEError::DSESmfNotesTooLong()))
        }),
{
    assert(spec_note_off(v, key) == (v, Ok::<(), DSEError>(())));
    let (w, r) = spec_note_on(v, key, vel);
    let i = w.events.len() - 1;
    let note = crate::smdl::PlayNote { velocity: vel, _nbparambytes: 0, octavemod: 2, note: key % 12, keydownduration: 0 };
    assert(w.events == v.events.push(spec_other(0xA0, spec_params(seq![key / 12]))).push(DSEEvent::PlayNote(note)));
    assert(w.held[key as int] == Some((i as usize, v.tick)));
    assert(w.events[i] == DSEEvent::PlayNote(note));
    assert(w.events[i - 1] == spec_other(0xA0, spec_params(seq![key / 12])));
    let f = spec_fix(w, (v.tick + d) as u128);
    assert(w.tick == v.tick);
    assert(f.held[key as int] == w.held[key as int]);
    assert(f.events[i] == w.events[i]);
    assert(f.tick == v.tick + d);
    assert(f.tick - v.tick == d);
    let (x, r2) = spec_note_off(f, key);
    assert(r is Ok);
    assert(w.events.len() == v.events.len() + 2);
    if d <= 0xFF_FFFF {
        assert(r2 is Ok);
        assert(x.events[i] == DSEEvent::PlayNote(crate::smdl::PlayNote { keydownduration: d as u32, ..note }));
    } else {
        assert(r2 == Err::<(), DSEError>(DSEError::DSESmfNotesTooLong()));
    }
}

/// The tempo byte of `m` microseconds per beat is the beats per minute,
/// 60000000 / m, rounded half up, or 255 where that is 255 or more (and for
/// a tempo of 0).
pub proof fn lemma_tempo_byte_rounds(m: u32)
    ensures
        m == 0 ==> spec_tempo_byte(m) == 255,
        m > 0 && spec_tempo_byte(m) < 255 ==> 2 * m * spec_tempo_byte(m) <= 120_000_000 + m < 2 * m * (spec_tempo_byte(m) + 1),
        m > 0 && spec_tempo_byte(m) == 255 ==> 120_000_000 + m >= 2 * m * 255,
{
    if m > 0 {
        let x: int = 120_000_000 + m;
        let y: int = 2 * m;
        assert((x / y) * y <= x && x < (x / y + 1) * y) by (nonlinear_arith)
            requires
                y > 0,
                x >= 0,
        ;
        assert(x / y >= 0) by (nonlinear_arith)
            requires
                y > 0,
                x >= 0,
        ;
        let q = x / y;
        if q > 255 {
            assert(q * y >= 256 * y) by (nonlinear_arith)
                requires
                    q > 255,
                    y > 0,
            ;
        } else {
            assert(spec_tempo_byte(m) as int == q);
            assert(2 * m * q == q * y) by (nonlinear_arith)
                requires
                    y == 2 * m,
            ;
            assert(2 * m * (q + 1) == (q + 1) * y) by (nonlinear_arith)
                requires
                    y == 2 * m,
            ;
        }
    }
}

/// Whether the event is a marker that ends the song's loop.
pub open spec fn spec_is_loop_end(e: MidiEventView) -> bool {
    e.kind matches MidiEventKindView::Marker(b) && (spec_marker_action(b) is LoopEnd || spec_marker_action(b) is LoopEndNoReset)
}

/// The tick of the first marker from `i` on that ends the song's loop, the
/// clock standing at `tick` before event `i`; the tick of the last event
/// where there is none.
pub open spec fn spec_loop_end_tick(evs: Seq<MidiEventView>, i: nat, tick: u128) -> u128
    decreases evs.len() - i,
{
    if i >= evs.len() {
        tick
    } else {
        let t = (tick + evs[i as int].delta) as u128;
        if spec_is_loop_end(evs[i as int]) {
            t
        } else {
            spec_loop_end_tick(evs, i + 1, t)
        }
    }
}

/// An event that is no loop end never stops a copy, and a loop end never
/// lets it go on.
proof fn lemma_step_stops(st: CopyState, t: u128, e: MidiEventView)
    ensures
        spec_copy_step(st, t, e).1 is Stop ==> spec_is_loop_end(e),
        spec_copy_step(st, t, e).1 is Go ==> !spec_is_loop_end(e),
{
    if let MidiEventKindView::Marker(b) = e.kind {
        lemma_loop_start_flow(st.trks, 0, t);
        lemma_loop_end_flow(st.trks, 0, t);
        if let MarkerActionView::Dsec(text) = spec_marker_action(b) {
            lemma_dsec_facts(st, 0, t, spec_split(text, ';'), 0);
        }
    }
}

/// A copy that ends without failing or halting ends at the tick of the
/// first marker that ends the song's loop, or of the last event where
/// there is none: the sum of the deltas up to there.
pub proof fn lemma_copy_ends_at_loop_end(evs: Seq<MidiEventView>, i: nat, st: CopyState, tick: u128)
    ensures
        ({
            let o = spec_copy(evs, i, st, tick);
            !o.halted ==> (o.result matches Ok(t) ==> t == spec_loop_end_tick(evs, i, tick))
        }),
    decreases evs.len() - i,
{
    if i < evs.len() {
        let t = (tick + evs[i as int].delta) as u128;
        lemma_step_stops(st, t, evs[i as int]);
        let (st2, flow) = spec_copy_step(st, t, evs[i as int]);
        if flow is Go {
            lemma_copy_ends_at_loop_end(evs, i + 1, st2, t);
        }
    }
}

/// The writers after a loop start at tick `t`, from track `k` on: each
/// moves on to `t` and gets one "LoopPoint" event.
pub open spec fn spec_all_loop_points(trks: Seq<TrkChunkWriterView>, k: int, t: u128) -> Seq<TrkChunkWriterView> {
    Seq::new(trks.len(), |m: int| if m < k { trks[m] } else { spec_with_event(spec_fix(trks[m], t), spec_other(0x99, spec_params(Seq::empty()))) })
}

/// A loop start at tick `t`, no track's clock being past `t`, gives every
/// track from `k` on exactly one "LoopPoint" event, right after the pauses
/// that bring it to `t`, and the copy goes on.
pub proof fn lemma_loop_start_marks_every_track(trks: Seq<TrkChunkWriterView>, k: nat, t: u128)
    requires
        k <= trks.len(),
        forall|m: int| k <= m < trks.len() ==> (#[trigger] trks[m]).tick <= t,
    ensures
        spec_loop_start(trks, k, t) == (spec_all_loop_points(trks, k as int, t), CopyFlow::Go),
    decreases trks.len() - k,
{
    if k < trks.len() {
        let u = trks.update(k as int, spec_with_event(spec_fix(trks[k as int], t), spec_other(0x99, spec_params(Seq::empty()))));
        assert forall|m: int| k + 1 <= m < u.len() implies (#[trigger] u[m]).tick <= t by {
            assert(u[m] == trks[m]);
        }
        lemma_loop_start_marks_every_track(u, k + 1, t);
        assert(spec_all_loop_points(u, k + 1int, t) =~= spec_all_loop_points(trks, k as int, t));
    } else {
        assert(spec_all_loop_points(trks, k as int, t) =~= trks);
    }
}

// ---------------------------------------------------------------------------
// A copy keeps each writer's track and channel
// ---------------------------------------------------------------------------

/// Whether `b` has the writers of `a`, by track and channel.
pub open spec fn spec_ids_kept(a: Seq<TrkChunkWriterView>, b: Seq<TrkChunkWriterView>) -> bool {
    &&& a.len() == b.len()
    &&& forall|k: int| 0 <= k < a.len() ==> (#[trigger] b[k]).trkid == a[k].trkid && b[k].chanid == a[k].chanid
}

proof fn lemma_notes_off_ids(v: TrkChunkWriterView, key: nat)
    ensures
        spec_notes_off(v, key).0.trkid == v.trkid,
        spec_notes_off(v, key).0.chanid == v.chanid,
    decreases 255 - key,
{
    if key < 255 {
        let (w, r) = spec_note_off(v, key as u8);
        if r is Ok {
            lemma_notes_off_ids(w, key + 1);
        }
    }
}

proof fn lemma_loop_start_ids(trks: Seq<TrkChunkWriterView>, k: nat, t: u128)
    ensures
        spec_ids_kept(trks, spec_loop_start(trks, k, t).0),
    decreases trks.len() - k,
{
    if k < trks.len() && trks[k as int].tick <= t {
        let t2 = trks.update(k as int, spec_with_event(spec_fix(trks[k as int], t), spec_other(0x99, spec_params(Seq::empty()))));
        lemma_loop_start_ids(t2, k + 1, t);
    }
}

proof fn lemma_loop_end_ids(trks: Seq<TrkChunkWriterView>, k: nat, t: u128)
    ensures
        spec_ids_kept(trks, spec_loop_end(trks, k, t).0),
    decreases trks.len() - k,
{
    if k < trks.len() && trks[k as int].tick <= t {
        lemma_notes_off_ids(spec_fix(trks[k as int], t), 0);
        let (w, r) = spec_notes_off(spec_fix(trks[k as int], t), 0);
        if r is Ok {
            lemma_loop_end_ids(trks.update(k as int, w), k + 1, t);
        }
    }
}

proof fn lemma_fix_all_ids(trks: Seq<TrkChunkWriterView>, k: nat, t: u128)
    ensures
        spec_ids_kept(trks, spec_fix_all(trks, k, t).0),
    decreases trks.len() - k,
{
    if k < trks.len() && trks[k as int].tick <= t {
        lemma_fix_all_ids(trks.update(k as int, spec_fix(trks[k as int], t)), k + 1, t);
    }
}

proof fn lemma_step_ids(st: CopyState, t: u128, e: MidiEventView)
    ensures
        spec_ids_kept(st.trks, spec_copy_step(st, t, e).0.trks),
{
    match e.kind {
        MidiEventKindView::Marker(b) => {
            lemma_loop_start_ids(st.trks, 0, t);
            lemma_loop_end_ids(st.trks, 0, t);
            if let MarkerActionView::Dsec(text) = spec_marker_action(b) {
                lemma_dsec_facts(st, 0, t, spec_split(text, ';'), 0);
            }
        },
        _ => {},
    }
}

/// A copy keeps each writer's track and channel.
pub proof fn lemma_copy_ids(evs: Seq<MidiEventView>, i: nat, st: CopyState, tick: u128)
    ensures
        spec_ids_kept(st.trks, spec_copy(evs, i, st, tick).trks),
    decreases evs.len() - i,
{
    if i >= evs.len() {
        lemma_fix_all_ids(st.trks, 0, tick);
    } else {
        let t = (tick + evs[i as int].delta) as u128;
        let (st2, flow) = spec_copy_step(st, t, evs[i as int]);
        lemma_step_ids(st, t, evs[i as int]);
        match flow {
            CopyFlow::Go => {
                lemma_copy_ids(evs, i + 1, st2, t);
            },
            CopyFlow::Stop => {
                lemma_fix_all_ids(st2.trks, 0, t);
            },
            _ => {},
        }
    }
}

/// The timing of a MIDI file.
#[derive(Debug, Clone, Copy, PartialEq, Eq)]
pub enum MidiTiming {
    /// Ticks per beat.
    Metrical(u16),
    /// Frames per second and ticks per frame.
    Timecode,
}

/// The ticks per beat of a MIDI file; a timing by time code is refused.
pub fn get_midi_tpb(timing: MidiTiming) -> (r: Result<u16, DSEError>)
    ensures
        match timing {
            MidiTiming::Metrical(t) => r == Ok::<u16, DSEError>(t),
            MidiTiming::Timecode => r == Err::<u16, DSEError>(DSEError::DSESmfUnsupportedTimingSpecifier()),
        },
{
    match timing {
        MidiTiming::Metrical(t) => Ok(t),
        MidiTiming::Timecode => Err(DSEError::DSESmfUnsupportedTimingSpecifier()),
    }
}

/// A copy of a program's use.
fn copy_program_used(p: &ProgramUsed) -> (r: ProgramUsed)
    ensures
        r@ == p@,
{
    let mut notes: Vec<(u8, u8)> = Vec::new();
    let mut i: usize = 0;
    while i < p.notes.len()
        invariant
            i <= p.notes@.len(),
            notes@ == p.notes@.take(i as int),
        decreases p.notes@.len() - i,
    {
        notes.push(p.notes[i]);
        assert(notes@ =~= p.notes@.take(i + 1));
        i = i + 1;
    }
    assert(p.notes@.take(p.notes@.len() as int) =~= p.notes@);
    ProgramUsed { bank: p.bank, program: p.program, is_default: p.is_default, notes }
}

/// The models of programs used.
pub open spec fn spec_used_views(s: Seq<ProgramUsed>) -> Seq<ProgramUsedView> {
    s.map_values(|p: ProgramUsed| p@)
}

impl SMDL {
    /// The song before its read markers are regenerated, as `from_midi_once`
    /// fills it from the writers `trks`: the link bytes and the ticks per
    /// beat set, and a track chunk for each closed writer.
    pub open spec fn spec_from_writers(old: SMDLView, link_bytes: (u8, u8), tpb: u16, trks: Seq<TrkChunkWriterView>) -> SMDLView {
        SMDLView {
            header: SMDLHeader { unk1: link_bytes.0, unk2: link_bytes.1, ..old.header },
            song: SongChunk { tpqn: tpb, ..old.song },
            trks: TableView { objects: trks.map_values(|w: TrkChunkWriterView| spec_closed(w)), ..old.trks },
            ..old
        }
    }

    /// Fills the song from a MIDI stream of the given timing: sets the link
    /// bytes and the ticks per beat, makes the tracks (see
    /// `midi_to_tracks`), closes them into the song, and regenerates its
    /// read markers. Gives the program pairs by id and, for each track, the
    /// programs it used.
    pub fn from_midi_once(&mut self, timing: MidiTiming, midi_messages: &Vec<MidiEvent>, link_bytes: (u8, u8)) -> (r: Result<(Vec<(u8, u8)>, Vec<Vec<ProgramUsed>>), DSEError>)
        requires
            ({
                let o = spec_copy(spec_event_views(midi_messages@), 0, spec_initial_state(spec_event_views(midi_messages@), link_bytes), 0);
                &&& !o.halted
                &&& (o.result is Ok ==> spec_program_ids(o.reqs).len() <= 255)
            }),
        ensures
            timing is Timecode ==> r == Err::<(Vec<(u8, u8)>, Vec<Vec<ProgramUsed>>), DSEError>(DSEError::DSESmfUnsupportedTimingSpecifier()) && *final(self) == *old(self),
            timing matches MidiTiming::Metrical(tpb) ==> ({
                let o = spec_copy(spec_event_views(midi_messages@), 0, spec_initial_state(spec_event_views(midi_messages@), link_bytes), 0);
                match o.result {
                    Err(f) => r matches Err(e) && spec_fail_is(e, f),
                    Ok(_) => {
                        let ids = spec_program_ids(o.reqs);
                        let trks = spec_patched_trks(o.trks, o.reqs, ids);
                        exists|s1: SMDL| #![auto] s1@ == SMDL::spec_from_writers(old(self)@, link_bytes, tpb, trks)
                            && final(self)@ == SMDL::spec_regenerate_read_markers(s1).0
                            && match SMDL::spec_regenerate_read_markers(s1).1 {
                                Ok(_) => r matches Ok((i, u)) && i@ == ids && u@.len() == trks.len()
                                    && forall|k: int| 0 <= k < trks.len() ==> spec_used_views(#[trigger] u@[k]@) == trks[k].programs_used,
                                Err(e) => r == Err::<(Vec<(u8, u8)>, Vec<Vec<ProgramUsed>>), DSEError>(e),
                            }
                    },
                }
            }),
    {
        let tpb = get_midi_tpb(timing)?;
        proof {
            let evs = spec_event_views(midi_messages@);
            lemma_copy_ids(evs, 0, spec_initial_state(evs, link_bytes), 0);
        }
        self.set_link_bytes(link_bytes);
        self.song.tpqn = tpb;
        let (trks, ids) = midi_to_tracks(midi_messages, self.get_link_bytes())?;
        let ghost tv = spec_trk_views(trks@);
        let mut used: Vec<Vec<ProgramUsed>> = Vec::new();
        let mut chunks: Vec<TrkChunk> = Vec::new();
        let n = trks.len();
        let mut rest = trks;
        let mut k: usize = 0;
        // the writers are closed from the last one back, then put in order
        while rest.len() > 0
            invariant
                rest@.len() + k == n,
                n == tv.len(),
                forall|j: int| 0 <= j < rest@.len() ==> #[trigger] rest@[j]@ == tv[j],
                spec_all_wf(tv),
                chunks@.len() == k,
                used@.len() == k,
                forall|j: int| 0 <= j < k ==> #[trigger] chunks@[j]@ == spec_closed(tv[n - 1 - j]),
                forall|j: int| 0 <= j < k ==> spec_used_views(#[trigger] used@[j]@) == tv[n - 1 - j].programs_used,
            decreases rest@.len(),
        {
            let w = rest.pop().unwrap();
            assert(w@ == tv[n - 1 - k]);
            let mut pu: Vec<ProgramUsed> = Vec::new();
            let mut i: usize = 0;
            while i < w.programs_used.len()
                invariant
                    i <= w.programs_used@.len(),
                    pu@.len() == i,
                    forall|j: int| 0 <= j < i ==> (#[trigger] pu@[j])@ == w.programs_used@[j]@,
                decreases w.programs_used@.len() - i,
            {
                let c = copy_program_used(&w.programs_used[i]);
                pu.push(c);
                i = i + 1;
            }
            assert(spec_used_views(pu@) =~= w@.programs_used);
            assert(spec_writer_wf(tv[n - 1 - k]));
            chunks.push(w.close_track());
            used.push(pu);
            k = k + 1;
        }
        // reverse into track order
        let mut objects: Vec<TrkChunk> = Vec::new();
        let mut used_in_order: Vec<Vec<ProgramUsed>> = Vec::new();
        while chunks.len() > 0
            invariant
                chunks@.len() + objects@.len() == n,
                used@.len() == chunks@.len(),
                n == tv.len(),
                forall|j: int| 0 <= j < chunks@.len() ==> #[trigger] chunks@[j]@ == spec_closed(tv[n - 1 - j]),
                forall|j: int| 0 <= j < chunks@.len() ==> spec_used_views(#[trigger] used@[j]@) == tv[n - 1 - j].programs_used,
                objects@.len() == used_in_order@.len(),
                forall|j: int| 0 <= j < objects@.len() ==> #[trigger] objects@[j]@ == spec_closed(tv[j]),
                forall|j: int| 0 <= j < objects@.len() ==> spec_used_views(#[trigger] used_in_order@[j]@) == tv[j].programs_used,
            decreases chunks@.len(),
        {
            let c = chunks.pop().unwrap();
            let u = used.pop().unwrap();
            objects.push(c);
            used_in_order.push(u);
        }
        let ghost before = *self;
        self.trks.objects = objects;
        proof {
            assert(self@.trks.objects =~= tv.map_values(|w: TrkChunkWriterView| spec_closed(w)));
            assert(self@ == SMDL::spec_from_writers(old(self)@, link_bytes, tpb, tv));
            assert forall|i: int| 0 <= i < self@.trks.objects.len() implies (#[trigger] self@.trks.objects[i]).preamble.chanid < 255 by {
                assert(self@.trks.objects[i] == spec_closed(tv[i]));
                let evs = spec_event_views(midi_messages@);
                let init = spec_initial_state(evs, link_bytes);
                let o = spec_copy(evs, 0, init, 0);
                assert(tv[i].chanid == o.trks[i].chanid);
                assert(o.trks[i].chanid == init.trks[i].chanid);
            }
        }
        let ghost s1 = *self;
        let res = self.regenerate_read_markers();
        match res {
            Ok(()) => Ok((ids, used_in_order)),
            Err(e) => Err(e),
        }
    }
}

// ---------------------------------------------------------------------------
// One stream from the tracks of a MIDI file
// ---------------------------------------------------------------------------

/// The layout of a MIDI file's tracks.
#[derive(Debug, Clone, Copy, PartialEq, Eq)]
pub enum MidiFormat {
    /// One track.
    SingleTrack,
    /// Tracks that play together.
    Parallel,
    /// Tracks that play one after the other.
    Sequential,
}

/// The models of a track list.
pub open spec fn spec_track_views(t: Seq<Vec<MidiEvent>>) -> Seq<Seq<MidiEventView>> {
    t.map_values(|v: Vec<MidiEvent>| spec_event_views(v@))
}

/// The ticks of timed events.
pub open spec fn spec_ticks(s: Seq<(u128, MidiEventView)>) -> Seq<u128> {
    s.map_values(|p: (u128, MidiEventView)| p.0)
}

/// The models of timed events.
pub open spec fn spec_timed_views(s: Seq<(u128, MidiEvent)>) -> Seq<(u128, MidiEventView)> {
    s.map_values(|p: (u128, MidiEvent)| (p.0, p.1@))
}

/// Whether the ticks never go down.
pub open spec fn spec_sorted(k: Seq<u128>) -> bool {
    forall|a: int, b: int| 0 <= a <= b < k.len() ==> k[a] <= k[b]
}

/// What `slice::binary_search_by_key` gives for `key` among the sorted
/// `keys`: the index of an equal key, or where `key` would go.
pub uninterp spec fn spec_binary_search(keys: Seq<u128>, key: u128) -> Result<usize, usize>;

/// Calls `slice::binary_search_by_key` on the ticks of `s`. Claims that the
/// result is the named function of the ticks and `key`, and what the
/// documentation says of it for sorted keys: `Ok` with the index of an
/// equal key (which one, among several, is left unsaid), or `Err` with the
/// index where `key` would keep the order.
#[verifier::external_body]
fn search_tick(s: &Vec<(u128, MidiEvent)>, key: u128) -> (r: Result<usize, usize>)
    requires
        spec_sorted(spec_ticks(spec_timed_views(s@))),
    ensures
        r == spec_binary_search(spec_ticks(spec_timed_views(s@)), key),
        r matches Ok(i) ==> i < s@.len() && s@[i as int].0 == key,
        r matches Err(i) ==> i <= s@.len() && (forall|j: int| 0 <= j < i ==> s@[j].0 < key) && (forall|j: int| i <= j < s@.len() ==> s@[j].0 > key),
{
    s.binary_search_by_key(&key, |&(k, _)| k)
}

/// Whether the first track holds no channel message.
pub open spec fn spec_first_is_meta(tracks: Seq<Seq<MidiEventView>>) -> bool {
    forall|j: int| 0 <= j < tracks[0].len() ==> !(#[trigger] tracks[0][j].kind is Midi)
}

/// The event on channel `ch` when it is a channel message (there are 16
/// channels).
pub open spec fn spec_on_channel(e: MidiEventView, ch: int) -> Option<MidiEventView> {
    match e.kind {
        MidiEventKindView::Midi { message, .. } => if 0 <= ch <= 15 {
            Some(MidiEventView { kind: MidiEventKindView::Midi { channel: ch as u8, message }, ..e })
        } else {
            None
        },
        _ => Some(e),
    }
}

/// `acc` with the event `e` at tick `g` put where the binary search of its
/// tick points.
pub open spec fn spec_insert_timed(acc: Seq<(u128, MidiEventView)>, g: u128, e: MidiEventView) -> Seq<(u128, MidiEventView)> {
    let pos = match spec_binary_search(spec_ticks(acc), g) {
        Ok(i) => i,
        Err(i) => i,
    };
    acc.insert(pos as int, (g, e))
}

/// The events of a track from `j` on, at their ticks from `g` on and moved
/// to channel `ch`, put among `acc`; `None` when a channel message cannot
/// move there.
pub open spec fn spec_merge_track(acc: Seq<(u128, MidiEventView)>, evs: Seq<MidiEventView>, j: nat, g: u128, ch: int) -> Option<Seq<(u128, MidiEventView)>>
    decreases evs.len() - j,
{
    if j >= evs.len() {
        Some(acc)
    } else {
        let g2 = (g + evs[j as int].delta) as u128;
        match spec_on_channel(evs[j as int], ch) {
            None => None,
            Some(e) => spec_merge_track(spec_insert_timed(acc, g2, e), evs, j + 1, g2, ch),
        }
    }
}

/// The events of a track from `j` on, each at its tick (counted from `g`)
/// and moved to channel `ch`, up to the first that cannot move there.
pub open spec fn spec_timed_track(evs: Seq<MidiEventView>, j: nat, g: u128, ch: int) -> Multiset<(u128, MidiEventView)>
    decreases evs.len() - j,
{
    if j >= evs.len() {
        Multiset::empty()
    } else {
        let g2 = (g + evs[j as int].delta) as u128;
        match spec_on_channel(evs[j as int], ch) {
            None => Multiset::empty(),
            Some(e) => spec_timed_track(evs, j + 1, g2, ch).insert((g2, e)),
        }
    }
}

/// The events of the tracks from `i` on, each at its tick and on the
/// channel of its track (`i - 1` when the first track holds meta events
/// only, else `i`).
pub open spec fn spec_timed_tracks(tracks: Seq<Seq<MidiEventView>>, i: nat, meta: bool) -> Multiset<(u128, MidiEventView)>
    decreases tracks.len() - i,
{
    if i >= tracks.len() {
        Multiset::empty()
    } else {
        spec_timed_track(tracks[i as int], 0, 0, if meta { i - 1 } else { i as int }).add(spec_timed_tracks(tracks, i + 1, meta))
    }
}

/// The tracks from `i` on put among `acc`, track `i` on channel `i - 1`
/// when the first track holds meta events only, else on channel `i`.
pub open spec fn spec_merge(tracks: Seq<Seq<MidiEventView>>, i: nat, acc: Seq<(u128, MidiEventView)>, meta: bool) -> Option<Seq<(u128, MidiEventView)>>
    decreases tracks.len() - i,
{
    if i >= tracks.len() {
        Some(acc)
    } else {
        match spec_merge_track(acc, tracks[i as int], 0, 0, if meta { i - 1 } else { i as int }) {
            None => None,
            Some(a) => spec_merge(tracks, i + 1, a, meta),
        }
    }
}

/// Whether no two neighbouring events are more than 0x0FFFFFFF ticks apart.
pub open spec fn spec_gaps_fit(m: Seq<(u128, MidiEventView)>) -> bool {
    forall|i: int| 0 < i < m.len() ==> (#[trigger] m[i]).0 - m[i - 1].0 <= 0x0FFF_FFFF
}

/// The events with their deltas from the previous event (0 for the first).
pub open spec fn spec_rebased(m: Seq<(u128, MidiEventView)>) -> Seq<MidiEventView> {
    Seq::new(m.len(), |i: int| MidiEventView { delta: if i == 0 { 0 } else { (m[i].0 - m[i - 1].0) as u32 }, kind: m[i].1.kind })
}

/// The tick of event `k` of a stream: the sum of the deltas of events 0 to
/// `k`.
pub open spec fn spec_tick_of(evs: Seq<MidiEventView>, k: int) -> int
    decreases k,
{
    if k < 0 || k >= evs.len() {
        0
    } else if k == 0 {
        evs[0].delta as int
    } else {
        spec_tick_of(evs, k - 1) + evs[k].delta
    }
}

/// Events with deltas from the previous one keep their ticks: adding up the
/// deltas gives each event's tick, counted from the first event's, and
/// every event keeps its kind.
pub proof fn lemma_rebased_keeps_ticks(m: Seq<(u128, MidiEventView)>)
    requires
        spec_sorted(spec_ticks(m)),
        spec_gaps_fit(m),
    ensures
        spec_rebased(m).len() == m.len(),
        forall|k: int| 0 <= k < m.len() ==> #[trigger] spec_tick_of(spec_rebased(m), k) == m[k].0 - m[0].0,
        forall|k: int| 0 <= k < m.len() ==> (#[trigger] spec_rebased(m)[k]).kind == m[k].1.kind,
{
    let r = spec_rebased(m);
    assert forall|k: int| 0 <= k < m.len() implies #[trigger] spec_tick_of(r, k) == m[k].0 - m[0].0 by {
        lemma_rebased_tick(m, k);
    }
}

proof fn lemma_rebased_tick(m: Seq<(u128, MidiEventView)>, k: int)
    requires
        spec_sorted(spec_ticks(m)),
        spec_gaps_fit(m),
        0 <= k < m.len(),
    ensures
        spec_tick_of(spec_rebased(m), k) == m[k].0 - m[0].0,
    decreases k,
{
    if k > 0 {
        lemma_rebased_tick(m, k - 1);
        assert(spec_ticks(m)[k - 1] <= spec_ticks(m)[k]);
        assert(m[k].0 - m[k - 1].0 <= 0x0FFF_FFFF);
        assert(spec_rebased(m)[k].delta == m[k].0 - m[k - 1].0);
    }
}

/// Puts `e` at tick `g` into the sorted events `merged`.
fn insert_timed(merged: &mut Vec<(u128, MidiEvent)>, g: u128, e: MidiEvent)
    requires
        spec_sorted(spec_ticks(spec_timed_views(old(merged)@))),
    ensures
        spec_timed_views(final(merged)@) == spec_insert_timed(spec_timed_views(old(merged)@), g, e@),
        spec_sorted(spec_ticks(spec_timed_views(final(merged)@))),
        spec_timed_views(final(merged)@).to_multiset() == spec_timed_views(old(merged)@).to_multiset().insert((g, e@)),
{
    let ghost m0 = spec_timed_views(merged@);
    let pos = match search_tick(merged, g) {
        Ok(i) => i,
        Err(i) => i,
    };
    proof {
        if pos > 0 {
            assert(merged@[pos - 1].0 <= g) by {
                assert(m0[pos - 1].0 == merged@[pos - 1].0);
                if merged@.len() > pos && merged@[pos as int].0 == g {
                    assert(spec_ticks(m0)[pos - 1] <= spec_ticks(m0)[pos as int]);
                }
            }
        }
        if pos < merged@.len() {
            assert(merged@[pos as int].0 >= g);
        }
    }
    merged.insert(pos, (g, e));
    proof {
        let m1 = spec_timed_views(merged@);
        assert(m1 =~= m0.insert(pos as int, (g, e@)));
        vstd::seq_lib::to_multiset_insert(m0, pos as int, (g, e@));
        let k1 = spec_ticks(m1);
        assert forall|a: int, b: int| 0 <= a <= b < k1.len() implies k1[a] <= k1[b] by {
            let k0 = spec_ticks(m0);
            if a < pos && b < pos {
                assert(k1[a] == k0[a] && k1[b] == k0[b]);
            } else if a < pos && b == pos {
                assert(k1[a] == k0[a]);
                assert(k0[a] <= k0[pos - 1]);
            } else if a < pos {
                assert(k1[a] == k0[a] && k1[b] == k0[b - 1]);
            } else if a == pos && b > pos {
                assert(k1[b] == k0[b - 1]);
                assert(k0[pos as int] <= k0[b - 1]);
            } else if a > pos {
                assert(k1[a] == k0[a - 1] && k1[b] == k0[b - 1]);
            }
        }
    }
}

/// Whether the track holds no channel message.
fn first_is_meta(t: &Vec<MidiEvent>) -> (r: bool)
    ensures
        r == (forall|j: int| 0 <= j < t@.len() ==> !(#[trigger] spec_event_views(t@)[j].kind is Midi)),
{
    let ghost v = spec_event_views(t@);
    let mut j: usize = 0;
    while j < t.len()
        invariant
            j <= t@.len(),
            v == spec_event_views(t@),
            forall|q: int| 0 <= q < j ==> !(#[trigger] v[q].kind is Midi),
        decreases t@.len() - j,
    {
        assert(v[j as int] == t@[j as int]@);
        match &t[j].kind {
            MidiEventKind::Midi { .. } => {
                assert(v[j as int].kind is Midi);
                return false;
            },
            _ => {},
        }
        j = j + 1;
    }
    true
}

/// The events of a MIDI file as one stream: the one track of a file of one
/// track; for tracks that play together, every event at its tick (channel
/// messages moved to the channel of their track, counted without the first
/// track when that one holds meta events only), events of the same tick put
/// where the binary search of their tick points, with deltas from the
/// previous event; tracks that play one after the other are refused.
pub fn get_midi_messages_flattened(format: MidiFormat, tracks: &Vec<Vec<MidiEvent>>) -> (r: Result<Vec<MidiEvent>, DSEError>)
    requires
        !(format is Sequential) ==> tracks@.len() >= 1,
    ensures
        match format {
            MidiFormat::SingleTrack => r matches Ok(v) && spec_event_views(v@) == spec_event_views(tracks@[0]@),
            MidiFormat::Sequential => r == Err::<Vec<MidiEvent>, DSEError>(DSEError::DSESequencialSmfUnsupported()),
            MidiFormat::Parallel => {
                let tv = spec_track_views(tracks@);
                match spec_merge(tv, 0, Seq::empty(), spec_first_is_meta(tv)) {
                    None => r == Err::<Vec<MidiEvent>, DSEError>(DSEError::DSESmf0TooManyTracks()),
                    Some(m) => {
                        &&& spec_sorted(spec_ticks(m))
                        &&& m.to_multiset() == spec_timed_tracks(tv, 0, spec_first_is_meta(tv))
                        &&& if spec_gaps_fit(m) {
                            r matches Ok(v) && spec_event_views(v@) == spec_rebased(m)
                        } else {
                            r == Err::<Vec<MidiEvent>, DSEError>(DSEError::DSESmf0MessagesTooFarApart())
                        }
                    },
                }
            },
        },
{
    match format {
        MidiFormat::Sequential => {
            return Err(DSEError::DSESequencialSmfUnsupported());
        },
        MidiFormat::SingleTrack => {
            let t = &tracks[0];
            let mut out: Vec<MidiEvent> = Vec::new();
            let mut j: usize = 0;
            while j < t.len()
                invariant
                    j <= t@.len(),
                    out@.len() == j,
                    forall|q: int| 0 <= q < j ==> (#[trigger] out@[q])@ == t@[q]@,
                decreases t@.len() - j,
            {
                out.push(t[j].duplicate());
                j = j + 1;
            }
            assert(spec_event_views(out@) =~= spec_event_views(tracks@[0]@));
            return Ok(out);
        },
        MidiFormat::Parallel => {},
    }
    let ghost tv = spec_track_views(tracks@);
    let meta = first_is_meta(&tracks[0]);
    proof {
        assert(tv[0] == spec_event_views(tracks@[0]@));
        assert(meta == spec_first_is_meta(tv)) by {
            if meta {
                assert forall|j: int| 0 <= j < tv[0].len() implies !(#[trigger] tv[0][j].kind is Midi) by {
                    assert(tv[0][j] == spec_event_views(tracks@[0]@)[j]);
                }
            } else {
                let j = choose|j: int| 0 <= j < tracks@[0]@.len() && (#[trigger] spec_event_views(tracks@[0]@)[j].kind is Midi);
                assert(tv[0][j] == spec_event_views(tracks@[0]@)[j]);
            }
        }
    }
    let ghost goal = spec_merge(tv, 0, Seq::empty(), meta);
    let mut merged: Vec<(u128, MidiEvent)> = Vec::new();
    assert(spec_timed_views(merged@) =~= Seq::<(u128, MidiEventView)>::empty());
    proof {
        let m0 = spec_timed_views(merged@);
        vstd::seq_lib::to_multiset_len(m0);
        vstd::multiset::lemma_multiset_empty_len(m0.to_multiset());
        assert(m0.to_multiset().add(spec_timed_tracks(tv, 0, meta)) =~= spec_timed_tracks(tv, 0, meta));
    }
    let n = tracks.len();
    let mut i: usize = 0;
    while i < n
        invariant
            i <= n,
            n == tracks@.len(),
            tv == spec_track_views(tracks@),
            meta == spec_first_is_meta(tv),
            format == MidiFormat::Parallel,
            goal == spec_merge(tv, 0, Seq::empty(), meta),
            spec_merge(tv, i as nat, spec_timed_views(merged@), meta) == goal,
            spec_sorted(spec_ticks(spec_timed_views(merged@))),
            spec_timed_views(merged@).to_multiset().add(spec_timed_tracks(tv, i as nat, meta)) == spec_timed_tracks(tv, 0, meta),
        decreases n - i,
    {
        let t = &tracks[i];
        assert(tv[i as int] == spec_event_views(t@));
        let ghost acc0 = spec_timed_views(merged@);
        let ghost ch: int = if meta { i - 1 } else { i as int };
        let mut g: u128 = 0;
        let mut j: usize = 0;
        while j < t.len()
            invariant
                j <= t@.len(),
                i < n,
                n == tracks@.len(),
                t@ == tracks@[i as int]@,
                tv == spec_track_views(tracks@),
                tv[i as int] == spec_event_views(t@),
                meta == spec_first_is_meta(tv),
                format == MidiFormat::Parallel,
                goal == spec_merge(tv, 0, Seq::empty(), meta),
                ch == if meta { i - 1 } else { i as int },
                spec_merge_track(acc0, tv[i as int], 0, 0, ch) == spec_merge_track(spec_timed_views(merged@), tv[i as int], j as nat, g, ch),
                spec_merge(tv, i as nat, acc0, meta) == goal,
                spec_sorted(spec_ticks(spec_timed_views(merged@))),
                g <= j as u128 * 0x1_0000_0000,
                acc0.to_multiset().add(spec_timed_tracks(tv, i as nat, meta)) == spec_timed_tracks(tv, 0, meta),
                acc0.to_multiset().add(spec_timed_track(tv[i as int], 0, 0, ch)) == spec_timed_views(merged@).to_multiset().add(spec_timed_track(tv[i as int], j as nat, g, ch)),
            decreases t@.len() - j,
        {
            let e0 = &t[j];
            assert(tv[i as int][j as int] == e0@);
            let ghost g0 = g;
            g = g + e0.delta as u128;
            let mut e = e0.duplicate();
            match e.kind {
                MidiEventKind::Midi { channel, message } => {
                    let mapped: usize = if meta {
                        if i == 0 {
                            proof {
                                assert(!(tv[0][j as int].kind is Midi));
                            }
                            vstd::pervasive::unreached()
                        } else {
                            i - 1
                        }
                    } else {
                        i
                    };
                    if mapped > 15 {
                        return Err(DSEError::DSESmf0TooManyTracks());
                    }
                    e.kind = MidiEventKind::Midi { channel: mapped as u8, message };
                },
                _ => {},
            }
            assert(spec_on_channel(tv[i as int][j as int], ch) == Some(e@));
            let ghost before = spec_timed_views(merged@).to_multiset();
            let ghost rest = spec_timed_track(tv[i as int], (j + 1) as nat, g, ch);
            insert_timed(&mut merged, g, e);
            proof {
                assert(spec_timed_track(tv[i as int], j as nat, g0, ch) == rest.insert((g, e@)));
                assert(before.add(rest.insert((g, e@))) =~= before.insert((g, e@)).add(rest));
            }
            j = j + 1;
        }
        proof {
            assert(spec_timed_track(tv[i as int], j as nat, g, ch) =~= Multiset::empty());
            assert(spec_timed_tracks(tv, i as nat, meta) == spec_timed_track(tv[i as int], 0, 0, ch).add(spec_timed_tracks(tv, (i + 1) as nat, meta)));
            assert(acc0.to_multiset().add(spec_timed_track(tv[i as int], 0, 0, ch)).add(spec_timed_tracks(tv, (i + 1) as nat, meta))
                =~= acc0.to_multiset().add(spec_timed_tracks(tv, i as nat, meta)));
        }
        i = i + 1;
    }
    assert(spec_timed_tracks(tv, i as nat, meta) =~= Multiset::empty());
    let ghost m = spec_timed_views(merged@);
    assert(goal == Some(m));
    let mut out: Vec<MidiEvent> = Vec::new();
    let mut k: usize = 0;
    while k < merged.len()
        invariant
            k <= merged@.len(),
            m == spec_timed_views(merged@),
            format == MidiFormat::Parallel,
            goal == Some(m),
            goal == spec_merge(spec_track_views(tracks@), 0, Seq::empty(), spec_first_is_meta(spec_track_views(tracks@))),
            spec_sorted(spec_ticks(m)),
            out@.len() == k,
            forall|q: int| 0 <= q < k ==> (#[trigger] out@[q])@ == spec_rebased(m)[q],
            forall|q: int| 0 < q < k ==> (#[trigger] m[q]).0 - m[q - 1].0 <= 0x0FFF_FFFF,
            m.to_multiset() == spec_timed_tracks(spec_track_views(tracks@), 0, spec_first_is_meta(spec_track_views(tracks@))),
        decreases merged@.len() - k,
    {
        assert(m[k as int] == (merged@[k as int].0, merged@[k as int].1@));
        let delta: u128 = if k == 0 {
            0
        } else {
            assert(m[k - 1] == (merged@[k - 1].0, merged@[k - 1].1@));
            assert(spec_ticks(m)[k - 1] <= spec_ticks(m)[k as int]);
            merged[k].0 - merged[k - 1].0
        };
        if delta > 0x0FFF_FFFF {
            assert(!spec_gaps_fit(m));
            return Err(DSEError::DSESmf0MessagesTooFarApart());
        }
        let mut e = merged[k].1.duplicate();
        e.delta = delta as u32;
        out.push(e);
        k = k + 1;
    }
    assert(spec_event_views(out@) =~= spec_rebased(m));
    Ok(out)
}

/// Calls `String::from_iter` on the characters of `c`: the text of those
/// characters.
#[verifier::external_body]
fn chars_to_string(c: &Vec<char>) -> (r: String)
    ensures
        r@ == c@,
{
    String::from_iter(c.iter())
}

/// The pieces of `s` between the separators `sep`.
fn split_chars(s: &Vec<char>, sep: char) -> (r: Vec<Vec<char>>)
    ensures
        r@.len() == spec_split(s@, sep).len(),
        forall|k: int| 0 <= k < r@.len() ==> (#[trigger] r@[k])@ == spec_split(s@, sep)[k],
{
    let mut r: Vec<Vec<char>> = Vec::new();
    r.push(Vec::new());
    let mut i: usize = 0;
    assert(s@.take(0) =~= Seq::<char>::empty());
    while i < s.len()
        invariant
            i <= s@.len(),
            r@.len() == spec_split(s@.take(i as int), sep).len(),
            r@.len() > 0,
            forall|k: int| 0 <= k < r@.len() ==> (#[trigger] r@[k])@ == spec_split(s@.take(i as int), sep)[k],
        decreases s@.len() - i,
    {
        let c = s[i];
        let ghost pre = s@.take(i as int);
        let ghost nxt = s@.take(i + 1);
        assert(nxt.drop_last() =~= pre);
        assert(nxt.last() == c);
        let ghost p = spec_split(pre, sep);
        if c == sep {
            r.push(Vec::new());
            assert forall|k: int| 0 <= k < r@.len() implies (#[trigger] r@[k])@ == spec_split(nxt, sep)[k] by {
                if k < p.len() {
                    assert(spec_split(nxt, sep)[k] == p[k]);
                }
            }
        } else {
            let last = r.len() - 1;
            let ghost before = r@;
            r[last].push(c);
            assert forall|k: int| 0 <= k < r@.len() implies (#[trigger] r@[k])@ == spec_split(nxt, sep)[k] by {
                if k < last {
                    assert(r@[k] == before[k]);
                }
            }
        }
        i = i + 1;
    }
    assert(s@.take(s@.len() as int) =~= s@);
    r
}

/// The type an argument's suffix names.
fn arg_type(t: &Vec<char>) -> (r: Option<(bool, usize, bool)>)
    ensures
        match spec_arg_type(t@) {
            Some((signed, w, be)) => r == Some((signed, w as usize, be)),
            None => r is None,
        },
{
    if chars_eq(t, "i8") { Some((true, 1, false)) }
    else if chars_eq(t, "u8") { Some((false, 1, false)) }
    else if chars_eq(t, "i16le") { Some((true, 2, false)) }
    else if chars_eq(t, "u16le") { Some((false, 2, false)) }
    else if chars_eq(t, "i32le") { Some((true, 4, false)) }
    else if chars_eq(t, "u32le") { Some((false, 4, false)) }
    else if chars_eq(t, "i64le") { Some((true, 8, false)) }
    else if chars_eq(t, "u64le") { Some((false, 8, false)) }
    else if chars_eq(t, "i128le") { Some((true, 16, false)) }
    else if chars_eq(t, "u128le") { Some((false, 16, false)) }
    else if chars_eq(t, "i16be") { Some((true, 2, true)) }
    else if chars_eq(t, "u16be") { Some((false, 2, true)) }
    else if chars_eq(t, "i32be") { Some((true, 4, true)) }
    else if chars_eq(t, "u32be") { Some((false, 4, true)) }
    else if chars_eq(t, "i64be") { Some((true, 8, true)) }
    else if chars_eq(t, "u64be") { Some((false, 8, true)) }
    else if chars_eq(t, "i128be") { Some((true, 16, true)) }
    else if chars_eq(t, "u128be") { Some((false, 16, true)) }
    else { None }
}

/// Half of 256 to the power `w`, for the widths of integer types.
fn half_range(w: usize) -> (r: u128)
    requires
        w == 1 || w == 2 || w == 4 || w == 8 || w == 16,
    ensures
        r == spec_pow256(w as nat) / 2,
        r * 2 == spec_pow256(w as nat),
        0x80 <= r <= 0x8000_0000_0000_0000_0000_0000_0000_0000,
{
    proof {
        reveal_with_fuel(spec_pow256, 17);
        assert(spec_pow256(1) == 0x100);
        assert(spec_pow256(2) == 0x1_0000);
        assert(spec_pow256(4) == 0x1_0000_0000);
        assert(spec_pow256(8) == 0x1_0000_0000_0000_0000);
        assert(spec_pow256(16) == 0x1_0000_0000_0000_0000_0000_0000_0000_0000);
    }
    if w == 1 {
        0x80
    } else if w == 2 {
        0x8000
    } else if w == 4 {
        0x8000_0000
    } else if w == 8 {
        0x8000_0000_0000_0000
    } else {
        0x8000_0000_0000_0000_0000_0000_0000_0000
    }
}

/// The two's complement bits, in `w` bytes, of the integer that `s` reads
/// as in base `radix` for the type.
fn parse_int(s: &[u8], radix: u32, signed: bool, w: usize) -> (r: Option<u128>)
    requires
        radix == 10 || radix == 16,
        w == 1 || w == 2 || w == 4 || w == 8 || w == 16,
    ensures
        match spec_parse_int(s@, radix as nat, spec_int_lo(signed, w as nat), spec_int_hi(signed, w as nat)) {
            Some(x) => r == Some(spec_twos(x, w as nat) as u128) && spec_twos(x, w as nat) < spec_pow256(w as nat)
                && spec_twos(x, w as nat) <= u128::MAX,
            None => r is None,
        },
{
    let half = half_range(w);
    assert(signed <==> spec_int_lo(signed, w as nat) < 0);
    let n = s.len();
    if n == 0 {
        return None;
    }
    if n == 1 && (s[0] == 0x2B || s[0] == 0x2D) {
        return None;
    }
    let neg = s[0] == 0x2D && signed;
    let start: usize = if s[0] == 0x2B || neg { 1 } else { 0 };
    let ghost d = if s@[0] == 0x2Bu8 || neg { s@.drop_first() } else { s@ };
    assert(d =~= s@.subrange(start as int, n as int));
    let mut mag: u128 = 0;
    let mut over = false;
    let mut i: usize = start;
    assert(s@.subrange(start as int, start as int) =~= Seq::<u8>::empty());
    while i < n
        invariant
            start <= i <= n,
            n == s@.len(),
            radix == 10 || radix == 16,
            n > 0,
            !(n == 1 && (s@[0] == 0x2Bu8 || s@[0] == 0x2Du8)),
            neg == (s@[0] == 0x2Du8 && signed),
            signed <==> spec_int_lo(signed, w as nat) < 0,
            d == (if s@[0] == 0x2Bu8 || neg { s@.drop_first() } else { s@ }),
            d == s@.subrange(start as int, n as int),
            spec_digits(s@.subrange(start as int, i as int), radix as nat) is Some,
            !over ==> mag == spec_digits(s@.subrange(start as int, i as int), radix as nat).unwrap(),
            over ==> spec_digits(s@.subrange(start as int, i as int), radix as nat).unwrap() > u128::MAX,
        decreases n - i,
    {
        let ghost pre = s@.subrange(start as int, i as int);
        let ghost nxt = s@.subrange(start as int, i + 1);
        assert(nxt.drop_last() =~= pre);
        assert(nxt.last() == s@[i as int]);
        match digit_value(s[i], radix) {
            None => {
                proof {
                    let full = s@.subrange(start as int, n as int);
                    assert(full.take((i + 1 - start) as int) =~= nxt);
                    lemma_digits_prefix_none(full, (i + 1 - start) as nat, radix as nat);
                }
                return None;
            },
            Some(dv) => {
                proof {
                    let pv = spec_digits(pre, radix as nat).unwrap();
                    assert(pv * radix + dv >= pv) by (nonlinear_arith)
                        requires
                            radix >= 2,
                    ;
                }
                if !over {
                    match mag.checked_mul(radix as u128) {
                        Some(m2) => match m2.checked_add(dv as u128) {
                            Some(m3) => {
                                mag = m3;
                            },
                            None => {
                                over = true;
                            },
                        },
                        None => {
                            over = true;
                            proof {
                                let pv = spec_digits(pre, radix as nat).unwrap();
                                assert(pv * radix + dv >= pv * radix) by (nonlinear_arith)
                                    requires
                                        dv >= 0,
                                ;
                            }
                        },
                    }
                }
            },
        }
        i = i + 1;
    }
    assert(s@.subrange(start as int, n as int) =~= d);
    let ghost v = spec_digits(d, radix as nat).unwrap();
    if over {
        return None;
    }
    if signed {
        if neg {
            if mag > half {
                return None;
            }
            if mag == 0 {
                return Some(0);
            }
            // 256^w - mag, computed without overflow
            let r = (half - mag) + half;
            Some(r)
        } else {
            if mag >= half {
                return None;
            }
            Some(mag)
        }
    } else {
        let max = (half - 1) + half;
        if mag > max {
            return None;
        }
        Some(mag)
    }
}

/// The two's complement bits of the integer that the characters `s` read
/// as for the type: in base ten, else in base sixteen after leading "0x"s.
fn parse_typed(s: &Vec<char>, signed: bool, w: usize) -> (r: Option<u128>)
    requires
        w == 1 || w == 2 || w == 4 || w == 8 || w == 16,
    ensures
        match spec_parse_typed(s@, signed, w as nat) {
            Some(x) => r == Some(spec_twos(x, w as nat) as u128) && spec_twos(x, w as nat) < spec_pow256(w as nat)
                && spec_twos(x, w as nat) <= u128::MAX,
            None => r is None,
        },
{
    let mut b: Vec<u8> = Vec::new();
    let mut i: usize = 0;
    while i < s.len()
        invariant
            i <= s@.len(),
            b@ == s@.take(i as int).map_values(|c: char| c as u8),
            forall|k: int| 0 <= k < i ==> (s@[k] as u32) < 0x80,
        decreases s@.len() - i,
    {
        let c = s[i];
        if (c as u32) >= 0x80 {
            return None;
        }
        b.push(c as u8);
        assert(b@ =~= s@.take(i + 1).map_values(|c: char| c as u8));
        i = i + 1;
    }
    assert(s@.take(s@.len() as int) =~= s@);
    match parse_int(b.as_slice(), 10, signed, w) {
        Some(x) => Some(x),
        None => {
            let bs = b.as_slice();
            let start = trim_0x(bs);
            let rest = &bs[start..bs.len()];
            assert(rest@ =~= b@.skip(start as int));
            parse_int(rest, 16, signed, w)
        },
    }
}

/// Calls `format!` for the message about an argument that reads as no byte.
#[verifier::external_body]
fn value_message(a: &Vec<char>) -> (r: String)
    ensures
        r@ == "Value '"@ + a@ + "' could not be parsed!"@,
{
    format!("Value '{}' could not be parsed!", String::from_iter(a.iter()))
}

/// The bytes of an argument as written between commas, or the argument
/// (trimmed, in lower case) and, when it has one, its type.
fn dsec_arg(raw: &Vec<char>) -> (r: Result<Vec<u8>, (Vec<char>, Option<Vec<char>>)>)
    ensures
        match spec_dsec_arg(raw@) {
            ArgBytes::Bytes(b) => r matches Ok(v) && v@ == b,
            ArgBytes::BadTyped(a, t) => r matches Err((x, Some(y))) && x@ == a && y@ == t,
            ArgBytes::BadValue(a) => r matches Err((x, None)) && x@ == a,
        },
{
    let t = trim_chars(raw);
    let arg = lowercase(&t);
    if arg.len() == 0 {
        return Ok(Vec::new());
    }
    assert(spec_pow256(1) == 256) by {
        reveal_with_fuel(spec_pow256, 2);
    }
    let pieces = split_chars(&arg, '_');
    let ghost typed = spec_split(arg@, '_').map_values(|p: Seq<char>| spec_trim(p));
    assert(typed.len() == pieces@.len());
    if pieces.len() == 2 {
        let val = trim_chars(&pieces[0]);
        let ty = trim_chars(&pieces[1]);
        assert(val@ == typed[0] && ty@ == typed[1]);
        match arg_type(&ty) {
            None => Err((arg, Some(ty))),
            Some((signed, w, be)) => {
                assert(spec_arg_type(typed[1]) == Some((signed, w as nat, be)));
                match parse_typed(&val, signed, w) {
                    Some(x) => {
                        let ghost xv = spec_parse_typed(typed[0], signed, w as nat).unwrap();
                        assert(x as nat == spec_twos(xv, w as nat));
                        if be {
                            let v = be_write_uint128(x, w);
                            assert(v@ == spec_be_bytes(spec_twos(xv, w as nat), w as nat));
                            Ok(v)
                        } else {
                            let v = le_write_uint128(x, w);
                            assert(v@ == spec_le_bytes(spec_twos(xv, w as nat), w as nat));
                            Ok(v)
                        }
                    },
                    None => Err((arg, Some(ty))),
                }
            },
        }
    } else {
        match parse_typed(&arg, true, 1) {
            Some(x) => {
                let mut v: Vec<u8> = Vec::new();
                v.push(x as u8);
                assert(v@ =~= seq![spec_twos(spec_parse_typed(arg@, true, 1).unwrap(), 1) as u8]);
                Ok(v)
            },
            None => match parse_typed(&arg, false, 1) {
                Some(x) => {
                    let mut v: Vec<u8> = Vec::new();
                    v.push(x as u8);
                    assert(v@ =~= seq![spec_parse_typed(arg@, false, 1).unwrap() as u8]);
                    Ok(v)
                },
                None => Err((arg, None)),
            },
        }
    }
}

/// The models of pieces of text.
pub open spec fn spec_char_views(s: Seq<Vec<char>>) -> Seq<Seq<char>> {
    s.map_values(|v: Vec<char>| v@)
}

/// The bytes of the arguments of command `cmd`, or the first failure.
fn dsec_args(cmd: &Vec<char>, args: &Vec<Vec<char>>) -> (r: Result<Vec<u8>, DSEError>)
    ensures
        match spec_dsec_args(cmd@, spec_char_views(args@), 0, Seq::empty()) {
            Ok(b) => r matches Ok(v) && v@ == b,
            Err(f) => r matches Err(e) && spec_fail_is(e, f),
        },
{
    let ghost av = spec_char_views(args@);
    let mut out: Vec<u8> = Vec::new();
    let mut k: usize = 0;
    while k < args.len()
        invariant
            k <= args@.len(),
            av == spec_char_views(args@),
            spec_dsec_args(cmd@, av, 0, Seq::empty()) == spec_dsec_args(cmd@, av, k as nat, out@),
        decreases args@.len() - k,
    {
        assert(av[k as int] == args@[k as int]@);
        match dsec_arg(&args[k]) {
            Ok(b) => {
                let ghost before = out@;
                let mut j: usize = 0;
                while j < b.len()
                    invariant
                        j <= b@.len(),
                        out@ == before + b@.take(j as int),
                    decreases b@.len() - j,
                {
                    out.push(b[j]);
                    assert(out@ =~= before + b@.take(j + 1));
                    j = j + 1;
                }
                assert(b@.take(b@.len() as int) =~= b@);
            },
            Err((a, Some(ty))) => {
                return Err(DSEError::InvalidDSECommandTypedArgument(chars_to_string(cmd), chars_to_string(&a), chars_to_string(&ty)));
            },
            Err((a, None)) => {
                return Err(DSEError::InvalidDSECommand(chars_to_string(cmd), value_message(&a)));
            },
        }
        k = k + 1;
    }
    Ok(out)
}

/// The bytes of the UTF-8 encoding of `c`.
fn utf8_len(c: char) -> (r: u128)
    ensures
        r == spec_utf8_len(c),
{
    let v = c as u32;
    if v < 0x80 { 1 } else if v < 0x800 { 2 } else if v < 0x10000 { 3 } else { 4 }
}

/// Where slicing `s` at byte `b` cuts it, in characters, if between them.
fn char_at_byte(s: &Vec<char>, b: usize) -> (r: Option<usize>)
    ensures
        match spec_char_at_byte(s@, b as int, 0) {
            Some(q) => r == Some(q as usize) && q <= s@.len(),
            None => r is None,
        },
{
    let mut q: usize = 0;
    let mut off: u128 = 0;
    assert(s@.take(0) =~= Seq::<char>::empty());
    loop
        invariant
            q <= s@.len(),
            off == spec_byte_len(s@.take(q as int)),
            off <= 4 * q,
            spec_char_at_byte(s@, b as int, 0) == spec_char_at_byte(s@, b as int, q as nat),
        decreases s@.len() - q,
    {
        if off == b as u128 {
            return Some(q);
        }
        if q == s.len() {
            return None;
        }
        assert(s@.take(q + 1).drop_last() =~= s@.take(q as int));
        off = off + utf8_len(s[q]);
        q = q + 1;
    }
}

proof fn lemma_find_extend(s: Seq<char>, c: char, k: nat)
    requires
        k <= s.len(),
        spec_find_char(s.take(k as int), c) is Some,
    ensures
        spec_find_char(s, c) == spec_find_char(s.take(k as int), c),
    decreases s.len() - k,
{
    if k < s.len() {
        assert(s.take(k + 1 as int).drop_last() =~= s.take(k as int));
        lemma_find_extend(s, c, k + 1);
    } else {
        assert(s.take(k as int) =~= s);
    }
}

proof fn lemma_find_none(s: Seq<char>, c: char)
    requires
        forall|j: int| 0 <= j < s.len() ==> s[j] != c,
    ensures
        spec_find_char(s, c) is None,
    decreases s.len(),
{
    if s.len() > 0 {
        lemma_find_none(s.drop_last(), c);
    }
}

/// The position of the first `c` in `s`.
fn find_char(s: &Vec<char>, c: char) -> (r: Option<usize>)
    ensures
        match spec_find_char(s@, c) {
            Some(i) => r == Some(i as usize) && i < s@.len(),
            None => r is None,
        },
{
    let mut i: usize = 0;
    while i < s.len()
        invariant
            i <= s@.len(),
            forall|j: int| 0 <= j < i ==> s@[j] != c,
        decreases s@.len() - i,
    {
        if s[i] == c {
            proof {
                lemma_find_none(s@.take(i as int), c);
                assert(s@.take(i + 1).drop_last() =~= s@.take(i as int));
                lemma_find_extend(s@, c, (i + 1) as nat);
            }
            return Some(i);
        }
        i = i + 1;
    }
    proof {
        lemma_find_none(s@, c);
    }
    None
}

/// The name and argument bytes of a (trimmed) command, its failure, or
/// `Ok(None)` where the command halts the copy.
fn dsec_parts(cmd: &Vec<char>) -> (r: Result<Option<(Vec<char>, Vec<u8>)>, DSEError>)
    ensures
        match spec_dsec_parts(cmd@) {
            None => r == Ok::<Option<(Vec<char>, Vec<u8>)>, DSEError>(None),
            Some(Ok((name, b))) => r matches Ok(Some((n, v))) && n@ == name && v@ == b,
            Some(Err(f)) => r matches Err(e) && spec_fail_is(e, f),
        },
{
    let cmd_len = cmd.len();
    let fr = find_char(cmd, '(');
    let p = match fr {
        None => {
            let name = sub_chars(cmd, 0, cmd.len());
            assert(cmd@.subrange(0, cmd@.len() as int) =~= cmd@);
            return Ok(Some((name, Vec::new())));
        },
        Some(p) => p,
    };
    assert(spec_find_char(cmd@, '(') == Some(p as nat));
    let qa = match char_at_byte(cmd, p) {
        Some(q) => q,
        None => return Ok(None),
    };
    let qb = match char_at_byte(cmd, p + 1) {
        Some(q) => q,
        None => return Ok(None),
    };
    let e = skip_whitespace_back(cmd, 0, qa);
    let name = sub_chars(cmd, 0, e);
    assert(cmd@.subrange(0, qa as int) =~= cmd@.take(qa as int));
    assert(cmd@.subrange(0, e as int) =~= spec_trim_end(cmd@.take(qa as int)));
    let a = skip_whitespace(cmd, qb);
    assert(cmd@.subrange(qb as int, cmd@.len() as int) =~= cmd@.skip(qb as int));
    let rest = sub_chars(cmd, a, cmd.len());
    proof {
        reveal_strlit("Opening parentheses must be closed!!");
    }
    if rest.len() == 0 || rest[rest.len() - 1] != ')' {
        return Err(DSEError::InvalidDSECommand(chars_to_string(cmd), "Opening parentheses must be closed!!".to_owned()));
    }
    let inner_end = skip_whitespace_back(&rest, 0, rest.len() - 1);
    let inner = sub_chars(&rest, 0, inner_end);
    assert(rest@.subrange(0, rest@.len() - 1) =~= rest@.drop_last());
    let args = split_chars(&inner, ',');
    assert(spec_char_views(args@) =~= spec_split(inner@, ','));
    match dsec_args(cmd, &args) {
        Ok(b) => Ok(Some((name, b))),
        Err(e) => Err(e),
    }
}

/// The `usize` that the characters `s` read as in base ten.
fn parse_usize_chars(s: &Vec<char>) -> (r: Option<usize>)
    ensures
        match spec_parse_usize(s@) {
            Some(n) => r == Some(n as usize),
            None => r is None,
        },
{
    let mut b: Vec<u8> = Vec::new();
    let mut i: usize = 0;
    while i < s.len()
        invariant
            i <= s@.len(),
            b@ == s@.take(i as int).map_values(|c: char| c as u8),
            forall|k: int| 0 <= k < i ==> (s@[k] as u32) < 0x80,
        decreases s@.len() - i,
    {
        let c = s[i];
        if (c as u32) >= 0x80 {
            return None;
        }
        b.push(c as u8);
        assert(b@ =~= s@.take(i + 1).map_values(|c: char| c as u8));
        i = i + 1;
    }
    assert(s@.take(s@.len() as int) =~= s@);
    proof {
        reveal_with_fuel(spec_pow256, 17);
        assert(spec_pow256(16) == 0x1_0000_0000_0000_0000_0000_0000_0000_0000);
    }
    match parse_int(b.as_slice(), 10, false, 16) {
        Some(x) => {
            if x > usize::MAX as u128 {
                None
            } else {
                Some(x as usize)
            }
        },
        None => None,
    }
}

/// One command of a "dsec" marker at tick `t`, the commands going to track
/// `trk`; gives the track for the next command, or `None` where the command
/// halts the copy.
fn dsec_cmd(trks: &mut Vec<TrkChunkWriter>, reqs: &Vec<Vec<ProgramRequest>>, trk: usize, t: u128, raw: &Vec<char>) -> (r: Result<Option<usize>, DSEError>)
    requires
        spec_all_wf(spec_trk_views(old(trks)@)),
        spec_reqs_ok(spec_trk_views(old(trks)@), spec_req_views(reqs@)),
    ensures
        ({
            let (st, trk2, flow) = spec_dsec_cmd(spec_state(old(trks)@, reqs@), trk as nat, t, raw@);
            &&& (flow is Halt <==> r == Ok::<Option<usize>, DSEError>(None))
            &&& !(flow is Halt) ==> {
                &&& spec_state(final(trks)@, reqs@) == st
                &&& spec_all_wf(st.trks)
                &&& spec_reqs_ok(st.trks, st.reqs)
                &&& final(trks)@.len() == old(trks)@.len()
                &&& (flow is Go <==> r is Ok)
                &&& (r matches Ok(Some(x)) ==> x == trk2)
                &&& (flow matches CopyFlow::Fail(f) ==> r matches Err(e) && spec_fail_is(e, f))
            }
        }),
{
    let ghost st0 = spec_state(trks@, reqs@);
    let cmd = trim_chars(raw);
    if chars_start_with(&cmd, "trk") {
        proof {
            reveal_strlit("trk");
        }
        let a = skip_whitespace(&cmd, 3);
        assert(cmd@.subrange(3, cmd@.len() as int) =~= cmd@.skip(3));
        let rest = sub_chars(&cmd, a, cmd.len());
        return match parse_usize_chars(&rest) {
            Some(n) => Ok(Some(n)),
            None => Err(DSEError::InvalidDSECommandFailedToParseTrkChange(chars_to_string(&cmd))),
        };
    }
    if chars_start_with(&cmd, "evttrk") {
        return Ok(Some(0));
    }
    let (name, args) = match dsec_parts(&cmd)? {
        Some(parts) => parts,
        None => return Ok(None),
    };
    let name_s = chars_to_string(&name);
    let code = Other::name_to_code(name_s.as_str())?;
    let (canonical, info) = Other::lookup(code)?;
    if args.len() != info.2 as usize {
        return Err(DSEError::InvalidDSECommandArguments(chars_to_string(&cmd), args.len(), canonical.to_owned(), info.2 as usize));
    }
    assert(spec_event_info(code) is Some);
    if trk >= trks.len() || trks[trk].current_global_tick > t {
        return Ok(None);
    }
    assert(spec_writer_wf(st0.trks[trk as int]));
    let _ = trks[trk].fix_current_global_tick(t);
    let ghost v1 = spec_trk_views(trks@);
    assert(v1 =~= st0.trks.update(trk as int, spec_fix(st0.trks[trk as int], t)));
    let params = params_of(&args);
    let _ = trks[trk].add(other_event(code, params));
    assert(spec_trk_views(trks@) =~= v1.update(trk as int, trks@[trk as int]@));
    proof {
        lemma_reqs_after(st0, trk as int, t, trks@[trk as int]@);
        assert(spec_state(trks@, reqs@) =~= spec_dsec_cmd(st0, trk as nat, t, raw@).0);
    }
    Ok(Some(trk))
}


/// The commands of a "dsec" marker never stop a copy, and keep each
/// writer's track and channel.
proof fn lemma_dsec_facts(st: CopyState, trk: nat, t: u128, cmds: Seq<Seq<char>>, k: nat)
    ensures
        !(spec_dsec(st, trk, t, cmds, k).1 is Stop),
        spec_ids_kept(st.trks, spec_dsec(st, trk, t, cmds, k).0.trks),
    decreases cmds.len() - k,
{
    if k < cmds.len() {
        let (st2, trk2, flow) = spec_dsec_cmd(st, trk, t, cmds[k as int]);
        if flow is Go {
            lemma_dsec_facts(st2, trk2, t, cmds, k + 1);
        }
    }
}

/// The commands of a "dsec" marker at tick `t`; gives whether they halt
/// the copy.
fn dsec(trks: &mut Vec<TrkChunkWriter>, reqs: &Vec<Vec<ProgramRequest>>, t: u128, text: &Vec<char>) -> (r: Result<bool, DSEError>)
    requires
        spec_all_wf(spec_trk_views(old(trks)@)),
        spec_reqs_ok(spec_trk_views(old(trks)@), spec_req_views(reqs@)),
    ensures
        ({
            let (st, flow) = spec_dsec(spec_state(old(trks)@, reqs@), 0, t, spec_split(text@, ';'), 0);
            &&& (flow is Halt <==> r == Ok::<bool, DSEError>(true))
            &&& !(flow is Halt) ==> {
                &&& spec_state(final(trks)@, reqs@) == st
                &&& spec_all_wf(st.trks)
                &&& spec_reqs_ok(st.trks, st.reqs)
                &&& final(trks)@.len() == old(trks)@.len()
                &&& (flow is Go <==> r == Ok::<bool, DSEError>(false))
                &&& (flow matches CopyFlow::Fail(f) ==> r matches Err(e) && spec_fail_is(e, f))
            }
        }),
{
    let cmds = split_chars(text, ';');
    let ghost cv = spec_split(text@, ';');
    let ghost goal = spec_dsec(spec_state(trks@, reqs@), 0, t, cv, 0);
    let mut trk: usize = 0;
    let mut k: usize = 0;
    while k < cmds.len()
        invariant
            k <= cmds@.len(),
            cmds@.len() == cv.len(),
            forall|q: int| 0 <= q < cmds@.len() ==> (#[trigger] cmds@[q])@ == cv[q],
            spec_all_wf(spec_trk_views(trks@)),
            spec_reqs_ok(spec_trk_views(trks@), spec_req_views(reqs@)),
            spec_dsec(spec_state(trks@, reqs@), trk as nat, t, cv, k as nat) == goal,
            goal == spec_dsec(spec_state(old(trks)@, reqs@), 0, t, spec_split(text@, ';'), 0),
            trks@.len() == old(trks)@.len(),
        decreases cmds@.len() - k,
    {
        assert(cmds@[k as int]@ == cv[k as int]);
        match dsec_cmd(trks, reqs, trk, t, &cmds[k])? {
            Some(next) => trk = next,
            None => return Ok(true),
        }
        k = k + 1;
    }
    Ok(false)
}

} // verus!
