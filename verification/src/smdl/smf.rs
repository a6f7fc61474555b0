//! Reading a Standard MIDI File into the events that a song is made from.
use vstd::prelude::*;
use crate::dtype::DSEError;
use super::sequence::{MidiEvent, MidiEventKind, MidiEventView, MidiFormat, MidiTiming, spec_track_views};
use super::sequence::MidiMessage as Msg;
use midly::MidiMessage as MM;
use midly::MetaMessage as Meta;
use midly::TrackEventKind as K;

verus! {

#[verifier::external_type_specification]
#[verifier::external_body]
pub struct ExMidlyHeader(midly::Header);

#[verifier::external_type_specification]
#[verifier::external_body]
pub struct ExMidlyTrackEvent<'a>(midly::TrackEvent<'a>);

/// A MIDI file as a song is made from it: its layout, its timing and its
/// tracks of events.
pub struct MidiFile {
    pub format: MidiFormat,
    pub timing: MidiTiming,
    pub tracks: Vec<Vec<MidiEvent>>,
}

/// The model of a MIDI file.
pub struct MidiFileView {
    pub format: MidiFormat,
    pub timing: MidiTiming,
    pub tracks: Seq<Seq<MidiEventView>>,
}

impl View for MidiFile {
    type V = MidiFileView;

    open spec fn view(&self) -> MidiFileView {
        MidiFileView { format: self.format, timing: self.timing, tracks: spec_track_views(self.tracks@) }
    }
}

/// What parsing the bytes of a Standard MIDI File with midly gives: the
/// file, or the parser's error.
pub uninterp spec fn spec_parse_midi(bytes: Seq<u8>) -> Result<MidiFileView, DSEError>;

/// Converts the layout and timing of a midly header.
#[verifier::external_body]
fn header_of(h: &midly::Header) -> (r: (MidiFormat, MidiTiming)) {
    let format = match h.format {
        midly::Format::SingleTrack => MidiFormat::SingleTrack,
        midly::Format::Parallel => MidiFormat::Parallel,
        midly::Format::Sequential => MidiFormat::Sequential,
    };
    let timing = match h.timing {
        midly::Timing::Metrical(tpb) => MidiTiming::Metrical(tpb.as_int()),
        midly::Timing::Timecode(_, _) => MidiTiming::Timecode,
    };
    (format, timing)
}

/// Converts the note messages of a midly channel event (note off, note on
/// and key aftertouch), their values through `as_int`.
#[verifier::external_body]
fn key_message_of(e: &midly::TrackEvent) -> (r: Option<Msg>) {
    match e.kind {
        K::Midi { message: MM::NoteOff { key, vel }, .. } => Some(Msg::NoteOff { key: key.as_int(), vel: vel.as_int() }),
        K::Midi { message: MM::NoteOn { key, vel }, .. } => Some(Msg::NoteOn { key: key.as_int(), vel: vel.as_int() }),
        K::Midi { message: MM::Aftertouch { key, vel }, .. } => Some(Msg::Aftertouch { key: key.as_int(), vel: vel.as_int() }),
        _ => None,
    }
}

/// Converts the channel and message of a midly channel event, their values
/// through `as_int`; `None` for any other event.
#[verifier::external_body]
fn channel_message_of(e: &midly::TrackEvent) -> (r: Option<(u8, Msg)>) {
    let (channel, m) = match e.kind {
        K::Midi { channel, message } => (channel.as_int(), message),
        _ => return None,
    };
    let msg = match m {
        MM::Controller { controller, value } => Msg::Controller { controller: controller.as_int(), value: value.as_int() },
        MM::ProgramChange { program } => Msg::ProgramChange { program: program.as_int() },
        MM::ChannelAftertouch { vel } => Msg::ChannelAftertouch { vel: vel.as_int() },
        MM::PitchBend { bend } => Msg::PitchBend { bend: bend.as_int() },
        _ => key_message_of(e)?,
    };
    Some((channel, msg))
}

/// Converts a midly track event: its delta, and its kind (a marker's text
/// and a tempo kept, other meta messages, system exclusive and escape
/// events told apart only).
#[verifier::external_body]
fn event_of(e: &midly::TrackEvent) -> (r: MidiEvent) {
    let kind = match (e.kind, channel_message_of(e)) {
        (_, Some((channel, message))) => MidiEventKind::Midi { channel, message },
        (K::SysEx(_), _) => MidiEventKind::SysEx,
        (K::Escape(_), _) => MidiEventKind::Escape,
        (K::Meta(Meta::Marker(text)), _) => MidiEventKind::Marker(text.to_vec()),
        (K::Meta(Meta::Tempo(tempo)), _) => MidiEventKind::Tempo(tempo.as_int()),
        _ => MidiEventKind::OtherMeta,
    };
    MidiEvent { delta: e.delta.as_int(), kind }
}

/// Parses a Standard MIDI File with midly (`Smf::parse`) and converts it.
/// The contract claims that the outcome depends on the bytes alone; what
/// the parser accepts is not stated.
#[verifier::external_body]
pub fn open_midi(bytes: &[u8]) -> (r: Result<MidiFile, DSEError>)
    ensures
        match r {
            Ok(m) => spec_parse_midi(bytes@) == Ok::<MidiFileView, DSEError>(m@),
            Err(e) => spec_parse_midi(bytes@) == Err::<MidiFileView, DSEError>(e),
        },
{
    let smf = midly::Smf::parse(bytes).map_err(|e| DSEError::SmfParseError(e.to_string()))?;
    let (format, timing) = header_of(&smf.header);
    let tracks = smf.tracks.iter().map(|t| t.iter().map(|e| event_of(e)).collect()).collect();
    Ok(MidiFile { format, timing, tracks })
}

} // verus!
