//! The events of a track: notes, pauses of fixed length, and the other
//! commands, each with its own encoding.
use vstd::prelude::*;
use vstd::string::StringSliceAdditionalSpecFns;
use vstd::utf8::encode_utf8;
use crate::codec::{DataReader, array_from_seq, be_u32, get_u32_be, lemma_array_from_seq, push_bytes, push_u32_be, push_u8, u32_be_of};
use crate::dtype::{DSEError, ReadWrite, keydown_error, spec_keydown_error};

verus! {

// ---------------------------------------------------------------------------
// Notes
// ---------------------------------------------------------------------------

/// A note: velocity, octave change, key, and how long the key stays down.
#[derive(Debug, Clone, Copy, PartialEq, Eq)]
pub struct PlayNote {
    pub velocity: u8,
    /// Number of bytes of the duration, as read.
    pub _nbparambytes: u8,
    pub octavemod: u8,
    pub note: u8,
    pub keydownduration: u32,
}

impl View for PlayNote {
    type V = PlayNote;

    open spec fn view(&self) -> PlayNote {
        *self
    }
}

impl PlayNote {
    pub open spec fn spec_default() -> PlayNote {
        PlayNote { velocity: 0, _nbparambytes: 0, octavemod: 0, note: 0, keydownduration: 0 }
    }
}

impl Default for PlayNote {
    fn default() -> (r: PlayNote)
        ensures
            r == PlayNote::spec_default(),
    {
        PlayNote { velocity: 0, _nbparambytes: 0, octavemod: 0, note: 0, keydownduration: 0 }
    }
}

/// Number of bytes that a key-down duration takes, or `None` above 24 bits.
pub open spec fn spec_duration_len(d: u32) -> Option<nat> {
    if d == 0 {
        Some(0)
    } else if d <= 0xFF {
        Some(1)
    } else if d <= 0xFFFF {
        Some(2)
    } else if d <= 0xFF_FFFF {
        Some(3)
    } else {
        None
    }
}

/// The note byte: the duration's length in the top two bits, the octave
/// change in the next two and the key in the low four, added modulo 256.
pub open spec fn spec_note_byte(len: nat, octavemod: u8, note: u8) -> u8 {
    ((len * 64 + (octavemod * 16) % 256 + note) % 256) as u8
}

/// The duration whose big-endian bytes, without leading zero bytes, are `b`.
pub open spec fn spec_duration_of(b: Seq<u8>) -> u32 {
    u32_be_of(Seq::new((4 - b.len()) as nat, |_i: int| 0u8) + b)
}

/// A note is written in as few bytes as hold its duration: the velocity,
/// then a byte whose top two bits count the duration's bytes and whose low
/// six bits are the octave change (times 16) and the note, then the
/// duration big-endian in that many bytes (none for 0); a duration past 24
/// bits is refused.
pub proof fn lemma_note_bytes(n: PlayNote)
    ensures
        n.keydownduration > 0xFF_FFFF ==> n.spec_write() is Err,
        n.keydownduration <= 0xFF_FFFF ==> (n.spec_write() matches Ok(b) && b[0] == n.velocity
            && (n.octavemod <= 3 && n.note <= 15 ==> b[1] == (b.len() - 2) * 64 + n.octavemod * 16 + n.note)
            && (n.keydownduration == 0 ==> b.len() == 2)
            && (0 < n.keydownduration <= 0xFF ==> b.len() == 3 && b[2] == n.keydownduration)
            && (0xFF < n.keydownduration <= 0xFFFF ==> b.len() == 4 && b[2] * 256 + b[3] == n.keydownduration)
            && (0xFFFF < n.keydownduration <= 0xFF_FFFF ==> b.len() == 5 && b[2] * 0x1_0000 + b[3] * 256 + b[4] == n.keydownduration)),
{
    let d = n.keydownduration;
    if d <= 0xFF_FFFF {
        let len = spec_duration_len(d).unwrap();
        let b = n.spec_write().unwrap();
        let e = be_u32(d);
        assert(b == seq![n.velocity, spec_note_byte(len, n.octavemod, n.note)] + e.subrange(4 - len, 4));
        assert(b.len() == 2 + len);
        let om = n.octavemod;
        let nt = n.note;
        if om <= 3 && nt <= 15 {
            assert((om * 16) % 256 == om * 16);
            assert(len * 64 + om * 16 + nt < 256);
            assert(spec_note_byte(len, om, nt) == len * 64 + om * 16 + nt);
        }
        if 0 < d <= 0xFF {
            assert(b[2] == e[3]);
        } else if 0xFF < d <= 0xFFFF {
            assert(b[2] == e[2] && b[3] == e[3]);
            assert((d / 256) % 256 == d / 256);
        } else if 0xFFFF < d {
            assert(b[2] == e[1] && b[3] == e[2] && b[4] == e[3]);
            assert((d / 0x1_0000) % 256 == d / 0x1_0000);
            assert((d / 0x1_0000) * 0x1_0000 + ((d / 256) % 256) * 256 + d % 256 == d);
        }
    }
}

impl ReadWrite for PlayNote {
    /// The velocity, the note byte, and the duration's bytes without its
    /// leading zero bytes; durations above 24 bits are refused.
    open spec fn spec_write(&self) -> Result<Seq<u8>, DSEError> {
        match spec_duration_len(self.keydownduration) {
            None => Err(spec_keydown_error()),
            Some(len) => Ok(seq![self.velocity, spec_note_byte(len, self.octavemod, self.note)] + be_u32(self.keydownduration).subrange(4 - len, 4)),
        }
    }

    open spec fn spec_read(v: PlayNote, data: Seq<u8>, pos: int) -> Result<(PlayNote, int), DSEError> {
        if pos < 0 || pos + 2 > data.len() {
            Err(DSEError::UnexpectedEof())
        } else {
            let nd = data[pos + 1];
            let nb = nd / 64;
            if pos + 2 + nb > data.len() {
                Err(DSEError::UnexpectedEof())
            } else {
                Ok((
                    PlayNote {
                        velocity: data[pos],
                        _nbparambytes: (nd / 64) as u8,
                        octavemod: ((nd / 16) % 4) as u8,
                        note: (nd % 16) as u8,
                        keydownduration: spec_duration_of(data.subrange(pos + 2, pos + 2 + nb)),
                    },
                    pos + 2 + nb,
                ))
            }
        }
    }

    open spec fn spec_fresh() -> PlayNote {
        PlayNote::spec_default()
    }

    fn fresh() -> (r: Self) {
        PlayNote::default()
    }

    fn write_to_file(&self, writer: &mut Vec<u8>) -> (res: Result<usize, DSEError>) {
        let kdd = self.keydownduration;
        let len: usize = if kdd == 0 {
            0
        } else if kdd <= 0xFF {
            1
        } else if kdd <= 0xFFFF {
            2
        } else if kdd <= 0xFF_FFFF {
            3
        } else {
            return Err(keydown_error());
        };
        push_u8(writer, self.velocity);
        let nd: u8 = (((len as u32) * 64 + ((self.octavemod as u32) * 16) % 256 + self.note as u32) % 256) as u8;
        push_u8(writer, nd);
        let mut buf: Vec<u8> = Vec::new();
        push_u32_be(&mut buf, kdd);
        assert(buf@ =~= be_u32(kdd));
        let tail = &buf.as_slice()[4 - len..4];
        assert(tail@ =~= be_u32(kdd).subrange(4 - len, 4));
        push_bytes(writer, tail);
        proof {
            assert(writer@ =~= old(writer)@ + (seq![self.velocity, spec_note_byte(len as nat, self.octavemod, self.note)] + be_u32(kdd).subrange(4 - len, 4)));
        }
        Ok(2 + len)
    }

    fn read_from_file(&mut self, reader: &mut DataReader) -> (res: Result<(), DSEError>) {
        let d = reader.data;
        let p = reader.pos;
        if p > d.len() || d.len() - p < 2 {
            return Err(DSEError::UnexpectedEof());
        }
        let velocity = d[p];
        let nd = d[p + 1];
        let nb = (nd / 64) as usize;
        if d.len() - p - 2 < nb {
            return Err(DSEError::UnexpectedEof());
        }
        let mut buf: [u8; 4] = [0; 4];
        let mut i: usize = 0;
        while i < nb
            invariant
                i <= nb,
                nb <= 3,
                p + 2 + nb <= d.len(),
                forall|k: int| 0 <= k < 4 - nb ==> #[trigger] buf@[k] == 0,
                forall|k: int| 0 <= k < i ==> #[trigger] buf@[4 - nb + k] == d@[p + 2 + k],
            decreases nb - i,
        {
            buf[4 - nb + i] = d[p + 2 + i];
            i = i + 1;
        }
        let kdd = get_u32_be(buf.as_slice(), 0);
        proof {
            let z = Seq::new((4 - nb) as nat, |_i: int| 0u8);
            let t = d@.subrange(p + 2, p + 2 + nb);
            assert forall|k: int| 0 <= k < 4 implies #[trigger] buf@.subrange(0, 4)[k] == (z + t)[k] by {
                if k >= 4 - nb {
                    let j = k - (4 - nb);
                    assert(buf@[4 - nb + j] == d@[p + 2 + j]);
                }
            }
            assert(buf@.subrange(0, 4) =~= z + t);
        }
        self.velocity = velocity;
        self._nbparambytes = nd / 64;
        self.octavemod = (nd / 16) % 4;
        self.note = nd % 16;
        self.keydownduration = kdd;
        reader.pos = p + 2 + nb;
        Ok(())
    }
}

// ---------------------------------------------------------------------------
// Pauses
// ---------------------------------------------------------------------------

/// A pause whose length comes from the code (0x80 to 0x8F).
#[derive(Debug, Clone, Copy, PartialEq, Eq)]
pub struct FixedDurationPause {
    pub duration: u8,
}

impl View for FixedDurationPause {
    type V = FixedDurationPause;

    open spec fn view(&self) -> FixedDurationPause {
        *self
    }
}

impl Default for FixedDurationPause {
    fn default() -> (r: FixedDurationPause)
        ensures
            r == (FixedDurationPause { duration: 0 }),
    {
        FixedDurationPause { duration: 0 }
    }
}

impl ReadWrite for FixedDurationPause {
    open spec fn spec_write(&self) -> Result<Seq<u8>, DSEError> {
        Ok(seq![self.duration])
    }

    open spec fn spec_read(v: FixedDurationPause, data: Seq<u8>, pos: int) -> Result<(FixedDurationPause, int), DSEError> {
        if pos < 0 || pos + 1 > data.len() {
            Err(DSEError::UnexpectedEof())
        } else {
            Ok((FixedDurationPause { duration: data[pos] }, pos + 1))
        }
    }

    open spec fn spec_fresh() -> FixedDurationPause {
        FixedDurationPause { duration: 0 }
    }

    fn fresh() -> (r: Self) {
        FixedDurationPause::default()
    }

    fn write_to_file(&self, writer: &mut Vec<u8>) -> (res: Result<usize, DSEError>) {
        push_u8(writer, self.duration);
        Ok(1)
    }

    fn read_from_file(&mut self, reader: &mut DataReader) -> (res: Result<(), DSEError>) {
        let p = reader.pos;
        if p >= reader.data.len() {
            return Err(DSEError::UnexpectedEof());
        }
        self.duration = reader.data[p];
        reader.pos = p + 1;
        Ok(())
    }
}

// ---------------------------------------------------------------------------
// Other events
// ---------------------------------------------------------------------------

/// What the table knows of an event code from 0x90 on: whether the code's
/// meaning is unknown, the code, and the number of parameter bytes.
pub open spec fn spec_event_info(code: u8) -> Option<(bool, u8, u8)> {
    match code {
        0x90u8 => Some((false, 0x90u8, 0u8)),
        0x91u8 => Some((false, 0x91u8, 1u8)),
        0x92u8 => Some((false, 0x92u8, 1u8)),
        0x93u8 => Some((false, 0x93u8, 2u8)),
        0x94u8 => Some((false, 0x94u8, 3u8)),
        0x95u8 => Some((false, 0x95u8, 1u8)),
        0x96u8 => Some((true, 0x96u8, 0u8)),
        0x97u8 => Some((true, 0x97u8, 0u8)),
        0x98u8 => Some((false, 0x98u8, 0u8)),
        0x99u8 => Some((false, 0x99u8, 0u8)),
        0x9Au8 => Some((true, 0x9Au8, 0u8)),
        0x9Bu8 => Some((true, 0x9Bu8, 0u8)),
        0x9Cu8 => Some((false, 0x9Cu8, 1u8)),
        0x9Du8 => Some((false, 0x9Du8, 0u8)),
        0x9Eu8 => Some((false, 0x9Eu8, 0u8)),
        0x9Fu8 => Some((true, 0x9Fu8, 0u8)),
        0xA0u8 => Some((false, 0xA0u8, 1u8)),
        0xA1u8 => Some((false, 0xA1u8, 1u8)),
        0xA2u8 => Some((true, 0xA2u8, 0u8)),
        0xA3u8 => Some((true, 0xA3u8, 0u8)),
        0xA4u8 => Some((false, 0xA4u8, 1u8)),
        0xA5u8 => Some((false, 0xA5u8, 1u8)),
        0xA6u8 => Some((true, 0xA6u8, 0u8)),
        0xA7u8 => Some((true, 0xA7u8, 0u8)),
        0xA8u8 => Some((false, 0xA8u8, 2u8)),
        0xA9u8 => Some((false, 0xA9u8, 1u8)),
        0xAAu8 => Some((false, 0xAAu8, 1u8)),
        0xABu8 => Some((false, 0xABu8, 1u8)),
        0xACu8 => Some((false, 0xACu8, 1u8)),
        0xADu8 => Some((true, 0xADu8, 0u8)),
        0xAEu8 => Some((true, 0xAEu8, 0u8)),
        0xAFu8 => Some((false, 0xAFu8, 3u8)),
        0xB0u8 => Some((false, 0xB0u8, 0u8)),
        0xB1u8 => Some((false, 0xB1u8, 1u8)),
        0xB2u8 => Some((false, 0xB2u8, 1u8)),
        0xB3u8 => Some((false, 0xB3u8, 1u8)),
        0xB4u8 => Some((false, 0xB4u8, 2u8)),
        0xB5u8 => Some((false, 0xB5u8, 1u8)),
        0xB6u8 => Some((false, 0xB6u8, 1u8)),
        0xB7u8 => Some((true, 0xB7u8, 0u8)),
        0xB8u8 => Some((true, 0xB8u8, 0u8)),
        0xB9u8 => Some((true, 0xB9u8, 0u8)),
        0xBAu8 => Some((true, 0xBAu8, 0u8)),
        0xBBu8 => Some((true, 0xBBu8, 0u8)),
        0xBCu8 => Some((false, 0xBCu8, 1u8)),
        0xBDu8 => Some((true, 0xBDu8, 0u8)),
        0xBEu8 => Some((false, 0xBEu8, 1u8)),
        0xBFu8 => Some((false, 0xBFu8, 1u8)),
        0xC0u8 => Some((false, 0xC0u8, 0u8)),
        0xC1u8 => Some((true, 0xC1u8, 0u8)),
        0xC2u8 => Some((true, 0xC2u8, 0u8)),
        0xC3u8 => Some((false, 0xC3u8, 1u8)),
        0xC4u8 => Some((true, 0xC4u8, 0u8)),
        0xC5u8 => Some((true, 0xC5u8, 0u8)),
        0xC6u8 => Some((true, 0xC6u8, 0u8)),
        0xC7u8 => Some((true, 0xC7u8, 0u8)),
        0xC8u8 => Some((true, 0xC8u8, 0u8)),
        0xC9u8 => Some((true, 0xC9u8, 0u8)),
        0xCAu8 => Some((true, 0xCAu8, 0u8)),
        0xCBu8 => Some((false, 0xCBu8, 2u8)),
        0xCCu8 => Some((true, 0xCCu8, 0u8)),
        0xCDu8 => Some((true, 0xCDu8, 0u8)),
        0xCEu8 => Some((true, 0xCEu8, 0u8)),
        0xCFu8 => Some((true, 0xCFu8, 0u8)),
        0xD0u8 => Some((false, 0xD0u8, 1u8)),
        0xD1u8 => Some((false, 0xD1u8, 1u8)),
        0xD2u8 => Some((false, 0xD2u8, 1u8)),
        0xD3u8 => Some((false, 0xD3u8, 2u8)),
        0xD4u8 => Some((false, 0xD4u8, 3u8)),
        0xD5u8 => Some((false, 0xD5u8, 2u8)),
        0xD6u8 => Some((false, 0xD6u8, 2u8)),
        0xD7u8 => Some((false, 0xD7u8, 2u8)),
        0xD8u8 => Some((false, 0xD8u8, 2u8)),
        0xD9u8 => Some((true, 0xD9u8, 0u8)),
        0xDAu8 => Some((true, 0xDAu8, 0u8)),
        0xDBu8 => Some((false, 0xDBu8, 1u8)),
        0xDCu8 => Some((false, 0xDCu8, 5u8)),
        0xDDu8 => Some((false, 0xDDu8, 4u8)),
        0xDEu8 => Some((true, 0xDEu8, 0u8)),
        0xDFu8 => Some((false, 0xDFu8, 1u8)),
        0xE0u8 => Some((false, 0xE0u8, 1u8)),
        0xE1u8 => Some((false, 0xE1u8, 1u8)),
        0xE2u8 => Some((false, 0xE2u8, 3u8)),
        0xE3u8 => Some((false, 0xE3u8, 1u8)),
        0xE4u8 => Some((false, 0xE4u8, 5u8)),
        0xE5u8 => Some((false, 0xE5u8, 4u8)),
        0xE6u8 => Some((true, 0xE6u8, 0u8)),
        0xE7u8 => Some((false, 0xE7u8, 1u8)),
        0xE8u8 => Some((false, 0xE8u8, 1u8)),
        0xE9u8 => Some((false, 0xE9u8, 1u8)),
        0xEAu8 => Some((false, 0xEAu8, 3u8)),
        0xEBu8 => Some((true, 0xEBu8, 0u8)),
        0xECu8 => Some((false, 0xECu8, 5u8)),
        0xEDu8 => Some((false, 0xEDu8, 4u8)),
        0xEEu8 => Some((true, 0xEEu8, 0u8)),
        0xEFu8 => Some((false, 0xEFu8, 1u8)),
        0xF0u8 => Some((false, 0xF0u8, 5u8)),
        0xF1u8 => Some((false, 0xF1u8, 4u8)),
        0xF2u8 => Some((false, 0xF2u8, 2u8)),
        0xF3u8 => Some((false, 0xF3u8, 3u8)),
        0xF4u8 => Some((true, 0xF4u8, 0u8)),
        0xF5u8 => Some((true, 0xF5u8, 0u8)),
        0xF6u8 => Some((false, 0xF6u8, 1u8)),
        0xF7u8 => Some((true, 0xF7u8, 0u8)),
        0xF8u8 => Some((false, 0xF8u8, 2u8)),
        0xF9u8 => Some((true, 0xF9u8, 0u8)),
        0xFAu8 => Some((true, 0xFAu8, 0u8)),
        0xFBu8 => Some((true, 0xFBu8, 0u8)),
        0xFCu8 => Some((true, 0xFCu8, 0u8)),
        0xFDu8 => Some((true, 0xFDu8, 0u8)),
        0xFEu8 => Some((true, 0xFEu8, 0u8)),
        0xFFu8 => Some((true, 0xFFu8, 0u8)),
        _ => None,
    }
}

/// The name of an event code from 0x90 on.
pub open spec fn spec_event_name(code: u8) -> Seq<char> {
    match code {
        0x90u8 => "RepeatLastPause"@,
        0x91u8 => "AddToLastPause"@,
        0x92u8 => "Pause8Bits"@,
        0x93u8 => "Pause16Bits"@,
        0x94u8 => "Pause24Bits"@,
        0x95u8 => "PauseUntilRelease"@,
        0x96u8 => "0x96"@,
        0x97u8 => "0x97"@,
        0x98u8 => "EndOfTrack"@,
        0x99u8 => "LoopPoint"@,
        0x9Au8 => "0x9A"@,
        0x9Bu8 => "0x9B"@,
        0x9Cu8 => "RepeatFrom"@,
        0x9Du8 => "RepeatSegment"@,
        0x9Eu8 => "AfterRepeat"@,
        0x9Fu8 => "0x9F"@,
        0xA0u8 => "SetTrackOctave"@,
        0xA1u8 => "AddToTrackOctave"@,
        0xA2u8 => "0xA2"@,
        0xA3u8 => "0xA3"@,
        0xA4u8 => "SetTempo"@,
        0xA5u8 => "SetTempo2"@,
        0xA6u8 => "0xA6"@,
        0xA7u8 => "0xA7"@,
        0xA8u8 => "SetSwdlAndBank"@,
        0xA9u8 => "SetSwdl"@,
        0xAAu8 => "SetBank"@,
        0xABu8 => "SkipNextByte"@,
        0xACu8 => "SetProgram"@,
        0xADu8 => "0xAD"@,
        0xAEu8 => "0xAE"@,
        0xAFu8 => "FadeSongVolume"@,
        0xB0u8 => "DisableEnvelope"@,
        0xB1u8 => "SetEnvAtkLvl"@,
        0xB2u8 => "SetEnvAtkTime"@,
        0xB3u8 => "SetEnvHold"@,
        0xB4u8 => "SetEnvDecSus"@,
        0xB5u8 => "SetEnvFade"@,
        0xB6u8 => "SetEnvRelease"@,
        0xB7u8 => "0xB7"@,
        0xB8u8 => "0xB8"@,
        0xB9u8 => "0xB9"@,
        0xBAu8 => "0xBA"@,
        0xBBu8 => "0xBB"@,
        0xBCu8 => "SetNoteVolume"@,
        0xBDu8 => "0xBD"@,
        0xBEu8 => "SetChanPan"@,
        0xBFu8 => "0xBF"@,
        0xC0u8 => "0xC0"@,
        0xC1u8 => "0xC1"@,
        0xC2u8 => "0xC2"@,
        0xC3u8 => "SetChanVolume"@,
        0xC4u8 => "0xC4"@,
        0xC5u8 => "0xC5"@,
        0xC6u8 => "0xC6"@,
        0xC7u8 => "0xC7"@,
        0xC8u8 => "0xC8"@,
        0xC9u8 => "0xC9"@,
        0xCAu8 => "0xCA"@,
        0xCBu8 => "SkipNext2Bytes"@,
        0xCCu8 => "0xCC"@,
        0xCDu8 => "0xCD"@,
        0xCEu8 => "0xCE"@,
        0xCFu8 => "0xCF"@,
        0xD0u8 => "SetFTune"@,
        0xD1u8 => "AddFTune"@,
        0xD2u8 => "SetCTune"@,
        0xD3u8 => "AddCTune"@,
        0xD4u8 => "SweepTune"@,
        0xD5u8 => "SetRndNoteRng"@,
        0xD6u8 => "SetDetuneRng"@,
        0xD7u8 => "PitchBend"@,
        0xD8u8 => "0xD8"@,
        0xD9u8 => "0xD9"@,
        0xDAu8 => "0xDA"@,
        0xDBu8 => "SetPitchBendRng"@,
        0xDCu8 => "SetLFO1"@,
        0xDDu8 => "SetLFO1DelayFade"@,
        0xDEu8 => "0xDE"@,
        0xDFu8 => "RouteLFO1ToPitch"@,
        0xE0u8 => "SetTrackVolume"@,
        0xE1u8 => "AddTrkVol"@,
        0xE2u8 => "SweepTrackVol"@,
        0xE3u8 => "SetTrackExpression"@,
        0xE4u8 => "SetLFO2"@,
        0xE5u8 => "SetLFO2DelFade"@,
        0xE6u8 => "0xE6"@,
        0xE7u8 => "RouteLFO2ToVol"@,
        0xE8u8 => "SetTrackPan"@,
        0xE9u8 => "AddTrkPan"@,
        0xEAu8 => "SweepTrkPan"@,
        0xEBu8 => "0xEB"@,
        0xECu8 => "SetLFO3"@,
        0xEDu8 => "SetLFO3DelFade"@,
        0xEEu8 => "0xEE"@,
        0xEFu8 => "RouteLFO3ToPan"@,
        0xF0u8 => "SetLFO"@,
        0xF1u8 => "SetLFODelFade"@,
        0xF2u8 => "SetLFOParam"@,
        0xF3u8 => "SetLFORoute"@,
        0xF4u8 => "0xF4"@,
        0xF5u8 => "0xF5"@,
        0xF6u8 => "0xF6"@,
        0xF7u8 => "0xF7"@,
        0xF8u8 => "SkipNext2Bytes2"@,
        0xF9u8 => "0xF9"@,
        0xFAu8 => "0xFA"@,
        0xFBu8 => "0xFB"@,
        0xFCu8 => "0xFC"@,
        0xFDu8 => "0xFD"@,
        0xFEu8 => "0xFE"@,
        0xFFu8 => "0xFF"@,
        _ => Seq::empty(),
    }
}

/// Any other event: a code from 0x90 on and up to five parameter bytes.
#[derive(Debug, Clone, Copy, PartialEq, Eq)]
pub struct Other {
    pub code: u8,
    pub parameters: [u8; 5],
}

impl View for Other {
    type V = Other;

    open spec fn view(&self) -> Other {
        *self
    }
}

impl Other {
    pub open spec fn spec_default() -> Other {
        Other { code: 0, parameters: array_from_seq::<5>(seq![0u8, 0u8, 0u8, 0u8, 0u8]) }
    }

    /// The name and the table entry of an event code.
    pub fn lookup(v: u8) -> (r: Result<(&'static str, (bool, u8, u8)), DSEError>)
        ensures
            match spec_event_info(v) {
                Some(i) => r matches Ok((n, x)) && n@ == spec_event_name(v) && x == i,
                None => r == Err::<(&'static str, (bool, u8, u8)), DSEError>(DSEError::DSEEventLookupError(v)),
            },
    {
        let r = match v {
            0x90 => ("RepeatLastPause", (false, 0x90, 0)),
            0x91 => ("AddToLastPause", (false, 0x91, 1)),
            0x92 => ("Pause8Bits", (false, 0x92, 1)),
            0x93 => ("Pause16Bits", (false, 0x93, 2)),
            0x94 => ("Pause24Bits", (false, 0x94, 3)),
            0x95 => ("PauseUntilRelease", (false, 0x95, 1)),
            0x96 => ("0x96", (true, 0x96, 0)),
            0x97 => ("0x97", (true, 0x97, 0)),
            0x98 => ("EndOfTrack", (false, 0x98, 0)),
            0x99 => ("LoopPoint", (false, 0x99, 0)),
            0x9A => ("0x9A", (true, 0x9A, 0)),
            0x9B => ("0x9B", (true, 0x9B, 0)),
            0x9C => ("RepeatFrom", (false, 0x9C, 1)),
            0x9D => ("RepeatSegment", (false, 0x9D, 0)),
            0x9E => ("AfterRepeat", (false, 0x9E, 0)),
            0x9F => ("0x9F", (true, 0x9F, 0)),
            0xA0 => ("SetTrackOctave", (false, 0xA0, 1)),
            0xA1 => ("AddToTrackOctave", (false, 0xA1, 1)),
            0xA2 => ("0xA2", (true, 0xA2, 0)),
            0xA3 => ("0xA3", (true, 0xA3, 0)),
            0xA4 => ("SetTempo", (false, 0xA4, 1)),
            0xA5 => ("SetTempo2", (false, 0xA5, 1)),
            0xA6 => ("0xA6", (true, 0xA6, 0)),
            0xA7 => ("0xA7", (true, 0xA7, 0)),
            0xA8 => ("SetSwdlAndBank", (false, 0xA8, 2)),
            0xA9 => ("SetSwdl", (false, 0xA9, 1)),
            0xAA => ("SetBank", (false, 0xAA, 1)),
            0xAB => ("SkipNextByte", (false, 0xAB, 1)),
            0xAC => ("SetProgram", (false, 0xAC, 1)),
            0xAD => ("0xAD", (true, 0xAD, 0)),
            0xAE => ("0xAE", (true, 0xAE, 0)),
            0xAF => ("FadeSongVolume", (false, 0xAF, 3)),
            0xB0 => ("DisableEnvelope", (false, 0xB0, 0)),
            0xB1 => ("SetEnvAtkLvl", (false, 0xB1, 1)),
            0xB2 => ("SetEnvAtkTime", (false, 0xB2, 1)),
            0xB3 => ("SetEnvHold", (false, 0xB3, 1)),
            0xB4 => ("SetEnvDecSus", (false, 0xB4, 2)),
            0xB5 => ("SetEnvFade", (false, 0xB5, 1)),
            0xB6 => ("SetEnvRelease", (false, 0xB6, 1)),
            0xB7 => ("0xB7", (true, 0xB7, 0)),
            0xB8 => ("0xB8", (true, 0xB8, 0)),
            0xB9 => ("0xB9", (true, 0xB9, 0)),
            0xBA => ("0xBA", (true, 0xBA, 0)),
            0xBB => ("0xBB", (true, 0xBB, 0)),
            0xBC => ("SetNoteVolume", (false, 0xBC, 1)),
            0xBD => ("0xBD", (true, 0xBD, 0)),
            0xBE => ("SetChanPan", (false, 0xBE, 1)),
            0xBF => ("0xBF", (false, 0xBF, 1)),
            0xC0 => ("0xC0", (false, 0xC0, 0)),
            0xC1 => ("0xC1", (true, 0xC1, 0)),
            0xC2 => ("0xC2", (true, 0xC2, 0)),
            0xC3 => ("SetChanVolume", (false, 0xC3, 1)),
            0xC4 => ("0xC4", (true, 0xC4, 0)),
            0xC5 => ("0xC5", (true, 0xC5, 0)),
            0xC6 => ("0xC6", (true, 0xC6, 0)),
            0xC7 => ("0xC7", (true, 0xC7, 0)),
            0xC8 => ("0xC8", (true, 0xC8, 0)),
            0xC9 => ("0xC9", (true, 0xC9, 0)),
            0xCA => ("0xCA", (true, 0xCA, 0)),
            0xCB => ("SkipNext2Bytes", (false, 0xCB, 2)),
            0xCC => ("0xCC", (true, 0xCC, 0)),
            0xCD => ("0xCD", (true, 0xCD, 0)),
            0xCE => ("0xCE", (true, 0xCE, 0)),
            0xCF => ("0xCF", (true, 0xCF, 0)),
            0xD0 => ("SetFTune", (false, 0xD0, 1)),
            0xD1 => ("AddFTune", (false, 0xD1, 1)),
            0xD2 => ("SetCTune", (false, 0xD2, 1)),
            0xD3 => ("AddCTune", (false, 0xD3, 2)),
            0xD4 => ("SweepTune", (false, 0xD4, 3)),
            0xD5 => ("SetRndNoteRng", (false, 0xD5, 2)),
            0xD6 => ("SetDetuneRng", (false, 0xD6, 2)),
            0xD7 => ("PitchBend", (false, 0xD7, 2)),
            0xD8 => ("0xD8", (false, 0xD8, 2)),
            0xD9 => ("0xD9", (true, 0xD9, 0)),
            0xDA => ("0xDA", (true, 0xDA, 0)),
            0xDB => ("SetPitchBendRng", (false, 0xDB, 1)),
            0xDC => ("SetLFO1", (false, 0xDC, 5)),
            0xDD => ("SetLFO1DelayFade", (false, 0xDD, 4)),
            0xDE => ("0xDE", (true, 0xDE, 0)),
            0xDF => ("RouteLFO1ToPitch", (false, 0xDF, 1)),
            0xE0 => ("SetTrackVolume", (false, 0xE0, 1)),
            0xE1 => ("AddTrkVol", (false, 0xE1, 1)),
            0xE2 => ("SweepTrackVol", (false, 0xE2, 3)),
            0xE3 => ("SetTrackExpression", (false, 0xE3, 1)),
            0xE4 => ("SetLFO2", (false, 0xE4, 5)),
            0xE5 => ("SetLFO2DelFade", (false, 0xE5, 4)),
            0xE6 => ("0xE6", (true, 0xE6, 0)),
            0xE7 => ("RouteLFO2ToVol", (false, 0xE7, 1)),
            0xE8 => ("SetTrackPan", (false, 0xE8, 1)),
            0xE9 => ("AddTrkPan", (false, 0xE9, 1)),
            0xEA => ("SweepTrkPan", (false, 0xEA, 3)),
            0xEB => ("0xEB", (true, 0xEB, 0)),
            0xEC => ("SetLFO3", (false, 0xEC, 5)),
            0xED => ("SetLFO3DelFade", (false, 0xED, 4)),
            0xEE => ("0xEE", (true, 0xEE, 0)),
            0xEF => ("RouteLFO3ToPan", (false, 0xEF, 1)),
            0xF0 => ("SetLFO", (false, 0xF0, 5)),
            0xF1 => ("SetLFODelFade", (false, 0xF1, 4)),
            0xF2 => ("SetLFOParam", (false, 0xF2, 2)),
            0xF3 => ("SetLFORoute", (false, 0xF3, 3)),
            0xF4 => ("0xF4", (true, 0xF4, 0)),
            0xF5 => ("0xF5", (true, 0xF5, 0)),
            0xF6 => ("0xF6", (false, 0xF6, 1)),
            0xF7 => ("0xF7", (true, 0xF7, 0)),
            0xF8 => ("SkipNext2Bytes2", (false, 0xF8, 2)),
            0xF9 => ("0xF9", (true, 0xF9, 0)),
            0xFA => ("0xFA", (true, 0xFA, 0)),
            0xFB => ("0xFB", (true, 0xFB, 0)),
            0xFC => ("0xFC", (true, 0xFC, 0)),
            0xFD => ("0xFD", (true, 0xFD, 0)),
            0xFE => ("0xFE", (true, 0xFE, 0)),
            0xFF => ("0xFF", (true, 0xFF, 0)),
            _ => {
                return Err(DSEError::DSEEventLookupError(v));
            },
        };
        Ok(r)
    }

    /// Whether the event ends the track (code 0x98).
    pub fn is_eot_event(&self) -> (r: bool)
        ensures
            r == (self.code == 0x98),
    {
        self.code == 0x98
    }
}

impl Default for Other {
    fn default() -> (r: Other)
        ensures
            r == Other::spec_default(),
    {
        let r = Other { code: 0, parameters: [0; 5] };
        proof {
            lemma_array_from_seq::<5>(seq![0u8, 0u8, 0u8, 0u8, 0u8]);
            assert(r.parameters =~= array_from_seq::<5>(seq![0u8, 0u8, 0u8, 0u8, 0u8]));
        }
        r
    }
}

/// Five parameter bytes: the first of `new`, then the rest of `old`.
pub open spec fn spec_params(old: [u8; 5], new: Seq<u8>) -> [u8; 5] {
    array_from_seq::<5>(Seq::new(5, |i: int| if i < new.len() { new[i] } else { old@[i] }))
}

impl ReadWrite for Other {
    /// The code and as many parameter bytes as the table gives it; codes
    /// below 0x90 are refused.
    open spec fn spec_write(&self) -> Result<Seq<u8>, DSEError> {
        match spec_event_info(self.code) {
            None => Err(DSEError::DSEEventLookupError(self.code)),
            Some(i) => Ok(seq![self.code] + self.parameters@.take(i.2 as int)),
        }
    }

    open spec fn spec_read(v: Other, data: Seq<u8>, pos: int) -> Result<(Other, int), DSEError> {
        if pos < 0 || pos + 1 > data.len() {
            Err(DSEError::UnexpectedEof())
        } else {
            let code = data[pos];
            match spec_event_info(code) {
                None => Err(DSEError::DSEEventLookupError(code)),
                Some(i) => if pos + 1 + i.2 > data.len() {
                    Err(DSEError::UnexpectedEof())
                } else {
                    Ok((
                        Other { code, parameters: spec_params(v.parameters, data.subrange(pos + 1, pos + 1 + i.2)) },
                        pos + 1 + i.2,
                    ))
                },
            }
        }
    }

    open spec fn spec_fresh() -> Other {
        Other::spec_default()
    }

    fn fresh() -> (r: Self) {
        Other::default()
    }

    fn write_to_file(&self, writer: &mut Vec<u8>) -> (res: Result<usize, DSEError>) {
        let (_, (_, _, nbparams)) = Other::lookup(self.code)?;
        push_u8(writer, self.code);
        let n = nbparams as usize;
        assert(n <= 5);
        let params = &self.parameters.as_slice()[0..n];
        assert(params@ =~= self.parameters@.take(n as int));
        push_bytes(writer, params);
        proof {
            assert(writer@ =~= old(writer)@ + (seq![self.code] + self.parameters@.take(n as int)));
        }
        Ok(1 + n)
    }

    fn read_from_file(&mut self, reader: &mut DataReader) -> (res: Result<(), DSEError>) {
        let d = reader.data;
        let p = reader.pos;
        if p >= d.len() {
            return Err(DSEError::UnexpectedEof());
        }
        let code = d[p];
        let (_, (_, _, nbparams)) = Other::lookup(code)?;
        let n = nbparams as usize;
        assert(n <= 5);
        if d.len() - p - 1 < n {
            return Err(DSEError::UnexpectedEof());
        }
        let ghost old_params = self.parameters;
        let mut i: usize = 0;
        while i < n
            invariant
                i <= n,
                n <= 5,
                p + 1 + n <= d.len(),
                forall|k: int| 0 <= k < i ==> #[trigger] self.parameters@[k] == d@[p + 1 + k],
                forall|k: int| i <= k < 5 ==> #[trigger] self.parameters@[k] == old_params@[k],
            decreases n - i,
        {
            self.parameters[i] = d[p + 1 + i];
            i = i + 1;
        }
        self.code = code;
        proof {
            let s = Seq::new(5, |k: int| if k < n { d@.subrange(p + 1, p + 1 + n)[k] } else { old_params@[k] });
            lemma_array_from_seq::<5>(s);
            assert(self.parameters =~= array_from_seq::<5>(s));
        }
        reader.pos = p + 1 + n;
        Ok(())
    }
}

// ---------------------------------------------------------------------------
// Reading back what was written
// ---------------------------------------------------------------------------

/// The note byte of a note whose octave change and key fit their bit
/// fields gives back the duration's length, the octave change and the key.
proof fn lemma_note_byte(len: nat, om: u8, note: u8)
    requires
        len <= 3,
        om < 4,
        note < 16,
    ensures
        spec_note_byte(len, om, note) == len * 64 + om * 16 + note,
        spec_note_byte(len, om, note) / 64 == len,
        (spec_note_byte(len, om, note) / 16) % 4 == om,
        spec_note_byte(len, om, note) % 16 == note,
{
    assert((om * 16) % 256 == om * 16);
    assert(len * 64 + om * 16 + note < 256);
}

/// The big-endian bytes of a duration, without the leading zero bytes that
/// the writer leaves out, give the duration back.
proof fn lemma_duration_bytes(d: u32)
    requires
        spec_duration_len(d) is Some,
    ensures
        spec_duration_of(be_u32(d).subrange(4 - spec_duration_len(d).unwrap(), 4)) == d,
{
    let len = spec_duration_len(d).unwrap();
    let b = be_u32(d);
    let z = Seq::new((4 - len) as nat, |_i: int| 0u8);
    let t = b.subrange(4 - len, 4);
    assert(d as int / 0x100_0000 == 0);
    if len <= 2 {
        assert(d as int / 0x1_0000 == 0);
    }
    if len <= 1 {
        assert(d as int / 256 == 0);
    }
    if len == 0 {
        assert(d == 0);
    }
    assert forall|k: int| 0 <= k < 4 implies #[trigger] (z + t)[k] == b[k] by {
        if k < 4 - len {
            assert(b[k] == 0);
        }
    }
    assert(z + t =~= b);
    crate::codec::lemma_u32_be_roundtrip(d);
}

/// The note that reading back a written note gives: the same note, with
/// the duration's byte count that the writer chose.
pub open spec fn spec_note_read_back(n: PlayNote) -> PlayNote {
    PlayNote { _nbparambytes: spec_duration_len(n.keydownduration).unwrap() as u8, ..n }
}

/// Reading the bytes of a written note, wherever they stand, gives the note
/// back with the smallest duration byte count, and moves past them; this
/// holds when the octave change and the key fit their bit fields.
pub proof fn lemma_play_note_roundtrip(n: PlayNote, v: PlayNote, data: Seq<u8>, pos: int)
    requires
        n.octavemod < 4,
        n.note < 16,
        n.spec_write() is Ok,
        0 <= pos,
        pos + n.spec_write().unwrap().len() <= data.len(),
        data.subrange(pos, pos + n.spec_write().unwrap().len()) == n.spec_write().unwrap(),
    ensures
        PlayNote::spec_read(v, data, pos) == Ok::<(PlayNote, int), DSEError>(
            (spec_note_read_back(n), pos + n.spec_write().unwrap().len()),
        ),
{
    let len = spec_duration_len(n.keydownduration).unwrap();
    let w = n.spec_write().unwrap();
    let t = be_u32(n.keydownduration).subrange(4 - len, 4);
    assert(w == seq![n.velocity, spec_note_byte(len, n.octavemod, n.note)] + t);
    lemma_note_byte(len, n.octavemod, n.note);
    assert(data[pos] == w[0]);
    assert(data[pos + 1] == w[1]);
    assert(data.subrange(pos + 2, pos + 2 + len) =~= t) by {
        assert forall|k: int| 0 <= k < len implies #[trigger] data.subrange(pos + 2, pos + 2 + len)[k] == t[k] by {
            assert(data[pos + 2 + k] == w[2 + k]);
        }
    }
    lemma_duration_bytes(n.keydownduration);
}

/// Reading the byte of a written pause gives the pause back.
pub proof fn lemma_pause_roundtrip(e: FixedDurationPause, v: FixedDurationPause, data: Seq<u8>, pos: int)
    requires
        0 <= pos < data.len(),
        data[pos] == e.duration,
    ensures
        FixedDurationPause::spec_read(v, data, pos) == Ok::<(FixedDurationPause, int), DSEError>((e, pos + 1)),
{
}

/// The event that reading back a written event gives, when it is read into
/// `v`: the code, and the parameter bytes that the code takes followed by
/// those of `v`.
pub open spec fn spec_other_read_back(e: Other, v: Other) -> Other {
    Other { code: e.code, parameters: spec_params(v.parameters, e.parameters@.take(spec_event_info(e.code).unwrap().2 as int)) }
}

/// Reading the bytes of a written event, wherever they stand, gives its code
/// and the parameter bytes that the code takes, and moves past them.
pub proof fn lemma_other_roundtrip(e: Other, v: Other, data: Seq<u8>, pos: int)
    requires
        e.spec_write() is Ok,
        0 <= pos,
        pos + e.spec_write().unwrap().len() <= data.len(),
        data.subrange(pos, pos + e.spec_write().unwrap().len()) == e.spec_write().unwrap(),
    ensures
        Other::spec_read(v, data, pos) == Ok::<(Other, int), DSEError>(
            (spec_other_read_back(e, v), pos + e.spec_write().unwrap().len()),
        ),
{
    let n = spec_event_info(e.code).unwrap().2;
    let w = e.spec_write().unwrap();
    assert(w == seq![e.code] + e.parameters@.take(n as int));
    assert(data[pos] == w[0]);
    assert(data.subrange(pos + 1, pos + 1 + n) =~= e.parameters@.take(n as int)) by {
        assert forall|k: int| 0 <= k < n implies #[trigger] data.subrange(pos + 1, pos + 1 + n)[k] == e.parameters@.take(n as int)[k] by {
            assert(data[pos + 1 + k] == w[1 + k]);
        }
    }
}

/// The note byte splits into the duration's byte count, the octave change
/// and the key, which give it back.
proof fn lemma_note_byte_split(nd: u8)
    ensures
        spec_note_byte((nd / 64) as nat, ((nd / 16) % 4) as u8, (nd % 16) as u8) == nd,
{
    lemma_note_byte((nd / 64) as nat, ((nd / 16) % 4) as u8, (nd % 16) as u8);
}

/// Writing a note read from bytes whose duration takes the fewest bytes
/// gives those bytes back.
pub proof fn lemma_play_note_read_write(v: PlayNote, data: Seq<u8>, pos: int)
    requires
        PlayNote::spec_read(v, data, pos) is Ok,
        spec_duration_len(PlayNote::spec_read(v, data, pos).unwrap().0.keydownduration) == Some(
            PlayNote::spec_read(v, data, pos).unwrap().0._nbparambytes as nat,
        ),
    ensures
        PlayNote::spec_read(v, data, pos).unwrap().0.spec_write() == Ok::<Seq<u8>, DSEError>(
            data.subrange(pos, PlayNote::spec_read(v, data, pos).unwrap().1),
        ),
{
    let (n, p) = PlayNote::spec_read(v, data, pos).unwrap();
    let nd = data[pos + 1];
    let nb = (nd / 64) as int;
    lemma_note_byte_split(nd);
    let t = data.subrange(pos + 2, pos + 2 + nb);
    let z = Seq::new((4 - nb) as nat, |_i: int| 0u8);
    crate::codec::lemma_u32_be_bytes(z + t);
    assert(be_u32(n.keydownduration) == z + t);
    assert(be_u32(n.keydownduration).subrange(4 - nb, 4) =~= t);
    assert(data.subrange(pos, p) =~= seq![n.velocity, nd] + t);
}

/// An event code takes at most five parameter bytes.
proof fn lemma_event_params_bound(code: u8)
    ensures
        spec_event_info(code) is Some ==> spec_event_info(code).unwrap().2 <= 5,
{
}

/// Writing an event read from bytes gives those bytes back.
pub proof fn lemma_other_read_write(v: Other, data: Seq<u8>, pos: int)
    requires
        Other::spec_read(v, data, pos) is Ok,
    ensures
        Other::spec_read(v, data, pos).unwrap().0.spec_write() == Ok::<Seq<u8>, DSEError>(
            data.subrange(pos, Other::spec_read(v, data, pos).unwrap().1),
        ),
{
    let (e, p) = Other::spec_read(v, data, pos).unwrap();
    let code = data[pos];
    lemma_event_params_bound(code);
    let n = spec_event_info(code).unwrap().2 as int;
    let new = data.subrange(pos + 1, pos + 1 + n);
    let s = Seq::new(5, |i: int| if i < new.len() { new[i] } else { v.parameters@[i] });
    lemma_array_from_seq::<5>(s);
    assert(e.parameters@.take(n) =~= new);
    assert(data.subrange(pos, p) =~= seq![code] + new);
}

// ---------------------------------------------------------------------------
// Event names
// ---------------------------------------------------------------------------

/// The first code from `c` to 0xFF whose name is `name`.
pub open spec fn spec_find_name(name: Seq<char>, c: int) -> Option<u8>
    decreases 0x100 - c,
{
    if c < 0 || c > 0xFF {
        None
    } else if spec_event_name(c as u8) == name {
        Some(c as u8)
    } else {
        spec_find_name(name, c + 1)
    }
}

/// The value of a digit byte in base `radix`, as `char::to_digit` gives it.
pub open spec fn spec_digit(b: u8, radix: nat) -> Option<nat> {
    if 0x30 <= b <= 0x39 && b - 0x30 < radix {
        Some((b - 0x30) as nat)
    } else if radix > 10 && 0x61 <= b <= 0x7A && b - 0x61 + 10 < radix {
        Some((b - 0x61 + 10) as nat)
    } else if radix > 10 && 0x41 <= b <= 0x5A && b - 0x41 + 10 < radix {
        Some((b - 0x41 + 10) as nat)
    } else {
        None
    }
}

/// The number written by the digits `s` in base `radix`, if each is a digit.
pub open spec fn spec_digits(s: Seq<u8>, radix: nat) -> Option<nat>
    decreases s.len(),
{
    if s.len() == 0 {
        Some(0)
    } else {
        match (spec_digits(s.drop_last(), radix), spec_digit(s.last(), radix)) {
            (Some(v), Some(d)) => Some(v * radix + d),
            _ => None,
        }
    }
}

/// The `u8` that `u8::from_str_radix` reads from `s`: an optional `+`, then
/// at least one digit, with a value of at most 255.
pub open spec fn spec_parse_u8(s: Seq<u8>, radix: nat) -> Option<u8> {
    if s.len() == 0 {
        None
    } else if s.len() == 1 && (s[0] == 0x2Bu8 || s[0] == 0x2Du8) {
        None
    } else {
        let d = if s[0] == 0x2Bu8 { s.drop_first() } else { s };
        match spec_digits(d, radix) {
            Some(v) => if v <= 255 { Some(v as u8) } else { None },
            None => None,
        }
    }
}

/// `s` without its leading "0x" prefixes.
pub open spec fn spec_trim_0x(s: Seq<u8>) -> Seq<u8>
    decreases s.len(),
{
    if s.len() >= 2 && s[0] == 0x30u8 && s[1] == 0x78u8 {
        spec_trim_0x(s.skip(2))
    } else {
        s
    }
}

/// The code that a name stands for: the code of that name in the table,
/// else the name read as a decimal `u8`, else as a hexadecimal one after
/// its "0x" prefixes.
pub open spec fn spec_name_to_code(name: Seq<char>) -> Option<u8> {
    match spec_find_name(name, 0x90) {
        Some(c) => Some(c),
        None => match spec_parse_u8(encode_utf8(name), 10) {
            Some(v) => Some(v),
            None => spec_parse_u8(spec_trim_0x(encode_utf8(name)), 16),
        },
    }
}

fn bytes_eq(a: &[u8], b: &[u8]) -> (r: bool)
    ensures
        r == (a@ == b@),
{
    if a.len() != b.len() {
        return false;
    }
    let mut i: usize = 0;
    while i < a.len()
        invariant
            i <= a@.len(),
            a@.len() == b@.len(),
            forall|k: int| 0 <= k < i ==> a@[k] == b@[k],
        decreases a@.len() - i,
    {
        if a[i] != b[i] {
            return false;
        }
        i = i + 1;
    }
    assert(a@ =~= b@);
    true
}

pub(crate) fn digit_value(b: u8, radix: u32) -> (r: Option<u32>)
    requires
        radix == 10 || radix == 16,
    ensures
        match spec_digit(b, radix as nat) {
            Some(d) => r == Some(d as u32),
            None => r is None,
        },
{
    if 0x30 <= b && b <= 0x39 && ((b - 0x30) as u32) < radix {
        Some((b - 0x30) as u32)
    } else if radix > 10 && 0x61 <= b && b <= 0x7A && ((b - 0x61) as u32) + 10 < radix {
        Some(((b - 0x61) as u32) + 10)
    } else if radix > 10 && 0x41 <= b && b <= 0x5A && ((b - 0x41) as u32) + 10 < radix {
        Some(((b - 0x41) as u32) + 10)
    } else {
        None
    }
}

pub(crate) proof fn lemma_digits_grow(s: Seq<u8>, radix: nat)
    requires
        radix >= 2,
        s.len() > 0,
        spec_digits(s, radix) is Some,
    ensures
        spec_digits(s.drop_last(), radix) is Some,
        spec_digits(s.drop_last(), radix).unwrap() <= spec_digits(s, radix).unwrap(),
{
    let v = spec_digits(s.drop_last(), radix).unwrap();
    assert(v * radix >= v) by (nonlinear_arith)
        requires
            radix >= 2,
    ;
}

/// Reads a `u8` as `u8::from_str_radix` does, in base 10 or 16.
pub(crate) fn parse_u8(s: &[u8], radix: u32) -> (r: Option<u8>)
    requires
        radix == 10 || radix == 16,
    ensures
        r == spec_parse_u8(s@, radix as nat),
{
    let n = s.len();
    if n == 0 {
        return None;
    }
    if n == 1 && (s[0] == 0x2B || s[0] == 0x2D) {
        return None;
    }
    let start: usize = if s[0] == 0x2B { 1 } else { 0 };
    let ghost d = if s@[0] == 0x2Bu8 { s@.drop_first() } else { s@ };
    assert(d =~= s@.subrange(start as int, n as int));
    let mut value: u32 = 0;
    let mut i: usize = start;
    assert(s@.subrange(start as int, start as int) =~= Seq::<u8>::empty());
    while i < n
        invariant
            start <= i <= n,
            n == s@.len(),
            n > 0,
            !(n == 1 && (s@[0] == 0x2Bu8 || s@[0] == 0x2Du8)),
            radix == 10 || radix == 16,
            d == s@.subrange(start as int, n as int),
            d == (if s@[0] == 0x2Bu8 { s@.drop_first() } else { s@ }),
            spec_digits(s@.subrange(start as int, i as int), radix as nat) is Some,
            value <= 256,
            value == if spec_digits(s@.subrange(start as int, i as int), radix as nat).unwrap() <= 255 {
                spec_digits(s@.subrange(start as int, i as int), radix as nat).unwrap()
            } else {
                256
            },
        decreases n - i,
    {
        let ghost pre = s@.subrange(start as int, i as int);
        let ghost nxt = s@.subrange(start as int, i + 1);
        assert(nxt.drop_last() =~= pre);
        assert(nxt.last() == s@[i as int]);
        match digit_value(s[i], radix) {
            None => {
                proof {
                    let full = s@.subrange(start as int, n as int);
                    assert(full.take((i + 1 - start) as int) =~= nxt);
                    assert(spec_digits(nxt, radix as nat) is None);
                    lemma_digits_prefix_none(full, (i + 1 - start) as nat, radix as nat);
                }
                return None;
            },
            Some(dv) => {
                let next = value * radix + dv;
                value = if next > 256 { 256 } else { next };
                proof {
                    let pv = spec_digits(pre, radix as nat).unwrap();
                    if pv > 255 {
                        assert(pv * radix + dv >= pv) by (nonlinear_arith)
                            requires
                                radix >= 2,
                        ;
                    }
                }
            },
        }
        i = i + 1;
    }
    assert(s@.subrange(start as int, n as int) =~= d);
    if value <= 255 {
        Some(value as u8)
    } else {
        None
    }
}

pub(crate) proof fn lemma_digits_prefix_none(s: Seq<u8>, k: nat, radix: nat)
    requires
        k <= s.len(),
        spec_digits(s.take(k as int), radix) is None,
    ensures
        spec_digits(s, radix) is None,
    decreases s.len() - k,
{
    if k < s.len() {
        assert(s.take(k as int + 1).drop_last() =~= s.take(k as int));
        lemma_digits_prefix_none(s, k + 1, radix);
    } else {
        assert(s.take(k as int) =~= s);
    }
}

/// The position after the leading "0x" prefixes of `s`.
pub(crate) fn trim_0x(s: &[u8]) -> (r: usize)
    ensures
        r <= s@.len(),
        s@.skip(r as int) == spec_trim_0x(s@),
{
    let mut i: usize = 0;
    assert(s@.skip(0) =~= s@);
    while s.len() - i >= 2 && s[i] == 0x30 && s[i + 1] == 0x78
        invariant
            i <= s@.len(),
            spec_trim_0x(s@.skip(i as int)) == spec_trim_0x(s@),
        decreases s@.len() - i,
    {
        assert(s@.skip(i as int).skip(2) =~= s@.skip(i + 2));
        i = i + 2;
    }
    proof {
        let t = s@.skip(i as int);
        if t.len() >= 2 && t[0] == 0x30u8 && t[1] == 0x78u8 {
            assert(t[0] == s@[i as int] && t[1] == s@[i + 1]);
        }
    }
    i
}

impl Other {
    /// The code that `name` stands for: its code in the table, else `name`
    /// read as a decimal number, else as a hexadecimal one after its "0x"
    /// prefixes.
    pub fn name_to_code(name: &str) -> (r: Result<u8, DSEError>)
        ensures
            match spec_name_to_code(name@) {
                Some(c) => r == Ok::<u8, DSEError>(c),
                None => r matches Err(DSEError::DSEEventNameLookupError(s)) && s@ == name@,
            },
    {
        let bytes = name.as_bytes();
        let mut c: u32 = 0x90;
        while c <= 0xFF
            invariant
                0x90 <= c <= 0x100,
                bytes@ == encode_utf8(name@),
                spec_find_name(name@, 0x90) == spec_find_name(name@, c as int),
            decreases 0x100 - c,
        {
            let (n, _) = match Other::lookup(c as u8) {
                Ok(x) => x,
                Err(_) => {
                    assert(false);
                    return Err(DSEError::Placeholder());
                },
            };
            if bytes_eq(n.as_bytes(), bytes) {
                proof {
                    vstd::utf8::encode_utf8_decode_utf8(n@);
                    vstd::utf8::encode_utf8_decode_utf8(name@);
                }
                return Ok(c as u8);
            }
            proof {
                if n@ == name@ {
                    assert(n.spec_bytes() == encode_utf8(name@));
                }
            }
            c = c + 1;
        }
        if let Some(v) = parse_u8(bytes, 10) {
            return Ok(v);
        }
        let start = trim_0x(bytes);
        let rest = &bytes[start..bytes.len()];
        assert(rest@ =~= bytes@.skip(start as int));
        if let Some(v) = parse_u8(rest, 16) {
            return Ok(v);
        }
        Err(DSEError::DSEEventNameLookupError(name.to_owned()))
    }
}

} // verus!
