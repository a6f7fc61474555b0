//! Each event name of the table names exactly one code: reading a name
//! back gives the code it was looked up for. Four characters and the
//! length of a name tell the names of the table apart, so a search from
//! the first code passes every other code before it reaches the right one.
use vstd::prelude::*;
use super::events::{spec_event_name, spec_find_name, spec_name_to_code};

verus! {

/// The character of `s` at `i` as a number, or 0 past its ends.
spec fn spec_char_or_zero(s: Seq<char>, i: int) -> int {
    if 0 <= i < s.len() { s[i] as int } else { 0 }
}

/// A number made of the length of `s` and its characters at 0, 3, 6 and
/// second from the end; it differs for any two names of the table.
spec fn spec_name_key(s: Seq<char>) -> int {
    s.len() * 0x1_0000_0000 + spec_char_or_zero(s, 0) * 0x100_0000 + spec_char_or_zero(s, 3) * 0x1_0000
        + spec_char_or_zero(s, 6) * 0x100 + spec_char_or_zero(s, s.len() - 2)
}

/// The code whose name has the key `k`.
spec fn spec_code_of_key(k: int) -> int {
    if k == 65806879859 {
        0x90
    } else if k == 61225591155 {
        0x91
    } else if k == 44299403892 {
        0x92
    } else if k == 48594368116 {
        0x93
    } else if k == 48594367604 {
        0x94
    } else if k == 74364186227 {
        0x95
    } else if k == 17988714553 {
        0x96
    } else if k == 17988780089 {
        0x97
    } else if k == 44112507491 {
        0x98
    } else if k == 39937141102 {
        0x99
    } else if k == 17989435449 {
        0x9A
    } else if k == 17989500985 {
        0x9B
    } else if k == 44332041839 {
        0x9C
    } else if k == 57216947054 {
        0x9D
    } else if k == 48341804385 {
        0x9E
    } else if k == 17989763129 {
        0x9F
    } else if k == 61527581558 {
        0xA0
    } else if k == 69815530102 {
        0xA1
    } else if k == 17988452417 {
        0xA2
    } else if k == 17988517953 {
        0xA3
    } else if k == 35757781104 {
        0xA4
    } else if k == 40052748399 {
        0xA5
    } else if k == 17988714561 {
        0xA6
    } else if k == 17988780097 {
        0xA7
    } else if k == 61527518318 {
        0xA8
    } else if k == 31462747236 {
        0xA9
    } else if k == 31461632878 {
        0xAA
    } else if k == 52939487348 {
        0xAB
    } else if k == 44347451233 {
        0xAC
    } else if k == 17989632065 {
        0xAD
    } else if k == 17989697601 {
        0xAE
    } else if k == 61310594669 {
        0xAF
    } else if k == 65571743088 {
        0xB0
    } else if k == 52936655222 {
        0xB1
    } else if k == 57231622509 {
        0xB2
    } else if k == 44346722412 {
        0xB3
    } else if k == 52936655989 {
        0xB4
    } else if k == 44346721892 {
        0xB5
    } else if k == 57231626867 {
        0xB6
    } else if k == 17988780098 {
        0xB7
    } else if k == 17988845634 {
        0xB8
    } else if k == 17988911170 {
        0xB9
    } else if k == 17989435458 {
        0xBA
    } else if k == 17989500994 {
        0xBB
    } else if k == 57232221549 {
        0xBC
    } else if k == 17989632066 {
        0xBD
    } else if k == 44346601057 {
        0xBE
    } else if k == 17989763138 {
        0xBF
    } else if k == 17988321347 {
        0xC0
    } else if k == 17988386883 {
        0xC1
    } else if k == 17988452419 {
        0xC2
    } else if k == 57231502957 {
        0xC3
    } else if k == 17988583491 {
        0xC4
    } else if k == 17988649027 {
        0xC5
    } else if k == 17988714563 {
        0xC6
    } else if k == 17988780099 {
        0xC7
    } else if k == 17988845635 {
        0xC8
    } else if k == 17988911171 {
        0xC9
    } else if k == 17989435459 {
        0xCA
    } else if k == 61529421925 {
        0xCB
    } else if k == 17989566531 {
        0xCC
    } else if k == 17989632067 {
        0xCD
    } else if k == 17989697603 {
        0xCE
    } else if k == 17989763139 {
        0xCF
    } else if k == 35756863086 {
        0xD0
    } else if k == 35454873198 {
        0xD1
    } else if k == 35756666478 {
        0xD2
    } else if k == 35454676590 {
        0xD3
    } else if k == 40053863790 {
        0xD4
    } else if k == 57232477806 {
        0xD5
    } else if k == 52936602990 {
        0xD6
    } else if k == 40003396974 {
        0xD7
    } else if k == 17988845636 {
        0xD8
    } else if k == 17988911172 {
        0xD9
    } else if k == 17989435460 {
        0xDA
    } else if k == 65822286702 {
        0xDB
    } else if k == 31462273359 {
        0xDC
    } else if k == 70116979044 {
        0xDD
    } else if k == 17989697604 {
        0xDE
    } else if k == 70102828643 {
        0xDF
    } else if k == 61527581549 {
        0xE0
    } else if k == 39750751855 {
        0xE1
    } else if k == 57233732207 {
        0xE2
    } else if k == 78707450735 {
        0xE3
    } else if k == 31462273615 {
        0xE4
    } else if k == 61527044708 {
        0xE5
    } else if k == 17988714565 {
        0xE6
    } else if k == 61512894063 {
        0xE7
    } else if k == 48642679649 {
        0xE8
    } else if k == 39750750305 {
        0xE9
    } else if k == 48643797601 {
        0xEA
    } else if k == 17989500997 {
        0xEB
    } else if k == 31462273871 {
        0xEC
    } else if k == 61527044964 {
        0xED
    } else if k == 17989697605 {
        0xEE
    } else if k == 61512894049 {
        0xEF
    } else if k == 27167293510 {
        0xF0
    } else if k == 57232082020 {
        0xF1
    } else if k == 48642150497 {
        0xF2
    } else if k == 48642151028 {
        0xF3
    } else if k == 17988583494 {
        0xF4
    } else if k == 17988649030 {
        0xF5
    } else if k == 17988714566 {
        0xF6
    } else if k == 17988780102 {
        0xF7
    } else if k == 65824389235 {
        0xF8
    } else if k == 17988911174 {
        0xF9
    } else if k == 17989435462 {
        0xFA
    } else if k == 17989500998 {
        0xFB
    } else if k == 17989566534 {
        0xFC
    } else if k == 17989632070 {
        0xFD
    } else if k == 17989697606 {
        0xFE
    } else if k == 17989763142 {
        0xFF
    } else {
        0
    }
}

/// The key of each code's name leads back to the code.
proof fn lemma_name_key(c: u8)
    requires
        c >= 0x90,
    ensures
        spec_code_of_key(spec_name_key(spec_event_name(c))) == c,
{
    if c == 0x90 {
        reveal_strlit("RepeatLastPause");
    } else if c == 0x91 {
        reveal_strlit("AddToLastPause");
    } else if c == 0x92 {
        reveal_strlit("Pause8Bits");
    } else if c == 0x93 {
        reveal_strlit("Pause16Bits");
    } else if c == 0x94 {
        reveal_strlit("Pause24Bits");
    } else if c == 0x95 {
        reveal_strlit("PauseUntilRelease");
    } else if c == 0x96 {
        reveal_strlit("0x96");
    } else if c == 0x97 {
        reveal_strlit("0x97");
    } else if c == 0x98 {
        reveal_strlit("EndOfTrack");
    } else if c == 0x99 {
        reveal_strlit("LoopPoint");
    } else if c == 0x9A {
        reveal_strlit("0x9A");
    } else if c == 0x9B {
        reveal_strlit("0x9B");
    } else if c == 0x9C {
        reveal_strlit("RepeatFrom");
    } else if c == 0x9D {
        reveal_strlit("RepeatSegment");
    } else if c == 0x9E {
        reveal_strlit("AfterRepeat");
    } else if c == 0x9F {
        reveal_strlit("0x9F");
    } else if c == 0xA0 {
        reveal_strlit("SetTrackOctave");
    } else if c == 0xA1 {
        reveal_strlit("AddToTrackOctave");
    } else if c == 0xA2 {
        reveal_strlit("0xA2");
    } else if c == 0xA3 {
        reveal_strlit("0xA3");
    } else if c == 0xA4 {
        reveal_strlit("SetTempo");
    } else if c == 0xA5 {
        reveal_strlit("SetTempo2");
    } else if c == 0xA6 {
        reveal_strlit("0xA6");
    } else if c == 0xA7 {
        reveal_strlit("0xA7");
    } else if c == 0xA8 {
        reveal_strlit("SetSwdlAndBank");
    } else if c == 0xA9 {
        reveal_strlit("SetSwdl");
    } else if c == 0xAA {
        reveal_strlit("SetBank");
    } else if c == 0xAB {
        reveal_strlit("SkipNextByte");
    } else if c == 0xAC {
        reveal_strlit("SetProgram");
    } else if c == 0xAD {
        reveal_strlit("0xAD");
    } else if c == 0xAE {
        reveal_strlit("0xAE");
    } else if c == 0xAF {
        reveal_strlit("FadeSongVolume");
    } else if c == 0xB0 {
        reveal_strlit("DisableEnvelope");
    } else if c == 0xB1 {
        reveal_strlit("SetEnvAtkLvl");
    } else if c == 0xB2 {
        reveal_strlit("SetEnvAtkTime");
    } else if c == 0xB3 {
        reveal_strlit("SetEnvHold");
    } else if c == 0xB4 {
        reveal_strlit("SetEnvDecSus");
    } else if c == 0xB5 {
        reveal_strlit("SetEnvFade");
    } else if c == 0xB6 {
        reveal_strlit("SetEnvRelease");
    } else if c == 0xB7 {
        reveal_strlit("0xB7");
    } else if c == 0xB8 {
        reveal_strlit("0xB8");
    } else if c == 0xB9 {
        reveal_strlit("0xB9");
    } else if c == 0xBA {
        reveal_strlit("0xBA");
    } else if c == 0xBB {
        reveal_strlit("0xBB");
    } else if c == 0xBC {
        reveal_strlit("SetNoteVolume");
    } else if c == 0xBD {
        reveal_strlit("0xBD");
    } else if c == 0xBE {
        reveal_strlit("SetChanPan");
    } else if c == 0xBF {
        reveal_strlit("0xBF");
    } else if c == 0xC0 {
        reveal_strlit("0xC0");
    } else if c == 0xC1 {
        reveal_strlit("0xC1");
    } else if c == 0xC2 {
        reveal_strlit("0xC2");
    } else if c == 0xC3 {
        reveal_strlit("SetChanVolume");
    } else if c == 0xC4 {
        reveal_strlit("0xC4");
    } else if c == 0xC5 {
        reveal_strlit("0xC5");
    } else if c == 0xC6 {
        reveal_strlit("0xC6");
    } else if c == 0xC7 {
        reveal_strlit("0xC7");
    } else if c == 0xC8 {
        reveal_strlit("0xC8");
    } else if c == 0xC9 {
        reveal_strlit("0xC9");
    } else if c == 0xCA {
        reveal_strlit("0xCA");
    } else if c == 0xCB {
        reveal_strlit("SkipNext2Bytes");
    } else if c == 0xCC {
        reveal_strlit("0xCC");
    } else if c == 0xCD {
        reveal_strlit("0xCD");
    } else if c == 0xCE {
        reveal_strlit("0xCE");
    } else if c == 0xCF {
        reveal_strlit("0xCF");
    } else if c == 0xD0 {
        reveal_strlit("SetFTune");
    } else if c == 0xD1 {
        reveal_strlit("AddFTune");
    } else if c == 0xD2 {
        reveal_strlit("SetCTune");
    } else if c == 0xD3 {
        reveal_strlit("AddCTune");
    } else if c == 0xD4 {
        reveal_strlit("SweepTune");
    } else if c == 0xD5 {
        reveal_strlit("SetRndNoteRng");
    } else if c == 0xD6 {
        reveal_strlit("SetDetuneRng");
    } else if c == 0xD7 {
        reveal_strlit("PitchBend");
    } else if c == 0xD8 {
        reveal_strlit("0xD8");
    } else if c == 0xD9 {
        reveal_strlit("0xD9");
    } else if c == 0xDA {
        reveal_strlit("0xDA");
    } else if c == 0xDB {
        reveal_strlit("SetPitchBendRng");
    } else if c == 0xDC {
        reveal_strlit("SetLFO1");
    } else if c == 0xDD {
        reveal_strlit("SetLFO1DelayFade");
    } else if c == 0xDE {
        reveal_strlit("0xDE");
    } else if c == 0xDF {
        reveal_strlit("RouteLFO1ToPitch");
    } else if c == 0xE0 {
        reveal_strlit("SetTrackVolume");
    } else if c == 0xE1 {
        reveal_strlit("AddTrkVol");
    } else if c == 0xE2 {
        reveal_strlit("SweepTrackVol");
    } else if c == 0xE3 {
        reveal_strlit("SetTrackExpression");
    } else if c == 0xE4 {
        reveal_strlit("SetLFO2");
    } else if c == 0xE5 {
        reveal_strlit("SetLFO2DelFade");
    } else if c == 0xE6 {
        reveal_strlit("0xE6");
    } else if c == 0xE7 {
        reveal_strlit("RouteLFO2ToVol");
    } else if c == 0xE8 {
        reveal_strlit("SetTrackPan");
    } else if c == 0xE9 {
        reveal_strlit("AddTrkPan");
    } else if c == 0xEA {
        reveal_strlit("SweepTrkPan");
    } else if c == 0xEB {
        reveal_strlit("0xEB");
    } else if c == 0xEC {
        reveal_strlit("SetLFO3");
    } else if c == 0xED {
        reveal_strlit("SetLFO3DelFade");
    } else if c == 0xEE {
        reveal_strlit("0xEE");
    } else if c == 0xEF {
        reveal_strlit("RouteLFO3ToPan");
    } else if c == 0xF0 {
        reveal_strlit("SetLFO");
    } else if c == 0xF1 {
        reveal_strlit("SetLFODelFade");
    } else if c == 0xF2 {
        reveal_strlit("SetLFOParam");
    } else if c == 0xF3 {
        reveal_strlit("SetLFORoute");
    } else if c == 0xF4 {
        reveal_strlit("0xF4");
    } else if c == 0xF5 {
        reveal_strlit("0xF5");
    } else if c == 0xF6 {
        reveal_strlit("0xF6");
    } else if c == 0xF7 {
        reveal_strlit("0xF7");
    } else if c == 0xF8 {
        reveal_strlit("SkipNext2Bytes2");
    } else if c == 0xF9 {
        reveal_strlit("0xF9");
    } else if c == 0xFA {
        reveal_strlit("0xFA");
    } else if c == 0xFB {
        reveal_strlit("0xFB");
    } else if c == 0xFC {
        reveal_strlit("0xFC");
    } else if c == 0xFD {
        reveal_strlit("0xFD");
    } else if c == 0xFE {
        reveal_strlit("0xFE");
    } else if c == 0xFF {
        reveal_strlit("0xFF");
    }
}

/// Searching the table from code `c0` on for the name of code `c` gives `c`.
proof fn lemma_find_from(c: u8, c0: int)
    requires
        0x90 <= c0 <= c,
    ensures
        spec_find_name(spec_event_name(c), c0) == Some(c),
    decreases c - c0,
{
    if c0 < c {
        lemma_name_key(c0 as u8);
        lemma_name_key(c);
        assert(spec_event_name(c0 as u8) != spec_event_name(c));
        lemma_find_from(c, c0 + 1);
    }
}

/// The name that the table gives a code from 0x90 on reads back as that
/// code.
pub proof fn lemma_name_to_code_of_lookup(v: u8)
    requires
        v >= 0x90,
    ensures
        spec_name_to_code(spec_event_name(v)) == Some(v),
{
    lemma_find_from(v, 0x90);
}

} // verus!
