//! The fixed-length records of the SWDL format.
use vstd::prelude::*;
use crate::codec::{
    DataReader, lemma_split_piece, lemma_join_piece, lemma_skip_zero, lemma_skip_tail, enc_bool, enc_i8, enc_u8, le_u16, le_u32, le_i16, le_i32, u16_of, u32_of, i16_of,
    i32_of, i8_of_u8, array_from_seq, lemma_array_from_seq, lemma_array_from_view, lemma_u16_roundtrip,
    lemma_u32_roundtrip, lemma_i8_roundtrip, lemma_u16_bytes, lemma_u32_bytes, lemma_i8_bytes,
    push_u8, push_i8, push_bool, push_u16, push_u32, push_bytes, get_u8, get_i8, get_bool, get_u16,
    get_u32, get_bytes16, get_bytes8,
};
use crate::dtype::{AutoReadWrite, DSEError, ReadWrite, spec_record_read, write_record, read_record};

verus! {

/// A file name of at most 15 ASCII characters, stored in 16 bytes: the text, a 0 byte, and padding bytes of value `U`.
#[allow(non_snake_case)]
#[derive(Debug, Clone, PartialEq, Eq)]
pub struct DSEString<const U: u8> {
    pub inner: [u8; 16],
}

impl<const U: u8> DSEString<U> {
    /// The bytes of a `DSEString`: its 16 bytes as they stand.
    pub proof fn lemma_encoding(&self)
        ensures
            self.spec_encode() == self.inner@,
    {
    }
}

impl<const U: u8> AutoReadWrite for DSEString<U> {
    open spec fn spec_size() -> nat {
        16
    }

    closed spec fn spec_encode(&self) -> Seq<u8> {
        self.inner@
    }

    closed spec fn spec_parse(b: Seq<u8>) -> Self {
        DSEString {
            inner: array_from_seq::<16>(b.subrange(0, 16)),
        }
    }

    open spec fn spec_canonical(b: Seq<u8>) -> bool {
        true
    }

    fn byte_len() -> (n: usize) {
        16
    }

    fn encode_fields(&self, out: &mut Vec<u8>) {
        let ghost s0 = out@;
        push_bytes(out, self.inner.as_slice());
    }

    fn decode_fields(d: &[u8], pos: usize) -> (r: Self) {
        let _dlen = d.len();
        let inner = get_bytes16(d, pos + 0);
        proof {
            let b = d@.subrange(pos as int, pos + 16);
            assert(b.subrange(0, 16) =~= d@.subrange(pos + 0, pos + 16));
            lemma_array_from_view::<16>(inner);
        }
        DSEString { inner }
    }

    proof fn lemma_parse_encode(&self) {
        let e = self.spec_encode();
        lemma_skip_zero(e);
        lemma_split_piece(e, 0, self.inner@, Seq::<u8>::empty());
        assert(self.inner@ + Seq::<u8>::empty() =~= self.inner@);
        lemma_array_from_view::<16>(self.inner);
        assert(Self::spec_parse(e) == *self);
    }

    proof fn lemma_encode_parse(b: Seq<u8>) {
        let p = Self::spec_parse(b);
        lemma_array_from_seq::<16>(b.subrange(0, 16));
        assert(p.inner@ =~= b.subrange(0, 16));
        lemma_skip_tail(b, 0);
        lemma_skip_zero(b);
    }
}

impl<const U: u8> DSEString<U> {
    /// The value that `default` returns.
    pub open spec fn spec_default() -> Self {
        DSEString {
            inner: vstd::array::spec_array_fill_for_copy_type::<u8, 16>(0u8),
        }
    }
}

impl<const U: u8> Default for DSEString<U> {
    fn default() -> (r: Self)
        ensures
            r == Self::spec_default(),
    {
        DSEString {
            inner: {
                let a: [u8; 16] = [0u8; 16];
                a
            },
        }
    }
}

impl<const U: u8> View for DSEString<U> {
    type V = Self;

    open spec fn view(&self) -> Self {
        *self
    }
}

impl<const U: u8> ReadWrite for DSEString<U> {
    open spec fn spec_write(&self) -> Result<Seq<u8>, DSEError> {
        Ok(self.spec_encode())
    }

    open spec fn spec_read(v: Self, data: Seq<u8>, pos: int) -> Result<(Self, int), DSEError> {
        spec_record_read::<Self>(data, pos)
    }

    open spec fn spec_fresh() -> Self {
        Self::spec_default()
    }

    fn fresh() -> (r: Self) {
        Self::default()
    }

    fn write_to_file(&self, writer: &mut Vec<u8>) -> (res: Result<usize, DSEError>) {
        write_record(self, writer)
    }

    fn read_from_file(&mut self, reader: &mut DataReader) -> (res: Result<(), DSEError>) {
        read_record(self, reader)
    }
}

/// The header that opens each chunk of an SWDL file.
#[allow(non_snake_case)]
#[derive(Debug, Clone, PartialEq, Eq)]
pub struct ChunkHeader {
    /// Chunk label, such as "wavi".
    pub label: u32,
    /// Always 0.
    pub unk1: u16,
    /// Always 0x415.
    pub unk2: u16,
    /// Always 0x10.
    pub chunkbeg: u32,
    /// Length of the chunk's data.
    pub chunklen: u32,
}

impl ChunkHeader {
    /// The bytes of a `ChunkHeader`: its fields one after the other in the order
    /// they are declared, integers of more than one byte little-endian unless
    /// written `be_`, a `bool` as 1 or 0.
    pub proof fn lemma_encoding(&self)
        ensures
            self.spec_encode() == le_u32(self.label) + (le_u16(self.unk1) + (le_u16(self.unk2) + (le_u32(self.chunkbeg) + (le_u32(self.chunklen))))),
    {
    }
}

impl AutoReadWrite for ChunkHeader {
    open spec fn spec_size() -> nat {
        16
    }

    closed spec fn spec_encode(&self) -> Seq<u8> {
        le_u32(self.label) + (le_u16(self.unk1) + (le_u16(self.unk2) + (le_u32(self.chunkbeg) + (le_u32(self.chunklen)))))
    }

    closed spec fn spec_parse(b: Seq<u8>) -> Self {
        ChunkHeader {
            label: u32_of(b.subrange(0, 4)),
            unk1: u16_of(b.subrange(4, 6)),
            unk2: u16_of(b.subrange(6, 8)),
            chunkbeg: u32_of(b.subrange(8, 12)),
            chunklen: u32_of(b.subrange(12, 16)),
        }
    }

    open spec fn spec_canonical(b: Seq<u8>) -> bool {
        true
    }

    fn byte_len() -> (n: usize) {
        16
    }

    fn encode_fields(&self, out: &mut Vec<u8>) {
        let ghost s0 = out@;
        push_u32(out, self.label);
        proof { vstd::seq_lib::lemma_concat_associative(s0, le_u32(self.label), le_u16(self.unk1) + (le_u16(self.unk2) + (le_u32(self.chunkbeg) + (le_u32(self.chunklen))))); }
        let ghost s1 = out@;
        push_u16(out, self.unk1);
        proof { vstd::seq_lib::lemma_concat_associative(s1, le_u16(self.unk1), le_u16(self.unk2) + (le_u32(self.chunkbeg) + (le_u32(self.chunklen)))); }
        let ghost s2 = out@;
        push_u16(out, self.unk2);
        proof { vstd::seq_lib::lemma_concat_associative(s2, le_u16(self.unk2), le_u32(self.chunkbeg) + (le_u32(self.chunklen))); }
        let ghost s3 = out@;
        push_u32(out, self.chunkbeg);
        proof { vstd::seq_lib::lemma_concat_associative(s3, le_u32(self.chunkbeg), le_u32(self.chunklen)); }
        let ghost s4 = out@;
        push_u32(out, self.chunklen);
    }

    fn decode_fields(d: &[u8], pos: usize) -> (r: Self) {
        let _dlen = d.len();
        let label = get_u32(d, pos + 0);
        let unk1 = get_u16(d, pos + 4);
        let unk2 = get_u16(d, pos + 6);
        let chunkbeg = get_u32(d, pos + 8);
        let chunklen = get_u32(d, pos + 12);
        proof {
            let b = d@.subrange(pos as int, pos + 16);
            assert(b.subrange(0, 4) =~= d@.subrange(pos + 0, pos + 4));
            assert(b.subrange(4, 6) =~= d@.subrange(pos + 4, pos + 6));
            assert(b.subrange(6, 8) =~= d@.subrange(pos + 6, pos + 8));
            assert(b.subrange(8, 12) =~= d@.subrange(pos + 8, pos + 12));
            assert(b.subrange(12, 16) =~= d@.subrange(pos + 12, pos + 16));
        }
        ChunkHeader { label, unk1, unk2, chunkbeg, chunklen }
    }

    proof fn lemma_parse_encode(&self) {
        let e = self.spec_encode();
        lemma_skip_zero(e);
        lemma_split_piece(e, 0, le_u32(self.label), le_u16(self.unk1) + (le_u16(self.unk2) + (le_u32(self.chunkbeg) + (le_u32(self.chunklen)))));
        lemma_u32_roundtrip(self.label);
        lemma_split_piece(e, 4, le_u16(self.unk1), le_u16(self.unk2) + (le_u32(self.chunkbeg) + (le_u32(self.chunklen))));
        lemma_u16_roundtrip(self.unk1);
        lemma_split_piece(e, 6, le_u16(self.unk2), le_u32(self.chunkbeg) + (le_u32(self.chunklen)));
        lemma_u16_roundtrip(self.unk2);
        lemma_split_piece(e, 8, le_u32(self.chunkbeg), le_u32(self.chunklen));
        lemma_u32_roundtrip(self.chunkbeg);
        lemma_split_piece(e, 12, le_u32(self.chunklen), Seq::<u8>::empty());
        assert(le_u32(self.chunklen) + Seq::<u8>::empty() =~= le_u32(self.chunklen));
        lemma_u32_roundtrip(self.chunklen);
        assert(Self::spec_parse(e) == *self);
    }

    proof fn lemma_encode_parse(b: Seq<u8>) {
        let p = Self::spec_parse(b);
        lemma_u32_bytes(b.subrange(0, 4));
        assert(le_u32(p.label) =~= b.subrange(0, 4));
        lemma_u16_bytes(b.subrange(4, 6));
        assert(le_u16(p.unk1) =~= b.subrange(4, 6));
        lemma_u16_bytes(b.subrange(6, 8));
        assert(le_u16(p.unk2) =~= b.subrange(6, 8));
        lemma_u32_bytes(b.subrange(8, 12));
        assert(le_u32(p.chunkbeg) =~= b.subrange(8, 12));
        lemma_u32_bytes(b.subrange(12, 16));
        assert(le_u32(p.chunklen) =~= b.subrange(12, 16));
        lemma_skip_tail(b, 12);
        lemma_join_piece(b, 8, le_u32(p.chunkbeg), le_u32(p.chunklen));
        lemma_join_piece(b, 6, le_u16(p.unk2), le_u32(p.chunkbeg) + (le_u32(p.chunklen)));
        lemma_join_piece(b, 4, le_u16(p.unk1), le_u16(p.unk2) + (le_u32(p.chunkbeg) + (le_u32(p.chunklen))));
        lemma_join_piece(b, 0, le_u32(p.label), le_u16(p.unk1) + (le_u16(p.unk2) + (le_u32(p.chunkbeg) + (le_u32(p.chunklen)))));
        lemma_skip_zero(b);
    }
}

impl ChunkHeader {
    /// The value that `default` returns.
    pub open spec fn spec_default() -> Self {
        ChunkHeader {
            label: 0u32,
            unk1: 0u16,
            unk2: 0x415u16,
            chunkbeg: 0x10u32,
            chunklen: 0u32,
        }
    }
}

impl Default for ChunkHeader {
    fn default() -> (r: Self)
        ensures
            r == Self::spec_default(),
    {
        ChunkHeader {
            label: 0u32,
            unk1: 0u16,
            unk2: 0x415u16,
            chunkbeg: 0x10u32,
            chunklen: 0u32,
        }
    }
}

impl View for ChunkHeader {
    type V = Self;

    open spec fn view(&self) -> Self {
        *self
    }
}

impl ReadWrite for ChunkHeader {
    open spec fn spec_write(&self) -> Result<Seq<u8>, DSEError> {
        Ok(self.spec_encode())
    }

    open spec fn spec_read(v: Self, data: Seq<u8>, pos: int) -> Result<(Self, int), DSEError> {
        spec_record_read::<Self>(data, pos)
    }

    open spec fn spec_fresh() -> Self {
        Self::spec_default()
    }

    fn fresh() -> (r: Self) {
        Self::default()
    }

    fn write_to_file(&self, writer: &mut Vec<u8>) -> (res: Result<usize, DSEError>) {
        write_record(self, writer)
    }

    fn read_from_file(&mut self, reader: &mut DataReader) -> (res: Result<(), DSEError>) {
        read_record(self, reader)
    }
}

/// A volume envelope.
#[allow(non_snake_case)]
#[derive(Debug, Clone, PartialEq, Eq)]
pub struct ADSRVolumeEnvelope {
    /// Envelope on.
    pub envon: bool,
    /// Multiplier of the envelope's durations; 0 selects the 32-bit duration table.
    pub envmult: u8,
    pub unk19: u8,
    pub unk20: u8,
    pub unk21: u16,
    pub unk22: u16,
    /// Volume at which the attack starts (0-127).
    pub atkvol: i8,
    /// Attack duration index (0-127).
    pub attack: i8,
    /// Decay duration index (0-127).
    pub decay: i8,
    /// Sustain volume (0-127).
    pub sustain: i8,
    /// Hold duration index (0-127).
    pub hold: i8,
    /// Fade duration index after reaching the sustain volume (0-127).
    pub decay2: i8,
    /// Release duration index (0-127).
    pub release: i8,
    pub unk57: i8,
}

impl ADSRVolumeEnvelope {
    /// The bytes of a `ADSRVolumeEnvelope`: its fields one after the other in the order
    /// they are declared, integers of more than one byte little-endian unless
    /// written `be_`, a `bool` as 1 or 0.
    pub proof fn lemma_encoding(&self)
        ensures
            self.spec_encode() == enc_bool(self.envon) + (enc_u8(self.envmult) + (enc_u8(self.unk19) + (enc_u8(self.unk20) + (le_u16(self.unk21) + (le_u16(self.unk22) + (enc_i8(self.atkvol) + (enc_i8(self.attack) + (enc_i8(self.decay) + (enc_i8(self.sustain) + (enc_i8(self.hold) + (enc_i8(self.decay2) + (enc_i8(self.release) + (enc_i8(self.unk57)))))))))))))),
    {
    }
}

impl AutoReadWrite for ADSRVolumeEnvelope {
    open spec fn spec_size() -> nat {
        16
    }

    closed spec fn spec_encode(&self) -> Seq<u8> {
        enc_bool(self.envon) + (enc_u8(self.envmult) + (enc_u8(self.unk19) + (enc_u8(self.unk20) + (le_u16(self.unk21) + (le_u16(self.unk22) + (enc_i8(self.atkvol) + (enc_i8(self.attack) + (enc_i8(self.decay) + (enc_i8(self.sustain) + (enc_i8(self.hold) + (enc_i8(self.decay2) + (enc_i8(self.release) + (enc_i8(self.unk57))))))))))))))
    }

    closed spec fn spec_parse(b: Seq<u8>) -> Self {
        ADSRVolumeEnvelope {
            envon: (b.subrange(0, 1)[0] != 0),
            envmult: b.subrange(1, 2)[0],
            unk19: b.subrange(2, 3)[0],
            unk20: b.subrange(3, 4)[0],
            unk21: u16_of(b.subrange(4, 6)),
            unk22: u16_of(b.subrange(6, 8)),
            atkvol: i8_of_u8(b.subrange(8, 9)[0]),
            attack: i8_of_u8(b.subrange(9, 10)[0]),
            decay: i8_of_u8(b.subrange(10, 11)[0]),
            sustain: i8_of_u8(b.subrange(11, 12)[0]),
            hold: i8_of_u8(b.subrange(12, 13)[0]),
            decay2: i8_of_u8(b.subrange(13, 14)[0]),
            release: i8_of_u8(b.subrange(14, 15)[0]),
            unk57: i8_of_u8(b.subrange(15, 16)[0]),
        }
    }

    open spec fn spec_canonical(b: Seq<u8>) -> bool {
        (b[0] == 0 || b[0] == 1)
    }

    fn byte_len() -> (n: usize) {
        16
    }

    fn encode_fields(&self, out: &mut Vec<u8>) {
        let ghost s0 = out@;
        push_bool(out, self.envon);
        proof { vstd::seq_lib::lemma_concat_associative(s0, enc_bool(self.envon), enc_u8(self.envmult) + (enc_u8(self.unk19) + (enc_u8(self.unk20) + (le_u16(self.unk21) + (le_u16(self.unk22) + (enc_i8(self.atkvol) + (enc_i8(self.attack) + (enc_i8(self.decay) + (enc_i8(self.sustain) + (enc_i8(self.hold) + (enc_i8(self.decay2) + (enc_i8(self.release) + (enc_i8(self.unk57)))))))))))))); }
        let ghost s1 = out@;
        push_u8(out, self.envmult);
        proof { vstd::seq_lib::lemma_concat_associative(s1, enc_u8(self.envmult), enc_u8(self.unk19) + (enc_u8(self.unk20) + (le_u16(self.unk21) + (le_u16(self.unk22) + (enc_i8(self.atkvol) + (enc_i8(self.attack) + (enc_i8(self.decay) + (enc_i8(self.sustain) + (enc_i8(self.hold) + (enc_i8(self.decay2) + (enc_i8(self.release) + (enc_i8(self.unk57))))))))))))); }
        let ghost s2 = out@;
        push_u8(out, self.unk19);
        proof { vstd::seq_lib::lemma_concat_associative(s2, enc_u8(self.unk19), enc_u8(self.unk20) + (le_u16(self.unk21) + (le_u16(self.unk22) + (enc_i8(self.atkvol) + (enc_i8(self.attack) + (enc_i8(self.decay) + (enc_i8(self.sustain) + (enc_i8(self.hold) + (enc_i8(self.decay2) + (enc_i8(self.release) + (enc_i8(self.unk57)))))))))))); }
        let ghost s3 = out@;
        push_u8(out, self.unk20);
        proof { vstd::seq_lib::lemma_concat_associative(s3, enc_u8(self.unk20), le_u16(self.unk21) + (le_u16(self.unk22) + (enc_i8(self.atkvol) + (enc_i8(self.attack) + (enc_i8(self.decay) + (enc_i8(self.sustain) + (enc_i8(self.hold) + (enc_i8(self.decay2) + (enc_i8(self.release) + (enc_i8(self.unk57))))))))))); }
        let ghost s4 = out@;
        push_u16(out, self.unk21);
        proof { vstd::seq_lib::lemma_concat_associative(s4, le_u16(self.unk21), le_u16(self.unk22) + (enc_i8(self.atkvol) + (enc_i8(self.attack) + (enc_i8(self.decay) + (enc_i8(self.sustain) + (enc_i8(self.hold) + (enc_i8(self.decay2) + (enc_i8(self.release) + (enc_i8(self.unk57)))))))))); }
        let ghost s5 = out@;
        push_u16(out, self.unk22);
        proof { vstd::seq_lib::lemma_concat_associative(s5, le_u16(self.unk22), enc_i8(self.atkvol) + (enc_i8(self.attack) + (enc_i8(self.decay) + (enc_i8(self.sustain) + (enc_i8(self.hold) + (enc_i8(self.decay2) + (enc_i8(self.release) + (enc_i8(self.unk57))))))))); }
        let ghost s6 = out@;
        push_i8(out, self.atkvol);
        proof { vstd::seq_lib::lemma_concat_associative(s6, enc_i8(self.atkvol), enc_i8(self.attack) + (enc_i8(self.decay) + (enc_i8(self.sustain) + (enc_i8(self.hold) + (enc_i8(self.decay2) + (enc_i8(self.release) + (enc_i8(self.unk57)))))))); }
        let ghost s7 = out@;
        push_i8(out, self.attack);
        proof { vstd::seq_lib::lemma_concat_associative(s7, enc_i8(self.attack), enc_i8(self.decay) + (enc_i8(self.sustain) + (enc_i8(self.hold) + (enc_i8(self.decay2) + (enc_i8(self.release) + (enc_i8(self.unk57))))))); }
        let ghost s8 = out@;
        push_i8(out, self.decay);
        proof { vstd::seq_lib::lemma_concat_associative(s8, enc_i8(self.decay), enc_i8(self.sustain) + (enc_i8(self.hold) + (enc_i8(self.decay2) + (enc_i8(self.release) + (enc_i8(self.unk57)))))); }
        let ghost s9 = out@;
        push_i8(out, self.sustain);
        proof { vstd::seq_lib::lemma_concat_associative(s9, enc_i8(self.sustain), enc_i8(self.hold) + (enc_i8(self.decay2) + (enc_i8(self.release) + (enc_i8(self.unk57))))); }
        let ghost s10 = out@;
        push_i8(out, self.hold);
        proof { vstd::seq_lib::lemma_concat_associative(s10, enc_i8(self.hold), enc_i8(self.decay2) + (enc_i8(self.release) + (enc_i8(self.unk57)))); }
        let ghost s11 = out@;
        push_i8(out, self.decay2);
        proof { vstd::seq_lib::lemma_concat_associative(s11, enc_i8(self.decay2), enc_i8(self.release) + (enc_i8(self.unk57))); }
        let ghost s12 = out@;
        push_i8(out, self.release);
        proof { vstd::seq_lib::lemma_concat_associative(s12, enc_i8(self.release), enc_i8(self.unk57)); }
        let ghost s13 = out@;
        push_i8(out, self.unk57);
    }

    fn decode_fields(d: &[u8], pos: usize) -> (r: Self) {
        let _dlen = d.len();
        let envon = get_bool(d, pos + 0);
        let envmult = get_u8(d, pos + 1);
        let unk19 = get_u8(d, pos + 2);
        let unk20 = get_u8(d, pos + 3);
        let unk21 = get_u16(d, pos + 4);
        let unk22 = get_u16(d, pos + 6);
        let atkvol = get_i8(d, pos + 8);
        let attack = get_i8(d, pos + 9);
        let decay = get_i8(d, pos + 10);
        let sustain = get_i8(d, pos + 11);
        let hold = get_i8(d, pos + 12);
        let decay2 = get_i8(d, pos + 13);
        let release = get_i8(d, pos + 14);
        let unk57 = get_i8(d, pos + 15);
        proof {
            let b = d@.subrange(pos as int, pos + 16);
            assert(b.subrange(4, 6) =~= d@.subrange(pos + 4, pos + 6));
            assert(b.subrange(6, 8) =~= d@.subrange(pos + 6, pos + 8));
        }
        ADSRVolumeEnvelope { envon, envmult, unk19, unk20, unk21, unk22, atkvol, attack, decay, sustain, hold, decay2, release, unk57 }
    }

    proof fn lemma_parse_encode(&self) {
        let e = self.spec_encode();
        lemma_skip_zero(e);
        lemma_split_piece(e, 0, enc_bool(self.envon), enc_u8(self.envmult) + (enc_u8(self.unk19) + (enc_u8(self.unk20) + (le_u16(self.unk21) + (le_u16(self.unk22) + (enc_i8(self.atkvol) + (enc_i8(self.attack) + (enc_i8(self.decay) + (enc_i8(self.sustain) + (enc_i8(self.hold) + (enc_i8(self.decay2) + (enc_i8(self.release) + (enc_i8(self.unk57))))))))))))));
        lemma_split_piece(e, 1, enc_u8(self.envmult), enc_u8(self.unk19) + (enc_u8(self.unk20) + (le_u16(self.unk21) + (le_u16(self.unk22) + (enc_i8(self.atkvol) + (enc_i8(self.attack) + (enc_i8(self.decay) + (enc_i8(self.sustain) + (enc_i8(self.hold) + (enc_i8(self.decay2) + (enc_i8(self.release) + (enc_i8(self.unk57)))))))))))));
        lemma_split_piece(e, 2, enc_u8(self.unk19), enc_u8(self.unk20) + (le_u16(self.unk21) + (le_u16(self.unk22) + (enc_i8(self.atkvol) + (enc_i8(self.attack) + (enc_i8(self.decay) + (enc_i8(self.sustain) + (enc_i8(self.hold) + (enc_i8(self.decay2) + (enc_i8(self.release) + (enc_i8(self.unk57))))))))))));
        lemma_split_piece(e, 3, enc_u8(self.unk20), le_u16(self.unk21) + (le_u16(self.unk22) + (enc_i8(self.atkvol) + (enc_i8(self.attack) + (enc_i8(self.decay) + (enc_i8(self.sustain) + (enc_i8(self.hold) + (enc_i8(self.decay2) + (enc_i8(self.release) + (enc_i8(self.unk57)))))))))));
        lemma_split_piece(e, 4, le_u16(self.unk21), le_u16(self.unk22) + (enc_i8(self.atkvol) + (enc_i8(self.attack) + (enc_i8(self.decay) + (enc_i8(self.sustain) + (enc_i8(self.hold) + (enc_i8(self.decay2) + (enc_i8(self.release) + (enc_i8(self.unk57))))))))));
        lemma_u16_roundtrip(self.unk21);
        lemma_split_piece(e, 6, le_u16(self.unk22), enc_i8(self.atkvol) + (enc_i8(self.attack) + (enc_i8(self.decay) + (enc_i8(self.sustain) + (enc_i8(self.hold) + (enc_i8(self.decay2) + (enc_i8(self.release) + (enc_i8(self.unk57)))))))));
        lemma_u16_roundtrip(self.unk22);
        lemma_split_piece(e, 8, enc_i8(self.atkvol), enc_i8(self.attack) + (enc_i8(self.decay) + (enc_i8(self.sustain) + (enc_i8(self.hold) + (enc_i8(self.decay2) + (enc_i8(self.release) + (enc_i8(self.unk57))))))));
        lemma_i8_roundtrip(self.atkvol);
        lemma_split_piece(e, 9, enc_i8(self.attack), enc_i8(self.decay) + (enc_i8(self.sustain) + (enc_i8(self.hold) + (enc_i8(self.decay2) + (enc_i8(self.release) + (enc_i8(self.unk57)))))));
        lemma_i8_roundtrip(self.attack);
        lemma_split_piece(e, 10, enc_i8(self.decay), enc_i8(self.sustain) + (enc_i8(self.hold) + (enc_i8(self.decay2) + (enc_i8(self.release) + (enc_i8(self.unk57))))));
        lemma_i8_roundtrip(self.decay);
        lemma_split_piece(e, 11, enc_i8(self.sustain), enc_i8(self.hold) + (enc_i8(self.decay2) + (enc_i8(self.release) + (enc_i8(self.unk57)))));
        lemma_i8_roundtrip(self.sustain);
        lemma_split_piece(e, 12, enc_i8(self.hold), enc_i8(self.decay2) + (enc_i8(self.release) + (enc_i8(self.unk57))));
        lemma_i8_roundtrip(self.hold);
        lemma_split_piece(e, 13, enc_i8(self.decay2), enc_i8(self.release) + (enc_i8(self.unk57)));
        lemma_i8_roundtrip(self.decay2);
        lemma_split_piece(e, 14, enc_i8(self.release), enc_i8(self.unk57));
        lemma_i8_roundtrip(self.release);
        lemma_split_piece(e, 15, enc_i8(self.unk57), Seq::<u8>::empty());
        assert(enc_i8(self.unk57) + Seq::<u8>::empty() =~= enc_i8(self.unk57));
        lemma_i8_roundtrip(self.unk57);
        assert(Self::spec_parse(e) == *self);
    }

    proof fn lemma_encode_parse(b: Seq<u8>) {
        let p = Self::spec_parse(b);
        assert(enc_bool(p.envon) =~= b.subrange(0, 1));
        assert(enc_u8(p.envmult) =~= b.subrange(1, 2));
        assert(enc_u8(p.unk19) =~= b.subrange(2, 3));
        assert(enc_u8(p.unk20) =~= b.subrange(3, 4));
        lemma_u16_bytes(b.subrange(4, 6));
        assert(le_u16(p.unk21) =~= b.subrange(4, 6));
        lemma_u16_bytes(b.subrange(6, 8));
        assert(le_u16(p.unk22) =~= b.subrange(6, 8));
        lemma_i8_bytes(b[8]);
        assert(enc_i8(p.atkvol) =~= b.subrange(8, 9));
        lemma_i8_bytes(b[9]);
        assert(enc_i8(p.attack) =~= b.subrange(9, 10));
        lemma_i8_bytes(b[10]);
        assert(enc_i8(p.decay) =~= b.subrange(10, 11));
        lemma_i8_bytes(b[11]);
        assert(enc_i8(p.sustain) =~= b.subrange(11, 12));
        lemma_i8_bytes(b[12]);
        assert(enc_i8(p.hold) =~= b.subrange(12, 13));
        lemma_i8_bytes(b[13]);
        assert(enc_i8(p.decay2) =~= b.subrange(13, 14));
        lemma_i8_bytes(b[14]);
        assert(enc_i8(p.release) =~= b.subrange(14, 15));
        lemma_i8_bytes(b[15]);
        assert(enc_i8(p.unk57) =~= b.subrange(15, 16));
        lemma_skip_tail(b, 15);
        lemma_join_piece(b, 14, enc_i8(p.release), enc_i8(p.unk57));
        lemma_join_piece(b, 13, enc_i8(p.decay2), enc_i8(p.release) + (enc_i8(p.unk57)));
        lemma_join_piece(b, 12, enc_i8(p.hold), enc_i8(p.decay2) + (enc_i8(p.release) + (enc_i8(p.unk57))));
        lemma_join_piece(b, 11, enc_i8(p.sustain), enc_i8(p.hold) + (enc_i8(p.decay2) + (enc_i8(p.release) + (enc_i8(p.unk57)))));
        lemma_join_piece(b, 10, enc_i8(p.decay), enc_i8(p.sustain) + (enc_i8(p.hold) + (enc_i8(p.decay2) + (enc_i8(p.release) + (enc_i8(p.unk57))))));
        lemma_join_piece(b, 9, enc_i8(p.attack), enc_i8(p.decay) + (enc_i8(p.sustain) + (enc_i8(p.hold) + (enc_i8(p.decay2) + (enc_i8(p.release) + (enc_i8(p.unk57)))))));
        lemma_join_piece(b, 8, enc_i8(p.atkvol), enc_i8(p.attack) + (enc_i8(p.decay) + (enc_i8(p.sustain) + (enc_i8(p.hold) + (enc_i8(p.decay2) + (enc_i8(p.release) + (enc_i8(p.unk57))))))));
        lemma_join_piece(b, 6, le_u16(p.unk22), enc_i8(p.atkvol) + (enc_i8(p.attack) + (enc_i8(p.decay) + (enc_i8(p.sustain) + (enc_i8(p.hold) + (enc_i8(p.decay2) + (enc_i8(p.release) + (enc_i8(p.unk57)))))))));
        lemma_join_piece(b, 4, le_u16(p.unk21), le_u16(p.unk22) + (enc_i8(p.atkvol) + (enc_i8(p.attack) + (enc_i8(p.decay) + (enc_i8(p.sustain) + (enc_i8(p.hold) + (enc_i8(p.decay2) + (enc_i8(p.release) + (enc_i8(p.unk57))))))))));
        lemma_join_piece(b, 3, enc_u8(p.unk20), le_u16(p.unk21) + (le_u16(p.unk22) + (enc_i8(p.atkvol) + (enc_i8(p.attack) + (enc_i8(p.decay) + (enc_i8(p.sustain) + (enc_i8(p.hold) + (enc_i8(p.decay2) + (enc_i8(p.release) + (enc_i8(p.unk57)))))))))));
        lemma_join_piece(b, 2, enc_u8(p.unk19), enc_u8(p.unk20) + (le_u16(p.unk21) + (le_u16(p.unk22) + (enc_i8(p.atkvol) + (enc_i8(p.attack) + (enc_i8(p.decay) + (enc_i8(p.sustain) + (enc_i8(p.hold) + (enc_i8(p.decay2) + (enc_i8(p.release) + (enc_i8(p.unk57))))))))))));
        lemma_join_piece(b, 1, enc_u8(p.envmult), enc_u8(p.unk19) + (enc_u8(p.unk20) + (le_u16(p.unk21) + (le_u16(p.unk22) + (enc_i8(p.atkvol) + (enc_i8(p.attack) + (enc_i8(p.decay) + (enc_i8(p.sustain) + (enc_i8(p.hold) + (enc_i8(p.decay2) + (enc_i8(p.release) + (enc_i8(p.unk57)))))))))))));
        lemma_join_piece(b, 0, enc_bool(p.envon), enc_u8(p.envmult) + (enc_u8(p.unk19) + (enc_u8(p.unk20) + (le_u16(p.unk21) + (le_u16(p.unk22) + (enc_i8(p.atkvol) + (enc_i8(p.attack) + (enc_i8(p.decay) + (enc_i8(p.sustain) + (enc_i8(p.hold) + (enc_i8(p.decay2) + (enc_i8(p.release) + (enc_i8(p.unk57))))))))))))));
        lemma_skip_zero(b);
    }
}

impl ADSRVolumeEnvelope {
    /// The value that `default` returns.
    pub open spec fn spec_default() -> Self {
        ADSRVolumeEnvelope {
            envon: false,
            envmult: 0u8,
            unk19: 0x1u8,
            unk20: 0x3u8,
            unk21: 0xFF03u16,
            unk22: 0xFFFFu16,
            atkvol: 0i8,
            attack: 0i8,
            decay: 0i8,
            sustain: 0i8,
            hold: 0i8,
            decay2: 0i8,
            release: 0i8,
            unk57: -1i8,
        }
    }
}

impl Default for ADSRVolumeEnvelope {
    fn default() -> (r: Self)
        ensures
            r == Self::spec_default(),
    {
        ADSRVolumeEnvelope {
            envon: false,
            envmult: 0u8,
            unk19: 0x1u8,
            unk20: 0x3u8,
            unk21: 0xFF03u16,
            unk22: 0xFFFFu16,
            atkvol: 0i8,
            attack: 0i8,
            decay: 0i8,
            sustain: 0i8,
            hold: 0i8,
            decay2: 0i8,
            release: 0i8,
            unk57: -1i8,
        }
    }
}

impl View for ADSRVolumeEnvelope {
    type V = Self;

    open spec fn view(&self) -> Self {
        *self
    }
}

impl ReadWrite for ADSRVolumeEnvelope {
    open spec fn spec_write(&self) -> Result<Seq<u8>, DSEError> {
        Ok(self.spec_encode())
    }

    open spec fn spec_read(v: Self, data: Seq<u8>, pos: int) -> Result<(Self, int), DSEError> {
        spec_record_read::<Self>(data, pos)
    }

    open spec fn spec_fresh() -> Self {
        Self::spec_default()
    }

    fn fresh() -> (r: Self) {
        Self::default()
    }

    fn write_to_file(&self, writer: &mut Vec<u8>) -> (res: Result<usize, DSEError>) {
        write_record(self, writer)
    }

    fn read_from_file(&mut self, reader: &mut DataReader) -> (res: Result<(), DSEError>) {
        read_record(self, reader)
    }
}

/// Pitch adjustment: a coarse tune in semitones and a fine tune in 1/255 steps of 100 cents.
#[allow(non_snake_case)]
#[derive(Debug, Clone, PartialEq, Eq)]
pub struct Tuning {
    pub ftune: u8,
    pub ctune: i8,
}

impl Tuning {
    /// The bytes of a `Tuning`: its fields one after the other in the order
    /// they are declared, integers of more than one byte little-endian unless
    /// written `be_`, a `bool` as 1 or 0.
    pub proof fn lemma_encoding(&self)
        ensures
            self.spec_encode() == enc_u8(self.ftune) + (enc_i8(self.ctune)),
    {
    }
}

impl AutoReadWrite for Tuning {
    open spec fn spec_size() -> nat {
        2
    }

    closed spec fn spec_encode(&self) -> Seq<u8> {
        enc_u8(self.ftune) + (enc_i8(self.ctune))
    }

    closed spec fn spec_parse(b: Seq<u8>) -> Self {
        Tuning {
            ftune: b.subrange(0, 1)[0],
            ctune: i8_of_u8(b.subrange(1, 2)[0]),
        }
    }

    open spec fn spec_canonical(b: Seq<u8>) -> bool {
        true
    }

    fn byte_len() -> (n: usize) {
        2
    }

    fn encode_fields(&self, out: &mut Vec<u8>) {
        let ghost s0 = out@;
        push_u8(out, self.ftune);
        proof { vstd::seq_lib::lemma_concat_associative(s0, enc_u8(self.ftune), enc_i8(self.ctune)); }
        let ghost s1 = out@;
        push_i8(out, self.ctune);
    }

    fn decode_fields(d: &[u8], pos: usize) -> (r: Self) {
        let _dlen = d.len();
        let ftune = get_u8(d, pos + 0);
        let ctune = get_i8(d, pos + 1);
        proof {
            let b = d@.subrange(pos as int, pos + 2);
        }
        Tuning { ftune, ctune }
    }

    proof fn lemma_parse_encode(&self) {
        let e = self.spec_encode();
        lemma_skip_zero(e);
        lemma_split_piece(e, 0, enc_u8(self.ftune), enc_i8(self.ctune));
        lemma_split_piece(e, 1, enc_i8(self.ctune), Seq::<u8>::empty());
        assert(enc_i8(self.ctune) + Seq::<u8>::empty() =~= enc_i8(self.ctune));
        lemma_i8_roundtrip(self.ctune);
        assert(Self::spec_parse(e) == *self);
    }

    proof fn lemma_encode_parse(b: Seq<u8>) {
        let p = Self::spec_parse(b);
        assert(enc_u8(p.ftune) =~= b.subrange(0, 1));
        lemma_i8_bytes(b[1]);
        assert(enc_i8(p.ctune) =~= b.subrange(1, 2));
        lemma_skip_tail(b, 1);
        lemma_join_piece(b, 0, enc_u8(p.ftune), enc_i8(p.ctune));
        lemma_skip_zero(b);
    }
}

impl Tuning {
    /// The value that `default` returns.
    pub open spec fn spec_default() -> Self {
        Tuning {
            ftune: 0u8,
            ctune: 0i8,
        }
    }
}

impl Default for Tuning {
    fn default() -> (r: Self)
        ensures
            r == Self::spec_default(),
    {
        Tuning {
            ftune: 0u8,
            ctune: 0i8,
        }
    }
}

impl View for Tuning {
    type V = Self;

    open spec fn view(&self) -> Self {
        *self
    }
}

impl ReadWrite for Tuning {
    open spec fn spec_write(&self) -> Result<Seq<u8>, DSEError> {
        Ok(self.spec_encode())
    }

    open spec fn spec_read(v: Self, data: Seq<u8>, pos: int) -> Result<(Self, int), DSEError> {
        spec_record_read::<Self>(data, pos)
    }

    open spec fn spec_fresh() -> Self {
        Self::spec_default()
    }

    fn fresh() -> (r: Self) {
        Self::default()
    }

    fn write_to_file(&self, writer: &mut Vec<u8>) -> (res: Result<usize, DSEError>) {
        write_record(self, writer)
    }

    fn read_from_file(&mut self, reader: &mut DataReader) -> (res: Result<(), DSEError>) {
        read_record(self, reader)
    }
}

/// The header of an SWDL file.
#[allow(non_snake_case)]
#[derive(Debug, Clone, PartialEq, Eq)]
pub struct SWDLHeader {
    /// The characters "swdl".
    pub magicn: u32,
    /// Always 0 in the game's files; holds the song builder flags.
    pub unk18: u32,
    /// Length of the whole file.
    pub flen: u32,
    /// Always 0x415.
    pub version: u16,
    /// First link byte; matches the SMDL that uses this bank.
    pub unk1: u8,
    /// Second link byte; matches the SMDL that uses this bank.
    pub unk2: u8,
    pub unk3: u32,
    pub unk4: u32,
    pub year: u16,
    pub month: u8,
    pub day: u8,
    pub hour: u8,
    pub minute: u8,
    pub second: u8,
    pub centisecond: u8,
    /// File name.
    pub fname: DSEString<0xAA>,
    /// Always 0xAAAAAA00.
    pub unk10: u32,
    pub unk11: u32,
    pub unk12: u32,
    /// Always 0x10.
    pub unk13: u32,
    /// Length of the pcmd chunk; 0xAAAA0000 in its upper half when the samples are in the main bank.
    pub pcmdlen: u32,
    pub unk14: u16,
    /// Number of slots of the sample table.
    pub nbwavislots: u16,
    /// Number of slots of the program table.
    pub nbprgislots: u16,
    pub unk17: u16,
    /// Length of the wavi chunk's data.
    pub wavilen: u32,
}

impl SWDLHeader {
    /// The bytes of a `SWDLHeader`: its fields one after the other in the order
    /// they are declared, integers of more than one byte little-endian unless
    /// written `be_`, a `bool` as 1 or 0.
    pub proof fn lemma_encoding(&self)
        ensures
            self.spec_encode() == le_u32(self.magicn) + (le_u32(self.unk18) + (le_u32(self.flen) + (le_u16(self.version) + (enc_u8(self.unk1) + (enc_u8(self.unk2) + (le_u32(self.unk3) + (le_u32(self.unk4) + (le_u16(self.year) + (enc_u8(self.month) + (enc_u8(self.day) + (enc_u8(self.hour) + (enc_u8(self.minute) + (enc_u8(self.second) + (enc_u8(self.centisecond) + (self.fname.spec_encode() + (le_u32(self.unk10) + (le_u32(self.unk11) + (le_u32(self.unk12) + (le_u32(self.unk13) + (le_u32(self.pcmdlen) + (le_u16(self.unk14) + (le_u16(self.nbwavislots) + (le_u16(self.nbprgislots) + (le_u16(self.unk17) + (le_u32(self.wavilen)))))))))))))))))))))))))),
    {
    }
}

impl AutoReadWrite for SWDLHeader {
    open spec fn spec_size() -> nat {
        80
    }

    closed spec fn spec_encode(&self) -> Seq<u8> {
        le_u32(self.magicn) + (le_u32(self.unk18) + (le_u32(self.flen) + (le_u16(self.version) + (enc_u8(self.unk1) + (enc_u8(self.unk2) + (le_u32(self.unk3) + (le_u32(self.unk4) + (le_u16(self.year) + (enc_u8(self.month) + (enc_u8(self.day) + (enc_u8(self.hour) + (enc_u8(self.minute) + (enc_u8(self.second) + (enc_u8(self.centisecond) + (self.fname.spec_encode() + (le_u32(self.unk10) + (le_u32(self.unk11) + (le_u32(self.unk12) + (le_u32(self.unk13) + (le_u32(self.pcmdlen) + (le_u16(self.unk14) + (le_u16(self.nbwavislots) + (le_u16(self.nbprgislots) + (le_u16(self.unk17) + (le_u32(self.wavilen))))))))))))))))))))))))))
    }

    closed spec fn spec_parse(b: Seq<u8>) -> Self {
        SWDLHeader {
            magicn: u32_of(b.subrange(0, 4)),
            unk18: u32_of(b.subrange(4, 8)),
            flen: u32_of(b.subrange(8, 12)),
            version: u16_of(b.subrange(12, 14)),
            unk1: b.subrange(14, 15)[0],
            unk2: b.subrange(15, 16)[0],
            unk3: u32_of(b.subrange(16, 20)),
            unk4: u32_of(b.subrange(20, 24)),
            year: u16_of(b.subrange(24, 26)),
            month: b.subrange(26, 27)[0],
            day: b.subrange(27, 28)[0],
            hour: b.subrange(28, 29)[0],
            minute: b.subrange(29, 30)[0],
            second: b.subrange(30, 31)[0],
            centisecond: b.subrange(31, 32)[0],
            fname: DSEString::<0xAA>::spec_parse(b.subrange(32, 48)),
            unk10: u32_of(b.subrange(48, 52)),
            unk11: u32_of(b.subrange(52, 56)),
            unk12: u32_of(b.subrange(56, 60)),
            unk13: u32_of(b.subrange(60, 64)),
            pcmdlen: u32_of(b.subrange(64, 68)),
            unk14: u16_of(b.subrange(68, 70)),
            nbwavislots: u16_of(b.subrange(70, 72)),
            nbprgislots: u16_of(b.subrange(72, 74)),
            unk17: u16_of(b.subrange(74, 76)),
            wavilen: u32_of(b.subrange(76, 80)),
        }
    }

    open spec fn spec_canonical(b: Seq<u8>) -> bool {
        DSEString::<0xAA>::spec_canonical(b.subrange(32, 48))
    }

    fn byte_len() -> (n: usize) {
        80
    }

    #[verifier::spinoff_prover]
    #[verifier::rlimit(100)]
    fn encode_fields(&self, out: &mut Vec<u8>) {
        let ghost s0 = out@;
        push_u32(out, self.magicn);
        proof { vstd::seq_lib::lemma_concat_associative(s0, le_u32(self.magicn), le_u32(self.unk18) + (le_u32(self.flen) + (le_u16(self.version) + (enc_u8(self.unk1) + (enc_u8(self.unk2) + (le_u32(self.unk3) + (le_u32(self.unk4) + (le_u16(self.year) + (enc_u8(self.month) + (enc_u8(self.day) + (enc_u8(self.hour) + (enc_u8(self.minute) + (enc_u8(self.second) + (enc_u8(self.centisecond) + (self.fname.spec_encode() + (le_u32(self.unk10) + (le_u32(self.unk11) + (le_u32(self.unk12) + (le_u32(self.unk13) + (le_u32(self.pcmdlen) + (le_u16(self.unk14) + (le_u16(self.nbwavislots) + (le_u16(self.nbprgislots) + (le_u16(self.unk17) + (le_u32(self.wavilen)))))))))))))))))))))))))); }
        let ghost s1 = out@;
        push_u32(out, self.unk18);
        proof { vstd::seq_lib::lemma_concat_associative(s1, le_u32(self.unk18), le_u32(self.flen) + (le_u16(self.version) + (enc_u8(self.unk1) + (enc_u8(self.unk2) + (le_u32(self.unk3) + (le_u32(self.unk4) + (le_u16(self.year) + (enc_u8(self.month) + (enc_u8(self.day) + (enc_u8(self.hour) + (enc_u8(self.minute) + (enc_u8(self.second) + (enc_u8(self.centisecond) + (self.fname.spec_encode() + (le_u32(self.unk10) + (le_u32(self.unk11) + (le_u32(self.unk12) + (le_u32(self.unk13) + (le_u32(self.pcmdlen) + (le_u16(self.unk14) + (le_u16(self.nbwavislots) + (le_u16(self.nbprgislots) + (le_u16(self.unk17) + (le_u32(self.wavilen))))))))))))))))))))))))); }
        let ghost s2 = out@;
        push_u32(out, self.flen);
        proof { vstd::seq_lib::lemma_concat_associative(s2, le_u32(self.flen), le_u16(self.version) + (enc_u8(self.unk1) + (enc_u8(self.unk2) + (le_u32(self.unk3) + (le_u32(self.unk4) + (le_u16(self.year) + (enc_u8(self.month) + (enc_u8(self.day) + (enc_u8(self.hour) + (enc_u8(self.minute) + (enc_u8(self.second) + (enc_u8(self.centisecond) + (self.fname.spec_encode() + (le_u32(self.unk10) + (le_u32(self.unk11) + (le_u32(self.unk12) + (le_u32(self.unk13) + (le_u32(self.pcmdlen) + (le_u16(self.unk14) + (le_u16(self.nbwavislots) + (le_u16(self.nbprgislots) + (le_u16(self.unk17) + (le_u32(self.wavilen)))))))))))))))))))))))); }
        let ghost s3 = out@;
        push_u16(out, self.version);
        proof { vstd::seq_lib::lemma_concat_associative(s3, le_u16(self.version), enc_u8(self.unk1) + (enc_u8(self.unk2) + (le_u32(self.unk3) + (le_u32(self.unk4) + (le_u16(self.year) + (enc_u8(self.month) + (enc_u8(self.day) + (enc_u8(self.hour) + (enc_u8(self.minute) + (enc_u8(self.second) + (enc_u8(self.centisecond) + (self.fname.spec_encode() + (le_u32(self.unk10) + (le_u32(self.unk11) + (le_u32(self.unk12) + (le_u32(self.unk13) + (le_u32(self.pcmdlen) + (le_u16(self.unk14) + (le_u16(self.nbwavislots) + (le_u16(self.nbprgislots) + (le_u16(self.unk17) + (le_u32(self.wavilen))))))))))))))))))))))); }
        let ghost s4 = out@;
        push_u8(out, self.unk1);
        proof { vstd::seq_lib::lemma_concat_associative(s4, enc_u8(self.unk1), enc_u8(self.unk2) + (le_u32(self.unk3) + (le_u32(self.unk4) + (le_u16(self.year) + (enc_u8(self.month) + (enc_u8(self.day) + (enc_u8(self.hour) + (enc_u8(self.minute) + (enc_u8(self.second) + (enc_u8(self.centisecond) + (self.fname.spec_encode() + (le_u32(self.unk10) + (le_u32(self.unk11) + (le_u32(self.unk12) + (le_u32(self.unk13) + (le_u32(self.pcmdlen) + (le_u16(self.unk14) + (le_u16(self.nbwavislots) + (le_u16(self.nbprgislots) + (le_u16(self.unk17) + (le_u32(self.wavilen)))))))))))))))))))))); }
        let ghost s5 = out@;
        push_u8(out, self.unk2);
        proof { vstd::seq_lib::lemma_concat_associative(s5, enc_u8(self.unk2), le_u32(self.unk3) + (le_u32(self.unk4) + (le_u16(self.year) + (enc_u8(self.month) + (enc_u8(self.day) + (enc_u8(self.hour) + (enc_u8(self.minute) + (enc_u8(self.second) + (enc_u8(self.centisecond) + (self.fname.spec_encode() + (le_u32(self.unk10) + (le_u32(self.unk11) + (le_u32(self.unk12) + (le_u32(self.unk13) + (le_u32(self.pcmdlen) + (le_u16(self.unk14) + (le_u16(self.nbwavislots) + (le_u16(self.nbprgislots) + (le_u16(self.unk17) + (le_u32(self.wavilen))))))))))))))))))))); }
        let ghost s6 = out@;
        push_u32(out, self.unk3);
        proof { vstd::seq_lib::lemma_concat_associative(s6, le_u32(self.unk3), le_u32(self.unk4) + (le_u16(self.year) + (enc_u8(self.month) + (enc_u8(self.day) + (enc_u8(self.hour) + (enc_u8(self.minute) + (enc_u8(self.second) + (enc_u8(self.centisecond) + (self.fname.spec_encode() + (le_u32(self.unk10) + (le_u32(self.unk11) + (le_u32(self.unk12) + (le_u32(self.unk13) + (le_u32(self.pcmdlen) + (le_u16(self.unk14) + (le_u16(self.nbwavislots) + (le_u16(self.nbprgislots) + (le_u16(self.unk17) + (le_u32(self.wavilen)))))))))))))))))))); }
        let ghost s7 = out@;
        push_u32(out, self.unk4);
        proof { vstd::seq_lib::lemma_concat_associative(s7, le_u32(self.unk4), le_u16(self.year) + (enc_u8(self.month) + (enc_u8(self.day) + (enc_u8(self.hour) + (enc_u8(self.minute) + (enc_u8(self.second) + (enc_u8(self.centisecond) + (self.fname.spec_encode() + (le_u32(self.unk10) + (le_u32(self.unk11) + (le_u32(self.unk12) + (le_u32(self.unk13) + (le_u32(self.pcmdlen) + (le_u16(self.unk14) + (le_u16(self.nbwavislots) + (le_u16(self.nbprgislots) + (le_u16(self.unk17) + (le_u32(self.wavilen))))))))))))))))))); }
        let ghost s8 = out@;
        push_u16(out, self.year);
        proof { vstd::seq_lib::lemma_concat_associative(s8, le_u16(self.year), enc_u8(self.month) + (enc_u8(self.day) + (enc_u8(self.hour) + (enc_u8(self.minute) + (enc_u8(self.second) + (enc_u8(self.centisecond) + (self.fname.spec_encode() + (le_u32(self.unk10) + (le_u32(self.unk11) + (le_u32(self.unk12) + (le_u32(self.unk13) + (le_u32(self.pcmdlen) + (le_u16(self.unk14) + (le_u16(self.nbwavislots) + (le_u16(self.nbprgislots) + (le_u16(self.unk17) + (le_u32(self.wavilen)))))))))))))))))); }
        let ghost s9 = out@;
        push_u8(out, self.month);
        proof { vstd::seq_lib::lemma_concat_associative(s9, enc_u8(self.month), enc_u8(self.day) + (enc_u8(self.hour) + (enc_u8(self.minute) + (enc_u8(self.second) + (enc_u8(self.centisecond) + (self.fname.spec_encode() + (le_u32(self.unk10) + (le_u32(self.unk11) + (le_u32(self.unk12) + (le_u32(self.unk13) + (le_u32(self.pcmdlen) + (le_u16(self.unk14) + (le_u16(self.nbwavislots) + (le_u16(self.nbprgislots) + (le_u16(self.unk17) + (le_u32(self.wavilen))))))))))))))))); }
        let ghost s10 = out@;
        push_u8(out, self.day);
        proof { vstd::seq_lib::lemma_concat_associative(s10, enc_u8(self.day), enc_u8(self.hour) + (enc_u8(self.minute) + (enc_u8(self.second) + (enc_u8(self.centisecond) + (self.fname.spec_encode() + (le_u32(self.unk10) + (le_u32(self.unk11) + (le_u32(self.unk12) + (le_u32(self.unk13) + (le_u32(self.pcmdlen) + (le_u16(self.unk14) + (le_u16(self.nbwavislots) + (le_u16(self.nbprgislots) + (le_u16(self.unk17) + (le_u32(self.wavilen)))))))))))))))); }
        let ghost s11 = out@;
        push_u8(out, self.hour);
        proof { vstd::seq_lib::lemma_concat_associative(s11, enc_u8(self.hour), enc_u8(self.minute) + (enc_u8(self.second) + (enc_u8(self.centisecond) + (self.fname.spec_encode() + (le_u32(self.unk10) + (le_u32(self.unk11) + (le_u32(self.unk12) + (le_u32(self.unk13) + (le_u32(self.pcmdlen) + (le_u16(self.unk14) + (le_u16(self.nbwavislots) + (le_u16(self.nbprgislots) + (le_u16(self.unk17) + (le_u32(self.wavilen))))))))))))))); }
        let ghost s12 = out@;
        push_u8(out, self.minute);
        proof { vstd::seq_lib::lemma_concat_associative(s12, enc_u8(self.minute), enc_u8(self.second) + (enc_u8(self.centisecond) + (self.fname.spec_encode() + (le_u32(self.unk10) + (le_u32(self.unk11) + (le_u32(self.unk12) + (le_u32(self.unk13) + (le_u32(self.pcmdlen) + (le_u16(self.unk14) + (le_u16(self.nbwavislots) + (le_u16(self.nbprgislots) + (le_u16(self.unk17) + (le_u32(self.wavilen)))))))))))))); }
        let ghost s13 = out@;
        push_u8(out, self.second);
        proof { vstd::seq_lib::lemma_concat_associative(s13, enc_u8(self.second), enc_u8(self.centisecond) + (self.fname.spec_encode() + (le_u32(self.unk10) + (le_u32(self.unk11) + (le_u32(self.unk12) + (le_u32(self.unk13) + (le_u32(self.pcmdlen) + (le_u16(self.unk14) + (le_u16(self.nbwavislots) + (le_u16(self.nbprgislots) + (le_u16(self.unk17) + (le_u32(self.wavilen))))))))))))); }
        let ghost s14 = out@;
        push_u8(out, self.centisecond);
        proof { vstd::seq_lib::lemma_concat_associative(s14, enc_u8(self.centisecond), self.fname.spec_encode() + (le_u32(self.unk10) + (le_u32(self.unk11) + (le_u32(self.unk12) + (le_u32(self.unk13) + (le_u32(self.pcmdlen) + (le_u16(self.unk14) + (le_u16(self.nbwavislots) + (le_u16(self.nbprgislots) + (le_u16(self.unk17) + (le_u32(self.wavilen)))))))))))); }
        let ghost s15 = out@;
        self.fname.encode_fields(out);
        proof { vstd::seq_lib::lemma_concat_associative(s15, self.fname.spec_encode(), le_u32(self.unk10) + (le_u32(self.unk11) + (le_u32(self.unk12) + (le_u32(self.unk13) + (le_u32(self.pcmdlen) + (le_u16(self.unk14) + (le_u16(self.nbwavislots) + (le_u16(self.nbprgislots) + (le_u16(self.unk17) + (le_u32(self.wavilen))))))))))); }
        let ghost s16 = out@;
        push_u32(out, self.unk10);
        proof { vstd::seq_lib::lemma_concat_associative(s16, le_u32(self.unk10), le_u32(self.unk11) + (le_u32(self.unk12) + (le_u32(self.unk13) + (le_u32(self.pcmdlen) + (le_u16(self.unk14) + (le_u16(self.nbwavislots) + (le_u16(self.nbprgislots) + (le_u16(self.unk17) + (le_u32(self.wavilen)))))))))); }
        let ghost s17 = out@;
        push_u32(out, self.unk11);
        proof { vstd::seq_lib::lemma_concat_associative(s17, le_u32(self.unk11), le_u32(self.unk12) + (le_u32(self.unk13) + (le_u32(self.pcmdlen) + (le_u16(self.unk14) + (le_u16(self.nbwavislots) + (le_u16(self.nbprgislots) + (le_u16(self.unk17) + (le_u32(self.wavilen))))))))); }
        let ghost s18 = out@;
        push_u32(out, self.unk12);
        proof { vstd::seq_lib::lemma_concat_associative(s18, le_u32(self.unk12), le_u32(self.unk13) + (le_u32(self.pcmdlen) + (le_u16(self.unk14) + (le_u16(self.nbwavislots) + (le_u16(self.nbprgislots) + (le_u16(self.unk17) + (le_u32(self.wavilen)))))))); }
        let ghost s19 = out@;
        push_u32(out, self.unk13);
        proof { vstd::seq_lib::lemma_concat_associative(s19, le_u32(self.unk13), le_u32(self.pcmdlen) + (le_u16(self.unk14) + (le_u16(self.nbwavislots) + (le_u16(self.nbprgislots) + (le_u16(self.unk17) + (le_u32(self.wavilen))))))); }
        let ghost s20 = out@;
        push_u32(out, self.pcmdlen);
        proof { vstd::seq_lib::lemma_concat_associative(s20, le_u32(self.pcmdlen), le_u16(self.unk14) + (le_u16(self.nbwavislots) + (le_u16(self.nbprgislots) + (le_u16(self.unk17) + (le_u32(self.wavilen)))))); }
        let ghost s21 = out@;
        push_u16(out, self.unk14);
        proof { vstd::seq_lib::lemma_concat_associative(s21, le_u16(self.unk14), le_u16(self.nbwavislots) + (le_u16(self.nbprgislots) + (le_u16(self.unk17) + (le_u32(self.wavilen))))); }
        let ghost s22 = out@;
        push_u16(out, self.nbwavislots);
        proof { vstd::seq_lib::lemma_concat_associative(s22, le_u16(self.nbwavislots), le_u16(self.nbprgislots) + (le_u16(self.unk17) + (le_u32(self.wavilen)))); }
        let ghost s23 = out@;
        push_u16(out, self.nbprgislots);
        proof { vstd::seq_lib::lemma_concat_associative(s23, le_u16(self.nbprgislots), le_u16(self.unk17) + (le_u32(self.wavilen))); }
        let ghost s24 = out@;
        push_u16(out, self.unk17);
        proof { vstd::seq_lib::lemma_concat_associative(s24, le_u16(self.unk17), le_u32(self.wavilen)); }
        let ghost s25 = out@;
        push_u32(out, self.wavilen);
    }

    #[verifier::spinoff_prover]
    #[verifier::rlimit(100)]
    fn decode_fields(d: &[u8], pos: usize) -> (r: Self) {
        let _dlen = d.len();
        let magicn = get_u32(d, pos + 0);
        let unk18 = get_u32(d, pos + 4);
        let flen = get_u32(d, pos + 8);
        let version = get_u16(d, pos + 12);
        let unk1 = get_u8(d, pos + 14);
        let unk2 = get_u8(d, pos + 15);
        let unk3 = get_u32(d, pos + 16);
        let unk4 = get_u32(d, pos + 20);
        let year = get_u16(d, pos + 24);
        let month = get_u8(d, pos + 26);
        let day = get_u8(d, pos + 27);
        let hour = get_u8(d, pos + 28);
        let minute = get_u8(d, pos + 29);
        let second = get_u8(d, pos + 30);
        let centisecond = get_u8(d, pos + 31);
        let fname = DSEString::decode_fields(d, pos + 32);
        let unk10 = get_u32(d, pos + 48);
        let unk11 = get_u32(d, pos + 52);
        let unk12 = get_u32(d, pos + 56);
        let unk13 = get_u32(d, pos + 60);
        let pcmdlen = get_u32(d, pos + 64);
        let unk14 = get_u16(d, pos + 68);
        let nbwavislots = get_u16(d, pos + 70);
        let nbprgislots = get_u16(d, pos + 72);
        let unk17 = get_u16(d, pos + 74);
        let wavilen = get_u32(d, pos + 76);
        proof {
            let b = d@.subrange(pos as int, pos + 80);
            assert(b.subrange(0, 4) =~= d@.subrange(pos + 0, pos + 4));
            assert(b.subrange(4, 8) =~= d@.subrange(pos + 4, pos + 8));
            assert(b.subrange(8, 12) =~= d@.subrange(pos + 8, pos + 12));
            assert(b.subrange(12, 14) =~= d@.subrange(pos + 12, pos + 14));
            assert(b.subrange(16, 20) =~= d@.subrange(pos + 16, pos + 20));
            assert(b.subrange(20, 24) =~= d@.subrange(pos + 20, pos + 24));
            assert(b.subrange(24, 26) =~= d@.subrange(pos + 24, pos + 26));
            assert(b.subrange(32, 48) =~= d@.subrange(pos + 32, pos + 48));
            assert(b.subrange(48, 52) =~= d@.subrange(pos + 48, pos + 52));
            assert(b.subrange(52, 56) =~= d@.subrange(pos + 52, pos + 56));
            assert(b.subrange(56, 60) =~= d@.subrange(pos + 56, pos + 60));
            assert(b.subrange(60, 64) =~= d@.subrange(pos + 60, pos + 64));
            assert(b.subrange(64, 68) =~= d@.subrange(pos + 64, pos + 68));
            assert(b.subrange(68, 70) =~= d@.subrange(pos + 68, pos + 70));
            assert(b.subrange(70, 72) =~= d@.subrange(pos + 70, pos + 72));
            assert(b.subrange(72, 74) =~= d@.subrange(pos + 72, pos + 74));
            assert(b.subrange(74, 76) =~= d@.subrange(pos + 74, pos + 76));
            assert(b.subrange(76, 80) =~= d@.subrange(pos + 76, pos + 80));
        }
        SWDLHeader { magicn, unk18, flen, version, unk1, unk2, unk3, unk4, year, month, day, hour, minute, second, centisecond, fname, unk10, unk11, unk12, unk13, pcmdlen, unk14, nbwavislots, nbprgislots, unk17, wavilen }
    }

    #[verifier::spinoff_prover]
    #[verifier::rlimit(100)]
    proof fn lemma_parse_encode(&self) {
        let e = self.spec_encode();
        lemma_skip_zero(e);
        lemma_split_piece(e, 0, le_u32(self.magicn), le_u32(self.unk18) + (le_u32(self.flen) + (le_u16(self.version) + (enc_u8(self.unk1) + (enc_u8(self.unk2) + (le_u32(self.unk3) + (le_u32(self.unk4) + (le_u16(self.year) + (enc_u8(self.month) + (enc_u8(self.day) + (enc_u8(self.hour) + (enc_u8(self.minute) + (enc_u8(self.second) + (enc_u8(self.centisecond) + (self.fname.spec_encode() + (le_u32(self.unk10) + (le_u32(self.unk11) + (le_u32(self.unk12) + (le_u32(self.unk13) + (le_u32(self.pcmdlen) + (le_u16(self.unk14) + (le_u16(self.nbwavislots) + (le_u16(self.nbprgislots) + (le_u16(self.unk17) + (le_u32(self.wavilen))))))))))))))))))))))))));
        lemma_u32_roundtrip(self.magicn);
        lemma_split_piece(e, 4, le_u32(self.unk18), le_u32(self.flen) + (le_u16(self.version) + (enc_u8(self.unk1) + (enc_u8(self.unk2) + (le_u32(self.unk3) + (le_u32(self.unk4) + (le_u16(self.year) + (enc_u8(self.month) + (enc_u8(self.day) + (enc_u8(self.hour) + (enc_u8(self.minute) + (enc_u8(self.second) + (enc_u8(self.centisecond) + (self.fname.spec_encode() + (le_u32(self.unk10) + (le_u32(self.unk11) + (le_u32(self.unk12) + (le_u32(self.unk13) + (le_u32(self.pcmdlen) + (le_u16(self.unk14) + (le_u16(self.nbwavislots) + (le_u16(self.nbprgislots) + (le_u16(self.unk17) + (le_u32(self.wavilen)))))))))))))))))))))))));
        lemma_u32_roundtrip(self.unk18);
        lemma_split_piece(e, 8, le_u32(self.flen), le_u16(self.version) + (enc_u8(self.unk1) + (enc_u8(self.unk2) + (le_u32(self.unk3) + (le_u32(self.unk4) + (le_u16(self.year) + (enc_u8(self.month) + (enc_u8(self.day) + (enc_u8(self.hour) + (enc_u8(self.minute) + (enc_u8(self.second) + (enc_u8(self.centisecond) + (self.fname.spec_encode() + (le_u32(self.unk10) + (le_u32(self.unk11) + (le_u32(self.unk12) + (le_u32(self.unk13) + (le_u32(self.pcmdlen) + (le_u16(self.unk14) + (le_u16(self.nbwavislots) + (le_u16(self.nbprgislots) + (le_u16(self.unk17) + (le_u32(self.wavilen))))))))))))))))))))))));
        lemma_u32_roundtrip(self.flen);
        lemma_split_piece(e, 12, le_u16(self.version), enc_u8(self.unk1) + (enc_u8(self.unk2) + (le_u32(self.unk3) + (le_u32(self.unk4) + (le_u16(self.year) + (enc_u8(self.month) + (enc_u8(self.day) + (enc_u8(self.hour) + (enc_u8(self.minute) + (enc_u8(self.second) + (enc_u8(self.centisecond) + (self.fname.spec_encode() + (le_u32(self.unk10) + (le_u32(self.unk11) + (le_u32(self.unk12) + (le_u32(self.unk13) + (le_u32(self.pcmdlen) + (le_u16(self.unk14) + (le_u16(self.nbwavislots) + (le_u16(self.nbprgislots) + (le_u16(self.unk17) + (le_u32(self.wavilen)))))))))))))))))))))));
        lemma_u16_roundtrip(self.version);
        lemma_split_piece(e, 14, enc_u8(self.unk1), enc_u8(self.unk2) + (le_u32(self.unk3) + (le_u32(self.unk4) + (le_u16(self.year) + (enc_u8(self.month) + (enc_u8(self.day) + (enc_u8(self.hour) + (enc_u8(self.minute) + (enc_u8(self.second) + (enc_u8(self.centisecond) + (self.fname.spec_encode() + (le_u32(self.unk10) + (le_u32(self.unk11) + (le_u32(self.unk12) + (le_u32(self.unk13) + (le_u32(self.pcmdlen) + (le_u16(self.unk14) + (le_u16(self.nbwavislots) + (le_u16(self.nbprgislots) + (le_u16(self.unk17) + (le_u32(self.wavilen))))))))))))))))))))));
        lemma_split_piece(e, 15, enc_u8(self.unk2), le_u32(self.unk3) + (le_u32(self.unk4) + (le_u16(self.year) + (enc_u8(self.month) + (enc_u8(self.day) + (enc_u8(self.hour) + (enc_u8(self.minute) + (enc_u8(self.second) + (enc_u8(self.centisecond) + (self.fname.spec_encode() + (le_u32(self.unk10) + (le_u32(self.unk11) + (le_u32(self.unk12) + (le_u32(self.unk13) + (le_u32(self.pcmdlen) + (le_u16(self.unk14) + (le_u16(self.nbwavislots) + (le_u16(self.nbprgislots) + (le_u16(self.unk17) + (le_u32(self.wavilen)))))))))))))))))))));
        lemma_split_piece(e, 16, le_u32(self.unk3), le_u32(self.unk4) + (le_u16(self.year) + (enc_u8(self.month) + (enc_u8(self.day) + (enc_u8(self.hour) + (enc_u8(self.minute) + (enc_u8(self.second) + (enc_u8(self.centisecond) + (self.fname.spec_encode() + (le_u32(self.unk10) + (le_u32(self.unk11) + (le_u32(self.unk12) + (le_u32(self.unk13) + (le_u32(self.pcmdlen) + (le_u16(self.unk14) + (le_u16(self.nbwavislots) + (le_u16(self.nbprgislots) + (le_u16(self.unk17) + (le_u32(self.wavilen))))))))))))))))))));
        lemma_u32_roundtrip(self.unk3);
        lemma_split_piece(e, 20, le_u32(self.unk4), le_u16(self.year) + (enc_u8(self.month) + (enc_u8(self.day) + (enc_u8(self.hour) + (enc_u8(self.minute) + (enc_u8(self.second) + (enc_u8(self.centisecond) + (self.fname.spec_encode() + (le_u32(self.unk10) + (le_u32(self.unk11) + (le_u32(self.unk12) + (le_u32(self.unk13) + (le_u32(self.pcmdlen) + (le_u16(self.unk14) + (le_u16(self.nbwavislots) + (le_u16(self.nbprgislots) + (le_u16(self.unk17) + (le_u32(self.wavilen)))))))))))))))))));
        lemma_u32_roundtrip(self.unk4);
        lemma_split_piece(e, 24, le_u16(self.year), enc_u8(self.month) + (enc_u8(self.day) + (enc_u8(self.hour) + (enc_u8(self.minute) + (enc_u8(self.second) + (enc_u8(self.centisecond) + (self.fname.spec_encode() + (le_u32(self.unk10) + (le_u32(self.unk11) + (le_u32(self.unk12) + (le_u32(self.unk13) + (le_u32(self.pcmdlen) + (le_u16(self.unk14) + (le_u16(self.nbwavislots) + (le_u16(self.nbprgislots) + (le_u16(self.unk17) + (le_u32(self.wavilen))))))))))))))))));
        lemma_u16_roundtrip(self.year);
        lemma_split_piece(e, 26, enc_u8(self.month), enc_u8(self.day) + (enc_u8(self.hour) + (enc_u8(self.minute) + (enc_u8(self.second) + (enc_u8(self.centisecond) + (self.fname.spec_encode() + (le_u32(self.unk10) + (le_u32(self.unk11) + (le_u32(self.unk12) + (le_u32(self.unk13) + (le_u32(self.pcmdlen) + (le_u16(self.unk14) + (le_u16(self.nbwavislots) + (le_u16(self.nbprgislots) + (le_u16(self.unk17) + (le_u32(self.wavilen)))))))))))))))));
        lemma_split_piece(e, 27, enc_u8(self.day), enc_u8(self.hour) + (enc_u8(self.minute) + (enc_u8(self.second) + (enc_u8(self.centisecond) + (self.fname.spec_encode() + (le_u32(self.unk10) + (le_u32(self.unk11) + (le_u32(self.unk12) + (le_u32(self.unk13) + (le_u32(self.pcmdlen) + (le_u16(self.unk14) + (le_u16(self.nbwavislots) + (le_u16(self.nbprgislots) + (le_u16(self.unk17) + (le_u32(self.wavilen))))))))))))))));
        lemma_split_piece(e, 28, enc_u8(self.hour), enc_u8(self.minute) + (enc_u8(self.second) + (enc_u8(self.centisecond) + (self.fname.spec_encode() + (le_u32(self.unk10) + (le_u32(self.unk11) + (le_u32(self.unk12) + (le_u32(self.unk13) + (le_u32(self.pcmdlen) + (le_u16(self.unk14) + (le_u16(self.nbwavislots) + (le_u16(self.nbprgislots) + (le_u16(self.unk17) + (le_u32(self.wavilen)))))))))))))));
        lemma_split_piece(e, 29, enc_u8(self.minute), enc_u8(self.second) + (enc_u8(self.centisecond) + (self.fname.spec_encode() + (le_u32(self.unk10) + (le_u32(self.unk11) + (le_u32(self.unk12) + (le_u32(self.unk13) + (le_u32(self.pcmdlen) + (le_u16(self.unk14) + (le_u16(self.nbwavislots) + (le_u16(self.nbprgislots) + (le_u16(self.unk17) + (le_u32(self.wavilen))))))))))))));
        lemma_split_piece(e, 30, enc_u8(self.second), enc_u8(self.centisecond) + (self.fname.spec_encode() + (le_u32(self.unk10) + (le_u32(self.unk11) + (le_u32(self.unk12) + (le_u32(self.unk13) + (le_u32(self.pcmdlen) + (le_u16(self.unk14) + (le_u16(self.nbwavislots) + (le_u16(self.nbprgislots) + (le_u16(self.unk17) + (le_u32(self.wavilen)))))))))))));
        lemma_split_piece(e, 31, enc_u8(self.centisecond), self.fname.spec_encode() + (le_u32(self.unk10) + (le_u32(self.unk11) + (le_u32(self.unk12) + (le_u32(self.unk13) + (le_u32(self.pcmdlen) + (le_u16(self.unk14) + (le_u16(self.nbwavislots) + (le_u16(self.nbprgislots) + (le_u16(self.unk17) + (le_u32(self.wavilen))))))))))));
        lemma_split_piece(e, 32, self.fname.spec_encode(), le_u32(self.unk10) + (le_u32(self.unk11) + (le_u32(self.unk12) + (le_u32(self.unk13) + (le_u32(self.pcmdlen) + (le_u16(self.unk14) + (le_u16(self.nbwavislots) + (le_u16(self.nbprgislots) + (le_u16(self.unk17) + (le_u32(self.wavilen)))))))))));
        self.fname.lemma_parse_encode();
        lemma_split_piece(e, 48, le_u32(self.unk10), le_u32(self.unk11) + (le_u32(self.unk12) + (le_u32(self.unk13) + (le_u32(self.pcmdlen) + (le_u16(self.unk14) + (le_u16(self.nbwavislots) + (le_u16(self.nbprgislots) + (le_u16(self.unk17) + (le_u32(self.wavilen))))))))));
        lemma_u32_roundtrip(self.unk10);
        lemma_split_piece(e, 52, le_u32(self.unk11), le_u32(self.unk12) + (le_u32(self.unk13) + (le_u32(self.pcmdlen) + (le_u16(self.unk14) + (le_u16(self.nbwavislots) + (le_u16(self.nbprgislots) + (le_u16(self.unk17) + (le_u32(self.wavilen)))))))));
        lemma_u32_roundtrip(self.unk11);
        lemma_split_piece(e, 56, le_u32(self.unk12), le_u32(self.unk13) + (le_u32(self.pcmdlen) + (le_u16(self.unk14) + (le_u16(self.nbwavislots) + (le_u16(self.nbprgislots) + (le_u16(self.unk17) + (le_u32(self.wavilen))))))));
        lemma_u32_roundtrip(self.unk12);
        lemma_split_piece(e, 60, le_u32(self.unk13), le_u32(self.pcmdlen) + (le_u16(self.unk14) + (le_u16(self.nbwavislots) + (le_u16(self.nbprgislots) + (le_u16(self.unk17) + (le_u32(self.wavilen)))))));
        lemma_u32_roundtrip(self.unk13);
        lemma_split_piece(e, 64, le_u32(self.pcmdlen), le_u16(self.unk14) + (le_u16(self.nbwavislots) + (le_u16(self.nbprgislots) + (le_u16(self.unk17) + (le_u32(self.wavilen))))));
        lemma_u32_roundtrip(self.pcmdlen);
        lemma_split_piece(e, 68, le_u16(self.unk14), le_u16(self.nbwavislots) + (le_u16(self.nbprgislots) + (le_u16(self.unk17) + (le_u32(self.wavilen)))));
        lemma_u16_roundtrip(self.unk14);
        lemma_split_piece(e, 70, le_u16(self.nbwavislots), le_u16(self.nbprgislots) + (le_u16(self.unk17) + (le_u32(self.wavilen))));
        lemma_u16_roundtrip(self.nbwavislots);
        lemma_split_piece(e, 72, le_u16(self.nbprgislots), le_u16(self.unk17) + (le_u32(self.wavilen)));
        lemma_u16_roundtrip(self.nbprgislots);
        lemma_split_piece(e, 74, le_u16(self.unk17), le_u32(self.wavilen));
        lemma_u16_roundtrip(self.unk17);
        lemma_split_piece(e, 76, le_u32(self.wavilen), Seq::<u8>::empty());
        assert(le_u32(self.wavilen) + Seq::<u8>::empty() =~= le_u32(self.wavilen));
        lemma_u32_roundtrip(self.wavilen);
        assert(Self::spec_parse(e) == *self);
    }

    #[verifier::spinoff_prover]
    #[verifier::rlimit(100)]
    proof fn lemma_encode_parse(b: Seq<u8>) {
        let p = Self::spec_parse(b);
        lemma_u32_bytes(b.subrange(0, 4));
        assert(le_u32(p.magicn) =~= b.subrange(0, 4));
        lemma_u32_bytes(b.subrange(4, 8));
        assert(le_u32(p.unk18) =~= b.subrange(4, 8));
        lemma_u32_bytes(b.subrange(8, 12));
        assert(le_u32(p.flen) =~= b.subrange(8, 12));
        lemma_u16_bytes(b.subrange(12, 14));
        assert(le_u16(p.version) =~= b.subrange(12, 14));
        assert(enc_u8(p.unk1) =~= b.subrange(14, 15));
        assert(enc_u8(p.unk2) =~= b.subrange(15, 16));
        lemma_u32_bytes(b.subrange(16, 20));
        assert(le_u32(p.unk3) =~= b.subrange(16, 20));
        lemma_u32_bytes(b.subrange(20, 24));
        assert(le_u32(p.unk4) =~= b.subrange(20, 24));
        lemma_u16_bytes(b.subrange(24, 26));
        assert(le_u16(p.year) =~= b.subrange(24, 26));
        assert(enc_u8(p.month) =~= b.subrange(26, 27));
        assert(enc_u8(p.day) =~= b.subrange(27, 28));
        assert(enc_u8(p.hour) =~= b.subrange(28, 29));
        assert(enc_u8(p.minute) =~= b.subrange(29, 30));
        assert(enc_u8(p.second) =~= b.subrange(30, 31));
        assert(enc_u8(p.centisecond) =~= b.subrange(31, 32));
        DSEString::<0xAA>::lemma_encode_parse(b.subrange(32, 48));
        assert(p.fname.spec_encode() =~= b.subrange(32, 48));
        lemma_u32_bytes(b.subrange(48, 52));
        assert(le_u32(p.unk10) =~= b.subrange(48, 52));
        lemma_u32_bytes(b.subrange(52, 56));
        assert(le_u32(p.unk11) =~= b.subrange(52, 56));
        lemma_u32_bytes(b.subrange(56, 60));
        assert(le_u32(p.unk12) =~= b.subrange(56, 60));
        lemma_u32_bytes(b.subrange(60, 64));
        assert(le_u32(p.unk13) =~= b.subrange(60, 64));
        lemma_u32_bytes(b.subrange(64, 68));
        assert(le_u32(p.pcmdlen) =~= b.subrange(64, 68));
        lemma_u16_bytes(b.subrange(68, 70));
        assert(le_u16(p.unk14) =~= b.subrange(68, 70));
        lemma_u16_bytes(b.subrange(70, 72));
        assert(le_u16(p.nbwavislots) =~= b.subrange(70, 72));
        lemma_u16_bytes(b.subrange(72, 74));
        assert(le_u16(p.nbprgislots) =~= b.subrange(72, 74));
        lemma_u16_bytes(b.subrange(74, 76));
        assert(le_u16(p.unk17) =~= b.subrange(74, 76));
        lemma_u32_bytes(b.subrange(76, 80));
        assert(le_u32(p.wavilen) =~= b.subrange(76, 80));
        lemma_skip_tail(b, 76);
        lemma_join_piece(b, 74, le_u16(p.unk17), le_u32(p.wavilen));
        lemma_join_piece(b, 72, le_u16(p.nbprgislots), le_u16(p.unk17) + (le_u32(p.wavilen)));
        lemma_join_piece(b, 70, le_u16(p.nbwavislots), le_u16(p.nbprgislots) + (le_u16(p.unk17) + (le_u32(p.wavilen))));
        lemma_join_piece(b, 68, le_u16(p.unk14), le_u16(p.nbwavislots) + (le_u16(p.nbprgislots) + (le_u16(p.unk17) + (le_u32(p.wavilen)))));
        lemma_join_piece(b, 64, le_u32(p.pcmdlen), le_u16(p.unk14) + (le_u16(p.nbwavislots) + (le_u16(p.nbprgislots) + (le_u16(p.unk17) + (le_u32(p.wavilen))))));
        lemma_join_piece(b, 60, le_u32(p.unk13), le_u32(p.pcmdlen) + (le_u16(p.unk14) + (le_u16(p.nbwavislots) + (le_u16(p.nbprgislots) + (le_u16(p.unk17) + (le_u32(p.wavilen)))))));
        lemma_join_piece(b, 56, le_u32(p.unk12), le_u32(p.unk13) + (le_u32(p.pcmdlen) + (le_u16(p.unk14) + (le_u16(p.nbwavislots) + (le_u16(p.nbprgislots) + (le_u16(p.unk17) + (le_u32(p.wavilen))))))));
        lemma_join_piece(b, 52, le_u32(p.unk11), le_u32(p.unk12) + (le_u32(p.unk13) + (le_u32(p.pcmdlen) + (le_u16(p.unk14) + (le_u16(p.nbwavislots) + (le_u16(p.nbprgislots) + (le_u16(p.unk17) + (le_u32(p.wavilen)))))))));
        lemma_join_piece(b, 48, le_u32(p.unk10), le_u32(p.unk11) + (le_u32(p.unk12) + (le_u32(p.unk13) + (le_u32(p.pcmdlen) + (le_u16(p.unk14) + (le_u16(p.nbwavislots) + (le_u16(p.nbprgislots) + (le_u16(p.unk17) + (le_u32(p.wavilen))))))))));
        lemma_join_piece(b, 32, p.fname.spec_encode(), le_u32(p.unk10) + (le_u32(p.unk11) + (le_u32(p.unk12) + (le_u32(p.unk13) + (le_u32(p.pcmdlen) + (le_u16(p.unk14) + (le_u16(p.nbwavislots) + (le_u16(p.nbprgislots) + (le_u16(p.unk17) + (le_u32(p.wavilen)))))))))));
        lemma_join_piece(b, 31, enc_u8(p.centisecond), p.fname.spec_encode() + (le_u32(p.unk10) + (le_u32(p.unk11) + (le_u32(p.unk12) + (le_u32(p.unk13) + (le_u32(p.pcmdlen) + (le_u16(p.unk14) + (le_u16(p.nbwavislots) + (le_u16(p.nbprgislots) + (le_u16(p.unk17) + (le_u32(p.wavilen))))))))))));
        lemma_join_piece(b, 30, enc_u8(p.second), enc_u8(p.centisecond) + (p.fname.spec_encode() + (le_u32(p.unk10) + (le_u32(p.unk11) + (le_u32(p.unk12) + (le_u32(p.unk13) + (le_u32(p.pcmdlen) + (le_u16(p.unk14) + (le_u16(p.nbwavislots) + (le_u16(p.nbprgislots) + (le_u16(p.unk17) + (le_u32(p.wavilen)))))))))))));
        lemma_join_piece(b, 29, enc_u8(p.minute), enc_u8(p.second) + (enc_u8(p.centisecond) + (p.fname.spec_encode() + (le_u32(p.unk10) + (le_u32(p.unk11) + (le_u32(p.unk12) + (le_u32(p.unk13) + (le_u32(p.pcmdlen) + (le_u16(p.unk14) + (le_u16(p.nbwavislots) + (le_u16(p.nbprgislots) + (le_u16(p.unk17) + (le_u32(p.wavilen))))))))))))));
        lemma_join_piece(b, 28, enc_u8(p.hour), enc_u8(p.minute) + (enc_u8(p.second) + (enc_u8(p.centisecond) + (p.fname.spec_encode() + (le_u32(p.unk10) + (le_u32(p.unk11) + (le_u32(p.unk12) + (le_u32(p.unk13) + (le_u32(p.pcmdlen) + (le_u16(p.unk14) + (le_u16(p.nbwavislots) + (le_u16(p.nbprgislots) + (le_u16(p.unk17) + (le_u32(p.wavilen)))))))))))))));
        lemma_join_piece(b, 27, enc_u8(p.day), enc_u8(p.hour) + (enc_u8(p.minute) + (enc_u8(p.second) + (enc_u8(p.centisecond) + (p.fname.spec_encode() + (le_u32(p.unk10) + (le_u32(p.unk11) + (le_u32(p.unk12) + (le_u32(p.unk13) + (le_u32(p.pcmdlen) + (le_u16(p.unk14) + (le_u16(p.nbwavislots) + (le_u16(p.nbprgislots) + (le_u16(p.unk17) + (le_u32(p.wavilen))))))))))))))));
        lemma_join_piece(b, 26, enc_u8(p.month), enc_u8(p.day) + (enc_u8(p.hour) + (enc_u8(p.minute) + (enc_u8(p.second) + (enc_u8(p.centisecond) + (p.fname.spec_encode() + (le_u32(p.unk10) + (le_u32(p.unk11) + (le_u32(p.unk12) + (le_u32(p.unk13) + (le_u32(p.pcmdlen) + (le_u16(p.unk14) + (le_u16(p.nbwavislots) + (le_u16(p.nbprgislots) + (le_u16(p.unk17) + (le_u32(p.wavilen)))))))))))))))));
        lemma_join_piece(b, 24, le_u16(p.year), enc_u8(p.month) + (enc_u8(p.day) + (enc_u8(p.hour) + (enc_u8(p.minute) + (enc_u8(p.second) + (enc_u8(p.centisecond) + (p.fname.spec_encode() + (le_u32(p.unk10) + (le_u32(p.unk11) + (le_u32(p.unk12) + (le_u32(p.unk13) + (le_u32(p.pcmdlen) + (le_u16(p.unk14) + (le_u16(p.nbwavislots) + (le_u16(p.nbprgislots) + (le_u16(p.unk17) + (le_u32(p.wavilen))))))))))))))))));
        lemma_join_piece(b, 20, le_u32(p.unk4), le_u16(p.year) + (enc_u8(p.month) + (enc_u8(p.day) + (enc_u8(p.hour) + (enc_u8(p.minute) + (enc_u8(p.second) + (enc_u8(p.centisecond) + (p.fname.spec_encode() + (le_u32(p.unk10) + (le_u32(p.unk11) + (le_u32(p.unk12) + (le_u32(p.unk13) + (le_u32(p.pcmdlen) + (le_u16(p.unk14) + (le_u16(p.nbwavislots) + (le_u16(p.nbprgislots) + (le_u16(p.unk17) + (le_u32(p.wavilen)))))))))))))))))));
        lemma_join_piece(b, 16, le_u32(p.unk3), le_u32(p.unk4) + (le_u16(p.year) + (enc_u8(p.month) + (enc_u8(p.day) + (enc_u8(p.hour) + (enc_u8(p.minute) + (enc_u8(p.second) + (enc_u8(p.centisecond) + (p.fname.spec_encode() + (le_u32(p.unk10) + (le_u32(p.unk11) + (le_u32(p.unk12) + (le_u32(p.unk13) + (le_u32(p.pcmdlen) + (le_u16(p.unk14) + (le_u16(p.nbwavislots) + (le_u16(p.nbprgislots) + (le_u16(p.unk17) + (le_u32(p.wavilen))))))))))))))))))));
        lemma_join_piece(b, 15, enc_u8(p.unk2), le_u32(p.unk3) + (le_u32(p.unk4) + (le_u16(p.year) + (enc_u8(p.month) + (enc_u8(p.day) + (enc_u8(p.hour) + (enc_u8(p.minute) + (enc_u8(p.second) + (enc_u8(p.centisecond) + (p.fname.spec_encode() + (le_u32(p.unk10) + (le_u32(p.unk11) + (le_u32(p.unk12) + (le_u32(p.unk13) + (le_u32(p.pcmdlen) + (le_u16(p.unk14) + (le_u16(p.nbwavislots) + (le_u16(p.nbprgislots) + (le_u16(p.unk17) + (le_u32(p.wavilen)))))))))))))))))))));
        lemma_join_piece(b, 14, enc_u8(p.unk1), enc_u8(p.unk2) + (le_u32(p.unk3) + (le_u32(p.unk4) + (le_u16(p.year) + (enc_u8(p.month) + (enc_u8(p.day) + (enc_u8(p.hour) + (enc_u8(p.minute) + (enc_u8(p.second) + (enc_u8(p.centisecond) + (p.fname.spec_encode() + (le_u32(p.unk10) + (le_u32(p.unk11) + (le_u32(p.unk12) + (le_u32(p.unk13) + (le_u32(p.pcmdlen) + (le_u16(p.unk14) + (le_u16(p.nbwavislots) + (le_u16(p.nbprgislots) + (le_u16(p.unk17) + (le_u32(p.wavilen))))))))))))))))))))));
        lemma_join_piece(b, 12, le_u16(p.version), enc_u8(p.unk1) + (enc_u8(p.unk2) + (le_u32(p.unk3) + (le_u32(p.unk4) + (le_u16(p.year) + (enc_u8(p.month) + (enc_u8(p.day) + (enc_u8(p.hour) + (enc_u8(p.minute) + (enc_u8(p.second) + (enc_u8(p.centisecond) + (p.fname.spec_encode() + (le_u32(p.unk10) + (le_u32(p.unk11) + (le_u32(p.unk12) + (le_u32(p.unk13) + (le_u32(p.pcmdlen) + (le_u16(p.unk14) + (le_u16(p.nbwavislots) + (le_u16(p.nbprgislots) + (le_u16(p.unk17) + (le_u32(p.wavilen)))))))))))))))))))))));
        lemma_join_piece(b, 8, le_u32(p.flen), le_u16(p.version) + (enc_u8(p.unk1) + (enc_u8(p.unk2) + (le_u32(p.unk3) + (le_u32(p.unk4) + (le_u16(p.year) + (enc_u8(p.month) + (enc_u8(p.day) + (enc_u8(p.hour) + (enc_u8(p.minute) + (enc_u8(p.second) + (enc_u8(p.centisecond) + (p.fname.spec_encode() + (le_u32(p.unk10) + (le_u32(p.unk11) + (le_u32(p.unk12) + (le_u32(p.unk13) + (le_u32(p.pcmdlen) + (le_u16(p.unk14) + (le_u16(p.nbwavislots) + (le_u16(p.nbprgislots) + (le_u16(p.unk17) + (le_u32(p.wavilen))))))))))))))))))))))));
        lemma_join_piece(b, 4, le_u32(p.unk18), le_u32(p.flen) + (le_u16(p.version) + (enc_u8(p.unk1) + (enc_u8(p.unk2) + (le_u32(p.unk3) + (le_u32(p.unk4) + (le_u16(p.year) + (enc_u8(p.month) + (enc_u8(p.day) + (enc_u8(p.hour) + (enc_u8(p.minute) + (enc_u8(p.second) + (enc_u8(p.centisecond) + (p.fname.spec_encode() + (le_u32(p.unk10) + (le_u32(p.unk11) + (le_u32(p.unk12) + (le_u32(p.unk13) + (le_u32(p.pcmdlen) + (le_u16(p.unk14) + (le_u16(p.nbwavislots) + (le_u16(p.nbprgislots) + (le_u16(p.unk17) + (le_u32(p.wavilen)))))))))))))))))))))))));
        lemma_join_piece(b, 0, le_u32(p.magicn), le_u32(p.unk18) + (le_u32(p.flen) + (le_u16(p.version) + (enc_u8(p.unk1) + (enc_u8(p.unk2) + (le_u32(p.unk3) + (le_u32(p.unk4) + (le_u16(p.year) + (enc_u8(p.month) + (enc_u8(p.day) + (enc_u8(p.hour) + (enc_u8(p.minute) + (enc_u8(p.second) + (enc_u8(p.centisecond) + (p.fname.spec_encode() + (le_u32(p.unk10) + (le_u32(p.unk11) + (le_u32(p.unk12) + (le_u32(p.unk13) + (le_u32(p.pcmdlen) + (le_u16(p.unk14) + (le_u16(p.nbwavislots) + (le_u16(p.nbprgislots) + (le_u16(p.unk17) + (le_u32(p.wavilen))))))))))))))))))))))))));
        lemma_skip_zero(b);
    }
}

impl SWDLHeader {
    /// The value that `default` returns.
    pub open spec fn spec_default() -> Self {
        SWDLHeader {
            magicn: 0x6C647773u32,
            unk18: 0u32,
            flen: 0u32,
            version: 0x415u16,
            unk1: 0u8,
            unk2: 0xFFu8,
            unk3: 0u32,
            unk4: 0u32,
            year: 0u16,
            month: 0u8,
            day: 0u8,
            hour: 0u8,
            minute: 0u8,
            second: 0u8,
            centisecond: 0u8,
            fname: DSEString::<0xAA>::spec_default(),
            unk10: 0xAAAAAA00u32,
            unk11: 0u32,
            unk12: 0u32,
            unk13: 0x10u32,
            pcmdlen: 0u32,
            unk14: 0u16,
            nbwavislots: 0u16,
            nbprgislots: 0u16,
            unk17: 524u16,
            wavilen: 0u32,
        }
    }
}

impl Default for SWDLHeader {
    fn default() -> (r: Self)
        ensures
            r == Self::spec_default(),
    {
        SWDLHeader {
            magicn: 0x6C647773u32,
            unk18: 0u32,
            flen: 0u32,
            version: 0x415u16,
            unk1: 0u8,
            unk2: 0xFFu8,
            unk3: 0u32,
            unk4: 0u32,
            year: 0u16,
            month: 0u8,
            day: 0u8,
            hour: 0u8,
            minute: 0u8,
            second: 0u8,
            centisecond: 0u8,
            fname: DSEString::<0xAA>::default(),
            unk10: 0xAAAAAA00u32,
            unk11: 0u32,
            unk12: 0u32,
            unk13: 0x10u32,
            pcmdlen: 0u32,
            unk14: 0u16,
            nbwavislots: 0u16,
            nbprgislots: 0u16,
            unk17: 524u16,
            wavilen: 0u32,
        }
    }
}

impl View for SWDLHeader {
    type V = Self;

    open spec fn view(&self) -> Self {
        *self
    }
}

impl ReadWrite for SWDLHeader {
    open spec fn spec_write(&self) -> Result<Seq<u8>, DSEError> {
        Ok(self.spec_encode())
    }

    open spec fn spec_read(v: Self, data: Seq<u8>, pos: int) -> Result<(Self, int), DSEError> {
        spec_record_read::<Self>(data, pos)
    }

    open spec fn spec_fresh() -> Self {
        Self::spec_default()
    }

    fn fresh() -> (r: Self) {
        Self::default()
    }

    fn write_to_file(&self, writer: &mut Vec<u8>) -> (res: Result<usize, DSEError>) {
        write_record(self, writer)
    }

    fn read_from_file(&mut self, reader: &mut DataReader) -> (res: Result<(), DSEError>) {
        read_record(self, reader)
    }
}

/// An entry of the sample table.
#[allow(non_snake_case)]
#[derive(Debug, Clone, PartialEq, Eq)]
pub struct SampleInfo {
    /// Entry marker, always 0xAA01.
    pub unk1: u16,
    /// Index of the sample.
    pub id: u16,
    pub tuning: Tuning,
    /// MIDI key at which the sample plays at its own pitch.
    pub rootkey: i8,
    /// Key transpose: 60 minus the root key.
    pub ktps: i8,
    pub volume: i8,
    pub pan: i8,
    pub unk5: u8,
    pub unk58: u8,
    pub unk6: u16,
    pub unk7: u16,
    pub unk59: u16,
    /// Sample format: 0x0000 8-bit PCM, 0x0100 16-bit PCM, 0x0200 4-bit ADPCM, 0x0300 PSG.
    pub smplfmt: u16,
    pub unk9: u8,
    /// Whether the sample loops.
    pub smplloop: bool,
    pub unk10: u16,
    pub unk11: u16,
    pub unk12: u16,
    pub unk13: u32,
    /// Sample rate in hertz.
    pub smplrate: u32,
    /// Offset of the sample in the pcmd chunk.
    pub smplpos: u32,
    /// Loop start, in units of 4 bytes.
    pub loopbeg: u32,
    /// Loop length, in units of 4 bytes.
    pub looplen: u32,
    pub volume_envelope: ADSRVolumeEnvelope,
}

impl SampleInfo {
    /// The bytes of a `SampleInfo`: its fields one after the other in the order
    /// they are declared, integers of more than one byte little-endian unless
    /// written `be_`, a `bool` as 1 or 0.
    pub proof fn lemma_encoding(&self)
        ensures
            self.spec_encode() == le_u16(self.unk1) + (le_u16(self.id) + (self.tuning.spec_encode() + (enc_i8(self.rootkey) + (enc_i8(self.ktps) + (enc_i8(self.volume) + (enc_i8(self.pan) + (enc_u8(self.unk5) + (enc_u8(self.unk58) + (le_u16(self.unk6) + (le_u16(self.unk7) + (le_u16(self.unk59) + (le_u16(self.smplfmt) + (enc_u8(self.unk9) + (enc_bool(self.smplloop) + (le_u16(self.unk10) + (le_u16(self.unk11) + (le_u16(self.unk12) + (le_u32(self.unk13) + (le_u32(self.smplrate) + (le_u32(self.smplpos) + (le_u32(self.loopbeg) + (le_u32(self.looplen) + (self.volume_envelope.spec_encode()))))))))))))))))))))))),
    {
    }
}

impl AutoReadWrite for SampleInfo {
    open spec fn spec_size() -> nat {
        64
    }

    closed spec fn spec_encode(&self) -> Seq<u8> {
        le_u16(self.unk1) + (le_u16(self.id) + (self.tuning.spec_encode() + (enc_i8(self.rootkey) + (enc_i8(self.ktps) + (enc_i8(self.volume) + (enc_i8(self.pan) + (enc_u8(self.unk5) + (enc_u8(self.unk58) + (le_u16(self.unk6) + (le_u16(self.unk7) + (le_u16(self.unk59) + (le_u16(self.smplfmt) + (enc_u8(self.unk9) + (enc_bool(self.smplloop) + (le_u16(self.unk10) + (le_u16(self.unk11) + (le_u16(self.unk12) + (le_u32(self.unk13) + (le_u32(self.smplrate) + (le_u32(self.smplpos) + (le_u32(self.loopbeg) + (le_u32(self.looplen) + (self.volume_envelope.spec_encode())))))))))))))))))))))))
    }

    closed spec fn spec_parse(b: Seq<u8>) -> Self {
        SampleInfo {
            unk1: u16_of(b.subrange(0, 2)),
            id: u16_of(b.subrange(2, 4)),
            tuning: Tuning::spec_parse(b.subrange(4, 6)),
            rootkey: i8_of_u8(b.subrange(6, 7)[0]),
            ktps: i8_of_u8(b.subrange(7, 8)[0]),
            volume: i8_of_u8(b.subrange(8, 9)[0]),
            pan: i8_of_u8(b.subrange(9, 10)[0]),
            unk5: b.subrange(10, 11)[0],
            unk58: b.subrange(11, 12)[0],
            unk6: u16_of(b.subrange(12, 14)),
            unk7: u16_of(b.subrange(14, 16)),
            unk59: u16_of(b.subrange(16, 18)),
            smplfmt: u16_of(b.subrange(18, 20)),
            unk9: b.subrange(20, 21)[0],
            smplloop: (b.subrange(21, 22)[0] != 0),
            unk10: u16_of(b.subrange(22, 24)),
            unk11: u16_of(b.subrange(24, 26)),
            unk12: u16_of(b.subrange(26, 28)),
            unk13: u32_of(b.subrange(28, 32)),
            smplrate: u32_of(b.subrange(32, 36)),
            smplpos: u32_of(b.subrange(36, 40)),
            loopbeg: u32_of(b.subrange(40, 44)),
            looplen: u32_of(b.subrange(44, 48)),
            volume_envelope: ADSRVolumeEnvelope::spec_parse(b.subrange(48, 64)),
        }
    }

    open spec fn spec_canonical(b: Seq<u8>) -> bool {
        Tuning::spec_canonical(b.subrange(4, 6)) && (b[21] == 0 || b[21] == 1) && ADSRVolumeEnvelope::spec_canonical(b.subrange(48, 64))
    }

    fn byte_len() -> (n: usize) {
        64
    }

    #[verifier::spinoff_prover]
    #[verifier::rlimit(100)]
    fn encode_fields(&self, out: &mut Vec<u8>) {
        let ghost s0 = out@;
        push_u16(out, self.unk1);
        proof { vstd::seq_lib::lemma_concat_associative(s0, le_u16(self.unk1), le_u16(self.id) + (self.tuning.spec_encode() + (enc_i8(self.rootkey) + (enc_i8(self.ktps) + (enc_i8(self.volume) + (enc_i8(self.pan) + (enc_u8(self.unk5) + (enc_u8(self.unk58) + (le_u16(self.unk6) + (le_u16(self.unk7) + (le_u16(self.unk59) + (le_u16(self.smplfmt) + (enc_u8(self.unk9) + (enc_bool(self.smplloop) + (le_u16(self.unk10) + (le_u16(self.unk11) + (le_u16(self.unk12) + (le_u32(self.unk13) + (le_u32(self.smplrate) + (le_u32(self.smplpos) + (le_u32(self.loopbeg) + (le_u32(self.looplen) + (self.volume_envelope.spec_encode()))))))))))))))))))))))); }
        let ghost s1 = out@;
        push_u16(out, self.id);
        proof { vstd::seq_lib::lemma_concat_associative(s1, le_u16(self.id), self.tuning.spec_encode() + (enc_i8(self.rootkey) + (enc_i8(self.ktps) + (enc_i8(self.volume) + (enc_i8(self.pan) + (enc_u8(self.unk5) + (enc_u8(self.unk58) + (le_u16(self.unk6) + (le_u16(self.unk7) + (le_u16(self.unk59) + (le_u16(self.smplfmt) + (enc_u8(self.unk9) + (enc_bool(self.smplloop) + (le_u16(self.unk10) + (le_u16(self.unk11) + (le_u16(self.unk12) + (le_u32(self.unk13) + (le_u32(self.smplrate) + (le_u32(self.smplpos) + (le_u32(self.loopbeg) + (le_u32(self.looplen) + (self.volume_envelope.spec_encode())))))))))))))))))))))); }
        let ghost s2 = out@;
        self.tuning.encode_fields(out);
        proof { vstd::seq_lib::lemma_concat_associative(s2, self.tuning.spec_encode(), enc_i8(self.rootkey) + (enc_i8(self.ktps) + (enc_i8(self.volume) + (enc_i8(self.pan) + (enc_u8(self.unk5) + (enc_u8(self.unk58) + (le_u16(self.unk6) + (le_u16(self.unk7) + (le_u16(self.unk59) + (le_u16(self.smplfmt) + (enc_u8(self.unk9) + (enc_bool(self.smplloop) + (le_u16(self.unk10) + (le_u16(self.unk11) + (le_u16(self.unk12) + (le_u32(self.unk13) + (le_u32(self.smplrate) + (le_u32(self.smplpos) + (le_u32(self.loopbeg) + (le_u32(self.looplen) + (self.volume_envelope.spec_encode()))))))))))))))))))))); }
        let ghost s3 = out@;
        push_i8(out, self.rootkey);
        proof { vstd::seq_lib::lemma_concat_associative(s3, enc_i8(self.rootkey), enc_i8(self.ktps) + (enc_i8(self.volume) + (enc_i8(self.pan) + (enc_u8(self.unk5) + (enc_u8(self.unk58) + (le_u16(self.unk6) + (le_u16(self.unk7) + (le_u16(self.unk59) + (le_u16(self.smplfmt) + (enc_u8(self.unk9) + (enc_bool(self.smplloop) + (le_u16(self.unk10) + (le_u16(self.unk11) + (le_u16(self.unk12) + (le_u32(self.unk13) + (le_u32(self.smplrate) + (le_u32(self.smplpos) + (le_u32(self.loopbeg) + (le_u32(self.looplen) + (self.volume_envelope.spec_encode())))))))))))))))))))); }
        let ghost s4 = out@;
        push_i8(out, self.ktps);
        proof { vstd::seq_lib::lemma_concat_associative(s4, enc_i8(self.ktps), enc_i8(self.volume) + (enc_i8(self.pan) + (enc_u8(self.unk5) + (enc_u8(self.unk58) + (le_u16(self.unk6) + (le_u16(self.unk7) + (le_u16(self.unk59) + (le_u16(self.smplfmt) + (enc_u8(self.unk9) + (enc_bool(self.smplloop) + (le_u16(self.unk10) + (le_u16(self.unk11) + (le_u16(self.unk12) + (le_u32(self.unk13) + (le_u32(self.smplrate) + (le_u32(self.smplpos) + (le_u32(self.loopbeg) + (le_u32(self.looplen) + (self.volume_envelope.spec_encode()))))))))))))))))))); }
        let ghost s5 = out@;
        push_i8(out, self.volume);
        proof { vstd::seq_lib::lemma_concat_associative(s5, enc_i8(self.volume), enc_i8(self.pan) + (enc_u8(self.unk5) + (enc_u8(self.unk58) + (le_u16(self.unk6) + (le_u16(self.unk7) + (le_u16(self.unk59) + (le_u16(self.smplfmt) + (enc_u8(self.unk9) + (enc_bool(self.smplloop) + (le_u16(self.unk10) + (le_u16(self.unk11) + (le_u16(self.unk12) + (le_u32(self.unk13) + (le_u32(self.smplrate) + (le_u32(self.smplpos) + (le_u32(self.loopbeg) + (le_u32(self.looplen) + (self.volume_envelope.spec_encode())))))))))))))))))); }
        let ghost s6 = out@;
        push_i8(out, self.pan);
        proof { vstd::seq_lib::lemma_concat_associative(s6, enc_i8(self.pan), enc_u8(self.unk5) + (enc_u8(self.unk58) + (le_u16(self.unk6) + (le_u16(self.unk7) + (le_u16(self.unk59) + (le_u16(self.smplfmt) + (enc_u8(self.unk9) + (enc_bool(self.smplloop) + (le_u16(self.unk10) + (le_u16(self.unk11) + (le_u16(self.unk12) + (le_u32(self.unk13) + (le_u32(self.smplrate) + (le_u32(self.smplpos) + (le_u32(self.loopbeg) + (le_u32(self.looplen) + (self.volume_envelope.spec_encode()))))))))))))))))); }
        let ghost s7 = out@;
        push_u8(out, self.unk5);
        proof { vstd::seq_lib::lemma_concat_associative(s7, enc_u8(self.unk5), enc_u8(self.unk58) + (le_u16(self.unk6) + (le_u16(self.unk7) + (le_u16(self.unk59) + (le_u16(self.smplfmt) + (enc_u8(self.unk9) + (enc_bool(self.smplloop) + (le_u16(self.unk10) + (le_u16(self.unk11) + (le_u16(self.unk12) + (le_u32(self.unk13) + (le_u32(self.smplrate) + (le_u32(self.smplpos) + (le_u32(self.loopbeg) + (le_u32(self.looplen) + (self.volume_envelope.spec_encode())))))))))))))))); }
        let ghost s8 = out@;
        push_u8(out, self.unk58);
        proof { vstd::seq_lib::lemma_concat_associative(s8, enc_u8(self.unk58), le_u16(self.unk6) + (le_u16(self.unk7) + (le_u16(self.unk59) + (le_u16(self.smplfmt) + (enc_u8(self.unk9) + (enc_bool(self.smplloop) + (le_u16(self.unk10) + (le_u16(self.unk11) + (le_u16(self.unk12) + (le_u32(self.unk13) + (le_u32(self.smplrate) + (le_u32(self.smplpos) + (le_u32(self.loopbeg) + (le_u32(self.looplen) + (self.volume_envelope.spec_encode()))))))))))))))); }
        let ghost s9 = out@;
        push_u16(out, self.unk6);
        proof { vstd::seq_lib::lemma_concat_associative(s9, le_u16(self.unk6), le_u16(self.unk7) + (le_u16(self.unk59) + (le_u16(self.smplfmt) + (enc_u8(self.unk9) + (enc_bool(self.smplloop) + (le_u16(self.unk10) + (le_u16(self.unk11) + (le_u16(self.unk12) + (le_u32(self.unk13) + (le_u32(self.smplrate) + (le_u32(self.smplpos) + (le_u32(self.loopbeg) + (le_u32(self.looplen) + (self.volume_envelope.spec_encode())))))))))))))); }
        let ghost s10 = out@;
        push_u16(out, self.unk7);
        proof { vstd::seq_lib::lemma_concat_associative(s10, le_u16(self.unk7), le_u16(self.unk59) + (le_u16(self.smplfmt) + (enc_u8(self.unk9) + (enc_bool(self.smplloop) + (le_u16(self.unk10) + (le_u16(self.unk11) + (le_u16(self.unk12) + (le_u32(self.unk13) + (le_u32(self.smplrate) + (le_u32(self.smplpos) + (le_u32(self.loopbeg) + (le_u32(self.looplen) + (self.volume_envelope.spec_encode()))))))))))))); }
        let ghost s11 = out@;
        push_u16(out, self.unk59);
        proof { vstd::seq_lib::lemma_concat_associative(s11, le_u16(self.unk59), le_u16(self.smplfmt) + (enc_u8(self.unk9) + (enc_bool(self.smplloop) + (le_u16(self.unk10) + (le_u16(self.unk11) + (le_u16(self.unk12) + (le_u32(self.unk13) + (le_u32(self.smplrate) + (le_u32(self.smplpos) + (le_u32(self.loopbeg) + (le_u32(self.looplen) + (self.volume_envelope.spec_encode())))))))))))); }
        let ghost s12 = out@;
        push_u16(out, self.smplfmt);
        proof { vstd::seq_lib::lemma_concat_associative(s12, le_u16(self.smplfmt), enc_u8(self.unk9) + (enc_bool(self.smplloop) + (le_u16(self.unk10) + (le_u16(self.unk11) + (le_u16(self.unk12) + (le_u32(self.unk13) + (le_u32(self.smplrate) + (le_u32(self.smplpos) + (le_u32(self.loopbeg) + (le_u32(self.looplen) + (self.volume_envelope.spec_encode()))))))))))); }
        let ghost s13 = out@;
        push_u8(out, self.unk9);
        proof { vstd::seq_lib::lemma_concat_associative(s13, enc_u8(self.unk9), enc_bool(self.smplloop) + (le_u16(self.unk10) + (le_u16(self.unk11) + (le_u16(self.unk12) + (le_u32(self.unk13) + (le_u32(self.smplrate) + (le_u32(self.smplpos) + (le_u32(self.loopbeg) + (le_u32(self.looplen) + (self.volume_envelope.spec_encode())))))))))); }
        let ghost s14 = out@;
        push_bool(out, self.smplloop);
        proof { vstd::seq_lib::lemma_concat_associative(s14, enc_bool(self.smplloop), le_u16(self.unk10) + (le_u16(self.unk11) + (le_u16(self.unk12) + (le_u32(self.unk13) + (le_u32(self.smplrate) + (le_u32(self.smplpos) + (le_u32(self.loopbeg) + (le_u32(self.looplen) + (self.volume_envelope.spec_encode()))))))))); }
        let ghost s15 = out@;
        push_u16(out, self.unk10);
        proof { vstd::seq_lib::lemma_concat_associative(s15, le_u16(self.unk10), le_u16(self.unk11) + (le_u16(self.unk12) + (le_u32(self.unk13) + (le_u32(self.smplrate) + (le_u32(self.smplpos) + (le_u32(self.loopbeg) + (le_u32(self.looplen) + (self.volume_envelope.spec_encode())))))))); }
        let ghost s16 = out@;
        push_u16(out, self.unk11);
        proof { vstd::seq_lib::lemma_concat_associative(s16, le_u16(self.unk11), le_u16(self.unk12) + (le_u32(self.unk13) + (le_u32(self.smplrate) + (le_u32(self.smplpos) + (le_u32(self.loopbeg) + (le_u32(self.looplen) + (self.volume_envelope.spec_encode()))))))); }
        let ghost s17 = out@;
        push_u16(out, self.unk12);
        proof { vstd::seq_lib::lemma_concat_associative(s17, le_u16(self.unk12), le_u32(self.unk13) + (le_u32(self.smplrate) + (le_u32(self.smplpos) + (le_u32(self.loopbeg) + (le_u32(self.looplen) + (self.volume_envelope.spec_encode())))))); }
        let ghost s18 = out@;
        push_u32(out, self.unk13);
        proof { vstd::seq_lib::lemma_concat_associative(s18, le_u32(self.unk13), le_u32(self.smplrate) + (le_u32(self.smplpos) + (le_u32(self.loopbeg) + (le_u32(self.looplen) + (self.volume_envelope.spec_encode()))))); }
        let ghost s19 = out@;
        push_u32(out, self.smplrate);
        proof { vstd::seq_lib::lemma_concat_associative(s19, le_u32(self.smplrate), le_u32(self.smplpos) + (le_u32(self.loopbeg) + (le_u32(self.looplen) + (self.volume_envelope.spec_encode())))); }
        let ghost s20 = out@;
        push_u32(out, self.smplpos);
        proof { vstd::seq_lib::lemma_concat_associative(s20, le_u32(self.smplpos), le_u32(self.loopbeg) + (le_u32(self.looplen) + (self.volume_envelope.spec_encode()))); }
        let ghost s21 = out@;
        push_u32(out, self.loopbeg);
        proof { vstd::seq_lib::lemma_concat_associative(s21, le_u32(self.loopbeg), le_u32(self.looplen) + (self.volume_envelope.spec_encode())); }
        let ghost s22 = out@;
        push_u32(out, self.looplen);
        proof { vstd::seq_lib::lemma_concat_associative(s22, le_u32(self.looplen), self.volume_envelope.spec_encode()); }
        let ghost s23 = out@;
        self.volume_envelope.encode_fields(out);
    }

    #[verifier::spinoff_prover]
    #[verifier::rlimit(100)]
    fn decode_fields(d: &[u8], pos: usize) -> (r: Self) {
        let _dlen = d.len();
        let unk1 = get_u16(d, pos + 0);
        let id = get_u16(d, pos + 2);
        let tuning = Tuning::decode_fields(d, pos + 4);
        let rootkey = get_i8(d, pos + 6);
        let ktps = get_i8(d, pos + 7);
        let volume = get_i8(d, pos + 8);
        let pan = get_i8(d, pos + 9);
        let unk5 = get_u8(d, pos + 10);
        let unk58 = get_u8(d, pos + 11);
        let unk6 = get_u16(d, pos + 12);
        let unk7 = get_u16(d, pos + 14);
        let unk59 = get_u16(d, pos + 16);
        let smplfmt = get_u16(d, pos + 18);
        let unk9 = get_u8(d, pos + 20);
        let smplloop = get_bool(d, pos + 21);
        let unk10 = get_u16(d, pos + 22);
        let unk11 = get_u16(d, pos + 24);
        let unk12 = get_u16(d, pos + 26);
        let unk13 = get_u32(d, pos + 28);
        let smplrate = get_u32(d, pos + 32);
        let smplpos = get_u32(d, pos + 36);
        let loopbeg = get_u32(d, pos + 40);
        let looplen = get_u32(d, pos + 44);
        let volume_envelope = ADSRVolumeEnvelope::decode_fields(d, pos + 48);
        proof {
            let b = d@.subrange(pos as int, pos + 64);
            assert(b.subrange(0, 2) =~= d@.subrange(pos + 0, pos + 2));
            assert(b.subrange(2, 4) =~= d@.subrange(pos + 2, pos + 4));
            assert(b.subrange(4, 6) =~= d@.subrange(pos + 4, pos + 6));
            assert(b.subrange(12, 14) =~= d@.subrange(pos + 12, pos + 14));
            assert(b.subrange(14, 16) =~= d@.subrange(pos + 14, pos + 16));
            assert(b.subrange(16, 18) =~= d@.subrange(pos + 16, pos + 18));
            assert(b.subrange(18, 20) =~= d@.subrange(pos + 18, pos + 20));
            assert(b.subrange(22, 24) =~= d@.subrange(pos + 22, pos + 24));
            assert(b.subrange(24, 26) =~= d@.subrange(pos + 24, pos + 26));
            assert(b.subrange(26, 28) =~= d@.subrange(pos + 26, pos + 28));
            assert(b.subrange(28, 32) =~= d@.subrange(pos + 28, pos + 32));
            assert(b.subrange(32, 36) =~= d@.subrange(pos + 32, pos + 36));
            assert(b.subrange(36, 40) =~= d@.subrange(pos + 36, pos + 40));
            assert(b.subrange(40, 44) =~= d@.subrange(pos + 40, pos + 44));
            assert(b.subrange(44, 48) =~= d@.subrange(pos + 44, pos + 48));
            assert(b.subrange(48, 64) =~= d@.subrange(pos + 48, pos + 64));
        }
        SampleInfo { unk1, id, tuning, rootkey, ktps, volume, pan, unk5, unk58, unk6, unk7, unk59, smplfmt, unk9, smplloop, unk10, unk11, unk12, unk13, smplrate, smplpos, loopbeg, looplen, volume_envelope }
    }

    #[verifier::spinoff_prover]
    #[verifier::rlimit(100)]
    proof fn lemma_parse_encode(&self) {
        let e = self.spec_encode();
        lemma_skip_zero(e);
        lemma_split_piece(e, 0, le_u16(self.unk1), le_u16(self.id) + (self.tuning.spec_encode() + (enc_i8(self.rootkey) + (enc_i8(self.ktps) + (enc_i8(self.volume) + (enc_i8(self.pan) + (enc_u8(self.unk5) + (enc_u8(self.unk58) + (le_u16(self.unk6) + (le_u16(self.unk7) + (le_u16(self.unk59) + (le_u16(self.smplfmt) + (enc_u8(self.unk9) + (enc_bool(self.smplloop) + (le_u16(self.unk10) + (le_u16(self.unk11) + (le_u16(self.unk12) + (le_u32(self.unk13) + (le_u32(self.smplrate) + (le_u32(self.smplpos) + (le_u32(self.loopbeg) + (le_u32(self.looplen) + (self.volume_envelope.spec_encode())))))))))))))))))))))));
        lemma_u16_roundtrip(self.unk1);
        lemma_split_piece(e, 2, le_u16(self.id), self.tuning.spec_encode() + (enc_i8(self.rootkey) + (enc_i8(self.ktps) + (enc_i8(self.volume) + (enc_i8(self.pan) + (enc_u8(self.unk5) + (enc_u8(self.unk58) + (le_u16(self.unk6) + (le_u16(self.unk7) + (le_u16(self.unk59) + (le_u16(self.smplfmt) + (enc_u8(self.unk9) + (enc_bool(self.smplloop) + (le_u16(self.unk10) + (le_u16(self.unk11) + (le_u16(self.unk12) + (le_u32(self.unk13) + (le_u32(self.smplrate) + (le_u32(self.smplpos) + (le_u32(self.loopbeg) + (le_u32(self.looplen) + (self.volume_envelope.spec_encode()))))))))))))))))))))));
        lemma_u16_roundtrip(self.id);
        lemma_split_piece(e, 4, self.tuning.spec_encode(), enc_i8(self.rootkey) + (enc_i8(self.ktps) + (enc_i8(self.volume) + (enc_i8(self.pan) + (enc_u8(self.unk5) + (enc_u8(self.unk58) + (le_u16(self.unk6) + (le_u16(self.unk7) + (le_u16(self.unk59) + (le_u16(self.smplfmt) + (enc_u8(self.unk9) + (enc_bool(self.smplloop) + (le_u16(self.unk10) + (le_u16(self.unk11) + (le_u16(self.unk12) + (le_u32(self.unk13) + (le_u32(self.smplrate) + (le_u32(self.smplpos) + (le_u32(self.loopbeg) + (le_u32(self.looplen) + (self.volume_envelope.spec_encode())))))))))))))))))))));
        self.tuning.lemma_parse_encode();
        lemma_split_piece(e, 6, enc_i8(self.rootkey), enc_i8(self.ktps) + (enc_i8(self.volume) + (enc_i8(self.pan) + (enc_u8(self.unk5) + (enc_u8(self.unk58) + (le_u16(self.unk6) + (le_u16(self.unk7) + (le_u16(self.unk59) + (le_u16(self.smplfmt) + (enc_u8(self.unk9) + (enc_bool(self.smplloop) + (le_u16(self.unk10) + (le_u16(self.unk11) + (le_u16(self.unk12) + (le_u32(self.unk13) + (le_u32(self.smplrate) + (le_u32(self.smplpos) + (le_u32(self.loopbeg) + (le_u32(self.looplen) + (self.volume_envelope.spec_encode()))))))))))))))))))));
        lemma_i8_roundtrip(self.rootkey);
        lemma_split_piece(e, 7, enc_i8(self.ktps), enc_i8(self.volume) + (enc_i8(self.pan) + (enc_u8(self.unk5) + (enc_u8(self.unk58) + (le_u16(self.unk6) + (le_u16(self.unk7) + (le_u16(self.unk59) + (le_u16(self.smplfmt) + (enc_u8(self.unk9) + (enc_bool(self.smplloop) + (le_u16(self.unk10) + (le_u16(self.unk11) + (le_u16(self.unk12) + (le_u32(self.unk13) + (le_u32(self.smplrate) + (le_u32(self.smplpos) + (le_u32(self.loopbeg) + (le_u32(self.looplen) + (self.volume_envelope.spec_encode())))))))))))))))))));
        lemma_i8_roundtrip(self.ktps);
        lemma_split_piece(e, 8, enc_i8(self.volume), enc_i8(self.pan) + (enc_u8(self.unk5) + (enc_u8(self.unk58) + (le_u16(self.unk6) + (le_u16(self.unk7) + (le_u16(self.unk59) + (le_u16(self.smplfmt) + (enc_u8(self.unk9) + (enc_bool(self.smplloop) + (le_u16(self.unk10) + (le_u16(self.unk11) + (le_u16(self.unk12) + (le_u32(self.unk13) + (le_u32(self.smplrate) + (le_u32(self.smplpos) + (le_u32(self.loopbeg) + (le_u32(self.looplen) + (self.volume_envelope.spec_encode()))))))))))))))))));
        lemma_i8_roundtrip(self.volume);
        lemma_split_piece(e, 9, enc_i8(self.pan), enc_u8(self.unk5) + (enc_u8(self.unk58) + (le_u16(self.unk6) + (le_u16(self.unk7) + (le_u16(self.unk59) + (le_u16(self.smplfmt) + (enc_u8(self.unk9) + (enc_bool(self.smplloop) + (le_u16(self.unk10) + (le_u16(self.unk11) + (le_u16(self.unk12) + (le_u32(self.unk13) + (le_u32(self.smplrate) + (le_u32(self.smplpos) + (le_u32(self.loopbeg) + (le_u32(self.looplen) + (self.volume_envelope.spec_encode())))))))))))))))));
        lemma_i8_roundtrip(self.pan);
        lemma_split_piece(e, 10, enc_u8(self.unk5), enc_u8(self.unk58) + (le_u16(self.unk6) + (le_u16(self.unk7) + (le_u16(self.unk59) + (le_u16(self.smplfmt) + (enc_u8(self.unk9) + (enc_bool(self.smplloop) + (le_u16(self.unk10) + (le_u16(self.unk11) + (le_u16(self.unk12) + (le_u32(self.unk13) + (le_u32(self.smplrate) + (le_u32(self.smplpos) + (le_u32(self.loopbeg) + (le_u32(self.looplen) + (self.volume_envelope.spec_encode()))))))))))))))));
        lemma_split_piece(e, 11, enc_u8(self.unk58), le_u16(self.unk6) + (le_u16(self.unk7) + (le_u16(self.unk59) + (le_u16(self.smplfmt) + (enc_u8(self.unk9) + (enc_bool(self.smplloop) + (le_u16(self.unk10) + (le_u16(self.unk11) + (le_u16(self.unk12) + (le_u32(self.unk13) + (le_u32(self.smplrate) + (le_u32(self.smplpos) + (le_u32(self.loopbeg) + (le_u32(self.looplen) + (self.volume_envelope.spec_encode())))))))))))))));
        lemma_split_piece(e, 12, le_u16(self.unk6), le_u16(self.unk7) + (le_u16(self.unk59) + (le_u16(self.smplfmt) + (enc_u8(self.unk9) + (enc_bool(self.smplloop) + (le_u16(self.unk10) + (le_u16(self.unk11) + (le_u16(self.unk12) + (le_u32(self.unk13) + (le_u32(self.smplrate) + (le_u32(self.smplpos) + (le_u32(self.loopbeg) + (le_u32(self.looplen) + (self.volume_envelope.spec_encode()))))))))))))));
        lemma_u16_roundtrip(self.unk6);
        lemma_split_piece(e, 14, le_u16(self.unk7), le_u16(self.unk59) + (le_u16(self.smplfmt) + (enc_u8(self.unk9) + (enc_bool(self.smplloop) + (le_u16(self.unk10) + (le_u16(self.unk11) + (le_u16(self.unk12) + (le_u32(self.unk13) + (le_u32(self.smplrate) + (le_u32(self.smplpos) + (le_u32(self.loopbeg) + (le_u32(self.looplen) + (self.volume_envelope.spec_encode())))))))))))));
        lemma_u16_roundtrip(self.unk7);
        lemma_split_piece(e, 16, le_u16(self.unk59), le_u16(self.smplfmt) + (enc_u8(self.unk9) + (enc_bool(self.smplloop) + (le_u16(self.unk10) + (le_u16(self.unk11) + (le_u16(self.unk12) + (le_u32(self.unk13) + (le_u32(self.smplrate) + (le_u32(self.smplpos) + (le_u32(self.loopbeg) + (le_u32(self.looplen) + (self.volume_envelope.spec_encode()))))))))))));
        lemma_u16_roundtrip(self.unk59);
        lemma_split_piece(e, 18, le_u16(self.smplfmt), enc_u8(self.unk9) + (enc_bool(self.smplloop) + (le_u16(self.unk10) + (le_u16(self.unk11) + (le_u16(self.unk12) + (le_u32(self.unk13) + (le_u32(self.smplrate) + (le_u32(self.smplpos) + (le_u32(self.loopbeg) + (le_u32(self.looplen) + (self.volume_envelope.spec_encode())))))))))));
        lemma_u16_roundtrip(self.smplfmt);
        lemma_split_piece(e, 20, enc_u8(self.unk9), enc_bool(self.smplloop) + (le_u16(self.unk10) + (le_u16(self.unk11) + (le_u16(self.unk12) + (le_u32(self.unk13) + (le_u32(self.smplrate) + (le_u32(self.smplpos) + (le_u32(self.loopbeg) + (le_u32(self.looplen) + (self.volume_envelope.spec_encode()))))))))));
        lemma_split_piece(e, 21, enc_bool(self.smplloop), le_u16(self.unk10) + (le_u16(self.unk11) + (le_u16(self.unk12) + (le_u32(self.unk13) + (le_u32(self.smplrate) + (le_u32(self.smplpos) + (le_u32(self.loopbeg) + (le_u32(self.looplen) + (self.volume_envelope.spec_encode())))))))));
        lemma_split_piece(e, 22, le_u16(self.unk10), le_u16(self.unk11) + (le_u16(self.unk12) + (le_u32(self.unk13) + (le_u32(self.smplrate) + (le_u32(self.smplpos) + (le_u32(self.loopbeg) + (le_u32(self.looplen) + (self.volume_envelope.spec_encode()))))))));
        lemma_u16_roundtrip(self.unk10);
        lemma_split_piece(e, 24, le_u16(self.unk11), le_u16(self.unk12) + (le_u32(self.unk13) + (le_u32(self.smplrate) + (le_u32(self.smplpos) + (le_u32(self.loopbeg) + (le_u32(self.looplen) + (self.volume_envelope.spec_encode())))))));
        lemma_u16_roundtrip(self.unk11);
        lemma_split_piece(e, 26, le_u16(self.unk12), le_u32(self.unk13) + (le_u32(self.smplrate) + (le_u32(self.smplpos) + (le_u32(self.loopbeg) + (le_u32(self.looplen) + (self.volume_envelope.spec_encode()))))));
        lemma_u16_roundtrip(self.unk12);
        lemma_split_piece(e, 28, le_u32(self.unk13), le_u32(self.smplrate) + (le_u32(self.smplpos) + (le_u32(self.loopbeg) + (le_u32(self.looplen) + (self.volume_envelope.spec_encode())))));
        lemma_u32_roundtrip(self.unk13);
        lemma_split_piece(e, 32, le_u32(self.smplrate), le_u32(self.smplpos) + (le_u32(self.loopbeg) + (le_u32(self.looplen) + (self.volume_envelope.spec_encode()))));
        lemma_u32_roundtrip(self.smplrate);
        lemma_split_piece(e, 36, le_u32(self.smplpos), le_u32(self.loopbeg) + (le_u32(self.looplen) + (self.volume_envelope.spec_encode())));
        lemma_u32_roundtrip(self.smplpos);
        lemma_split_piece(e, 40, le_u32(self.loopbeg), le_u32(self.looplen) + (self.volume_envelope.spec_encode()));
        lemma_u32_roundtrip(self.loopbeg);
        lemma_split_piece(e, 44, le_u32(self.looplen), self.volume_envelope.spec_encode());
        lemma_u32_roundtrip(self.looplen);
        lemma_split_piece(e, 48, self.volume_envelope.spec_encode(), Seq::<u8>::empty());
        assert(self.volume_envelope.spec_encode() + Seq::<u8>::empty() =~= self.volume_envelope.spec_encode());
        self.volume_envelope.lemma_parse_encode();
        assert(Self::spec_parse(e) == *self);
    }

    #[verifier::spinoff_prover]
    #[verifier::rlimit(100)]
    proof fn lemma_encode_parse(b: Seq<u8>) {
        let p = Self::spec_parse(b);
        lemma_u16_bytes(b.subrange(0, 2));
        assert(le_u16(p.unk1) =~= b.subrange(0, 2));
        lemma_u16_bytes(b.subrange(2, 4));
        assert(le_u16(p.id) =~= b.subrange(2, 4));
        Tuning::lemma_encode_parse(b.subrange(4, 6));
        assert(p.tuning.spec_encode() =~= b.subrange(4, 6));
        lemma_i8_bytes(b[6]);
        assert(enc_i8(p.rootkey) =~= b.subrange(6, 7));
        lemma_i8_bytes(b[7]);
        assert(enc_i8(p.ktps) =~= b.subrange(7, 8));
        lemma_i8_bytes(b[8]);
        assert(enc_i8(p.volume) =~= b.subrange(8, 9));
        lemma_i8_bytes(b[9]);
        assert(enc_i8(p.pan) =~= b.subrange(9, 10));
        assert(enc_u8(p.unk5) =~= b.subrange(10, 11));
        assert(enc_u8(p.unk58) =~= b.subrange(11, 12));
        lemma_u16_bytes(b.subrange(12, 14));
        assert(le_u16(p.unk6) =~= b.subrange(12, 14));
        lemma_u16_bytes(b.subrange(14, 16));
        assert(le_u16(p.unk7) =~= b.subrange(14, 16));
        lemma_u16_bytes(b.subrange(16, 18));
        assert(le_u16(p.unk59) =~= b.subrange(16, 18));
        lemma_u16_bytes(b.subrange(18, 20));
        assert(le_u16(p.smplfmt) =~= b.subrange(18, 20));
        assert(enc_u8(p.unk9) =~= b.subrange(20, 21));
        assert(enc_bool(p.smplloop) =~= b.subrange(21, 22));
        lemma_u16_bytes(b.subrange(22, 24));
        assert(le_u16(p.unk10) =~= b.subrange(22, 24));
        lemma_u16_bytes(b.subrange(24, 26));
        assert(le_u16(p.unk11) =~= b.subrange(24, 26));
        lemma_u16_bytes(b.subrange(26, 28));
        assert(le_u16(p.unk12) =~= b.subrange(26, 28));
        lemma_u32_bytes(b.subrange(28, 32));
        assert(le_u32(p.unk13) =~= b.subrange(28, 32));
        lemma_u32_bytes(b.subrange(32, 36));
        assert(le_u32(p.smplrate) =~= b.subrange(32, 36));
        lemma_u32_bytes(b.subrange(36, 40));
        assert(le_u32(p.smplpos) =~= b.subrange(36, 40));
        lemma_u32_bytes(b.subrange(40, 44));
        assert(le_u32(p.loopbeg) =~= b.subrange(40, 44));
        lemma_u32_bytes(b.subrange(44, 48));
        assert(le_u32(p.looplen) =~= b.subrange(44, 48));
        ADSRVolumeEnvelope::lemma_encode_parse(b.subrange(48, 64));
        assert(p.volume_envelope.spec_encode() =~= b.subrange(48, 64));
        lemma_skip_tail(b, 48);
        lemma_join_piece(b, 44, le_u32(p.looplen), p.volume_envelope.spec_encode());
        lemma_join_piece(b, 40, le_u32(p.loopbeg), le_u32(p.looplen) + (p.volume_envelope.spec_encode()));
        lemma_join_piece(b, 36, le_u32(p.smplpos), le_u32(p.loopbeg) + (le_u32(p.looplen) + (p.volume_envelope.spec_encode())));
        lemma_join_piece(b, 32, le_u32(p.smplrate), le_u32(p.smplpos) + (le_u32(p.loopbeg) + (le_u32(p.looplen) + (p.volume_envelope.spec_encode()))));
        lemma_join_piece(b, 28, le_u32(p.unk13), le_u32(p.smplrate) + (le_u32(p.smplpos) + (le_u32(p.loopbeg) + (le_u32(p.looplen) + (p.volume_envelope.spec_encode())))));
        lemma_join_piece(b, 26, le_u16(p.unk12), le_u32(p.unk13) + (le_u32(p.smplrate) + (le_u32(p.smplpos) + (le_u32(p.loopbeg) + (le_u32(p.looplen) + (p.volume_envelope.spec_encode()))))));
        lemma_join_piece(b, 24, le_u16(p.unk11), le_u16(p.unk12) + (le_u32(p.unk13) + (le_u32(p.smplrate) + (le_u32(p.smplpos) + (le_u32(p.loopbeg) + (le_u32(p.looplen) + (p.volume_envelope.spec_encode())))))));
        lemma_join_piece(b, 22, le_u16(p.unk10), le_u16(p.unk11) + (le_u16(p.unk12) + (le_u32(p.unk13) + (le_u32(p.smplrate) + (le_u32(p.smplpos) + (le_u32(p.loopbeg) + (le_u32(p.looplen) + (p.volume_envelope.spec_encode()))))))));
        lemma_join_piece(b, 21, enc_bool(p.smplloop), le_u16(p.unk10) + (le_u16(p.unk11) + (le_u16(p.unk12) + (le_u32(p.unk13) + (le_u32(p.smplrate) + (le_u32(p.smplpos) + (le_u32(p.loopbeg) + (le_u32(p.looplen) + (p.volume_envelope.spec_encode())))))))));
        lemma_join_piece(b, 20, enc_u8(p.unk9), enc_bool(p.smplloop) + (le_u16(p.unk10) + (le_u16(p.unk11) + (le_u16(p.unk12) + (le_u32(p.unk13) + (le_u32(p.smplrate) + (le_u32(p.smplpos) + (le_u32(p.loopbeg) + (le_u32(p.looplen) + (p.volume_envelope.spec_encode()))))))))));
        lemma_join_piece(b, 18, le_u16(p.smplfmt), enc_u8(p.unk9) + (enc_bool(p.smplloop) + (le_u16(p.unk10) + (le_u16(p.unk11) + (le_u16(p.unk12) + (le_u32(p.unk13) + (le_u32(p.smplrate) + (le_u32(p.smplpos) + (le_u32(p.loopbeg) + (le_u32(p.looplen) + (p.volume_envelope.spec_encode())))))))))));
        lemma_join_piece(b, 16, le_u16(p.unk59), le_u16(p.smplfmt) + (enc_u8(p.unk9) + (enc_bool(p.smplloop) + (le_u16(p.unk10) + (le_u16(p.unk11) + (le_u16(p.unk12) + (le_u32(p.unk13) + (le_u32(p.smplrate) + (le_u32(p.smplpos) + (le_u32(p.loopbeg) + (le_u32(p.looplen) + (p.volume_envelope.spec_encode()))))))))))));
        lemma_join_piece(b, 14, le_u16(p.unk7), le_u16(p.unk59) + (le_u16(p.smplfmt) + (enc_u8(p.unk9) + (enc_bool(p.smplloop) + (le_u16(p.unk10) + (le_u16(p.unk11) + (le_u16(p.unk12) + (le_u32(p.unk13) + (le_u32(p.smplrate) + (le_u32(p.smplpos) + (le_u32(p.loopbeg) + (le_u32(p.looplen) + (p.volume_envelope.spec_encode())))))))))))));
        lemma_join_piece(b, 12, le_u16(p.unk6), le_u16(p.unk7) + (le_u16(p.unk59) + (le_u16(p.smplfmt) + (enc_u8(p.unk9) + (enc_bool(p.smplloop) + (le_u16(p.unk10) + (le_u16(p.unk11) + (le_u16(p.unk12) + (le_u32(p.unk13) + (le_u32(p.smplrate) + (le_u32(p.smplpos) + (le_u32(p.loopbeg) + (le_u32(p.looplen) + (p.volume_envelope.spec_encode()))))))))))))));
        lemma_join_piece(b, 11, enc_u8(p.unk58), le_u16(p.unk6) + (le_u16(p.unk7) + (le_u16(p.unk59) + (le_u16(p.smplfmt) + (enc_u8(p.unk9) + (enc_bool(p.smplloop) + (le_u16(p.unk10) + (le_u16(p.unk11) + (le_u16(p.unk12) + (le_u32(p.unk13) + (le_u32(p.smplrate) + (le_u32(p.smplpos) + (le_u32(p.loopbeg) + (le_u32(p.looplen) + (p.volume_envelope.spec_encode())))))))))))))));
        lemma_join_piece(b, 10, enc_u8(p.unk5), enc_u8(p.unk58) + (le_u16(p.unk6) + (le_u16(p.unk7) + (le_u16(p.unk59) + (le_u16(p.smplfmt) + (enc_u8(p.unk9) + (enc_bool(p.smplloop) + (le_u16(p.unk10) + (le_u16(p.unk11) + (le_u16(p.unk12) + (le_u32(p.unk13) + (le_u32(p.smplrate) + (le_u32(p.smplpos) + (le_u32(p.loopbeg) + (le_u32(p.looplen) + (p.volume_envelope.spec_encode()))))))))))))))));
        lemma_join_piece(b, 9, enc_i8(p.pan), enc_u8(p.unk5) + (enc_u8(p.unk58) + (le_u16(p.unk6) + (le_u16(p.unk7) + (le_u16(p.unk59) + (le_u16(p.smplfmt) + (enc_u8(p.unk9) + (enc_bool(p.smplloop) + (le_u16(p.unk10) + (le_u16(p.unk11) + (le_u16(p.unk12) + (le_u32(p.unk13) + (le_u32(p.smplrate) + (le_u32(p.smplpos) + (le_u32(p.loopbeg) + (le_u32(p.looplen) + (p.volume_envelope.spec_encode())))))))))))))))));
        lemma_join_piece(b, 8, enc_i8(p.volume), enc_i8(p.pan) + (enc_u8(p.unk5) + (enc_u8(p.unk58) + (le_u16(p.unk6) + (le_u16(p.unk7) + (le_u16(p.unk59) + (le_u16(p.smplfmt) + (enc_u8(p.unk9) + (enc_bool(p.smplloop) + (le_u16(p.unk10) + (le_u16(p.unk11) + (le_u16(p.unk12) + (le_u32(p.unk13) + (le_u32(p.smplrate) + (le_u32(p.smplpos) + (le_u32(p.loopbeg) + (le_u32(p.looplen) + (p.volume_envelope.spec_encode()))))))))))))))))));
        lemma_join_piece(b, 7, enc_i8(p.ktps), enc_i8(p.volume) + (enc_i8(p.pan) + (enc_u8(p.unk5) + (enc_u8(p.unk58) + (le_u16(p.unk6) + (le_u16(p.unk7) + (le_u16(p.unk59) + (le_u16(p.smplfmt) + (enc_u8(p.unk9) + (enc_bool(p.smplloop) + (le_u16(p.unk10) + (le_u16(p.unk11) + (le_u16(p.unk12) + (le_u32(p.unk13) + (le_u32(p.smplrate) + (le_u32(p.smplpos) + (le_u32(p.loopbeg) + (le_u32(p.looplen) + (p.volume_envelope.spec_encode())))))))))))))))))));
        lemma_join_piece(b, 6, enc_i8(p.rootkey), enc_i8(p.ktps) + (enc_i8(p.volume) + (enc_i8(p.pan) + (enc_u8(p.unk5) + (enc_u8(p.unk58) + (le_u16(p.unk6) + (le_u16(p.unk7) + (le_u16(p.unk59) + (le_u16(p.smplfmt) + (enc_u8(p.unk9) + (enc_bool(p.smplloop) + (le_u16(p.unk10) + (le_u16(p.unk11) + (le_u16(p.unk12) + (le_u32(p.unk13) + (le_u32(p.smplrate) + (le_u32(p.smplpos) + (le_u32(p.loopbeg) + (le_u32(p.looplen) + (p.volume_envelope.spec_encode()))))))))))))))))))));
        lemma_join_piece(b, 4, p.tuning.spec_encode(), enc_i8(p.rootkey) + (enc_i8(p.ktps) + (enc_i8(p.volume) + (enc_i8(p.pan) + (enc_u8(p.unk5) + (enc_u8(p.unk58) + (le_u16(p.unk6) + (le_u16(p.unk7) + (le_u16(p.unk59) + (le_u16(p.smplfmt) + (enc_u8(p.unk9) + (enc_bool(p.smplloop) + (le_u16(p.unk10) + (le_u16(p.unk11) + (le_u16(p.unk12) + (le_u32(p.unk13) + (le_u32(p.smplrate) + (le_u32(p.smplpos) + (le_u32(p.loopbeg) + (le_u32(p.looplen) + (p.volume_envelope.spec_encode())))))))))))))))))))));
        lemma_join_piece(b, 2, le_u16(p.id), p.tuning.spec_encode() + (enc_i8(p.rootkey) + (enc_i8(p.ktps) + (enc_i8(p.volume) + (enc_i8(p.pan) + (enc_u8(p.unk5) + (enc_u8(p.unk58) + (le_u16(p.unk6) + (le_u16(p.unk7) + (le_u16(p.unk59) + (le_u16(p.smplfmt) + (enc_u8(p.unk9) + (enc_bool(p.smplloop) + (le_u16(p.unk10) + (le_u16(p.unk11) + (le_u16(p.unk12) + (le_u32(p.unk13) + (le_u32(p.smplrate) + (le_u32(p.smplpos) + (le_u32(p.loopbeg) + (le_u32(p.looplen) + (p.volume_envelope.spec_encode()))))))))))))))))))))));
        lemma_join_piece(b, 0, le_u16(p.unk1), le_u16(p.id) + (p.tuning.spec_encode() + (enc_i8(p.rootkey) + (enc_i8(p.ktps) + (enc_i8(p.volume) + (enc_i8(p.pan) + (enc_u8(p.unk5) + (enc_u8(p.unk58) + (le_u16(p.unk6) + (le_u16(p.unk7) + (le_u16(p.unk59) + (le_u16(p.smplfmt) + (enc_u8(p.unk9) + (enc_bool(p.smplloop) + (le_u16(p.unk10) + (le_u16(p.unk11) + (le_u16(p.unk12) + (le_u32(p.unk13) + (le_u32(p.smplrate) + (le_u32(p.smplpos) + (le_u32(p.loopbeg) + (le_u32(p.looplen) + (p.volume_envelope.spec_encode())))))))))))))))))))))));
        lemma_skip_zero(b);
    }
}

impl SampleInfo {
    /// The value that `default` returns.
    pub open spec fn spec_default() -> Self {
        SampleInfo {
            unk1: 0xAA01u16,
            id: 0u16,
            tuning: Tuning::spec_default(),
            rootkey: 0i8,
            ktps: 0i8,
            volume: 0i8,
            pan: 0i8,
            unk5: 0u8,
            unk58: 0x02u8,
            unk6: 0u16,
            unk7: 0xAAAAu16,
            unk59: 0x415u16,
            smplfmt: 0x0100u16,
            unk9: 0x09u8,
            smplloop: false,
            unk10: 0x0801u16,
            unk11: 0x0400u16,
            unk12: 0x0101u16,
            unk13: 0u32,
            smplrate: 0u32,
            smplpos: 0u32,
            loopbeg: 0u32,
            looplen: 0u32,
            volume_envelope: ADSRVolumeEnvelope::spec_default(),
        }
    }
}

impl Default for SampleInfo {
    fn default() -> (r: Self)
        ensures
            r == Self::spec_default(),
    {
        SampleInfo {
            unk1: 0xAA01u16,
            id: 0u16,
            tuning: Tuning::default(),
            rootkey: 0i8,
            ktps: 0i8,
            volume: 0i8,
            pan: 0i8,
            unk5: 0u8,
            unk58: 0x02u8,
            unk6: 0u16,
            unk7: 0xAAAAu16,
            unk59: 0x415u16,
            smplfmt: 0x0100u16,
            unk9: 0x09u8,
            smplloop: false,
            unk10: 0x0801u16,
            unk11: 0x0400u16,
            unk12: 0x0101u16,
            unk13: 0u32,
            smplrate: 0u32,
            smplpos: 0u32,
            loopbeg: 0u32,
            looplen: 0u32,
            volume_envelope: ADSRVolumeEnvelope::default(),
        }
    }
}

impl View for SampleInfo {
    type V = Self;

    open spec fn view(&self) -> Self {
        *self
    }
}

impl ReadWrite for SampleInfo {
    open spec fn spec_write(&self) -> Result<Seq<u8>, DSEError> {
        Ok(self.spec_encode())
    }

    open spec fn spec_read(v: Self, data: Seq<u8>, pos: int) -> Result<(Self, int), DSEError> {
        spec_record_read::<Self>(data, pos)
    }

    open spec fn spec_fresh() -> Self {
        Self::spec_default()
    }

    fn fresh() -> (r: Self) {
        Self::default()
    }

    fn write_to_file(&self, writer: &mut Vec<u8>) -> (res: Result<usize, DSEError>) {
        write_record(self, writer)
    }

    fn read_from_file(&mut self, reader: &mut DataReader) -> (res: Result<(), DSEError>) {
        read_record(self, reader)
    }
}

/// The header of a program of the program table.
#[allow(non_snake_case)]
#[derive(Debug, Clone, PartialEq, Eq)]
pub struct ProgramInfoHeader {
    /// Index of the program.
    pub id: u16,
    /// Number of splits of the program.
    pub nbsplits: u16,
    /// Volume of the program.
    pub prgvol: i8,
    /// Pan of the program (0 left, 64 middle, 127 right).
    pub prgpan: i8,
    pub unk3: u8,
    pub thatFbyte: u8,
    pub unk4: u16,
    pub unk5: u8,
    /// Number of LFOs of the program.
    pub nblfos: u8,
    /// Byte that fills the delimiter between the LFO table and the split table.
    pub PadByte: u8,
    pub unk7: u8,
    pub unk8: u8,
    pub unk9: u8,
}

impl ProgramInfoHeader {
    /// The bytes of a `ProgramInfoHeader`: its fields one after the other in the order
    /// they are declared, integers of more than one byte little-endian unless
    /// written `be_`, a `bool` as 1 or 0.
    pub proof fn lemma_encoding(&self)
        ensures
            self.spec_encode() == le_u16(self.id) + (le_u16(self.nbsplits) + (enc_i8(self.prgvol) + (enc_i8(self.prgpan) + (enc_u8(self.unk3) + (enc_u8(self.thatFbyte) + (le_u16(self.unk4) + (enc_u8(self.unk5) + (enc_u8(self.nblfos) + (enc_u8(self.PadByte) + (enc_u8(self.unk7) + (enc_u8(self.unk8) + (enc_u8(self.unk9))))))))))))),
    {
    }
}

impl AutoReadWrite for ProgramInfoHeader {
    open spec fn spec_size() -> nat {
        16
    }

    closed spec fn spec_encode(&self) -> Seq<u8> {
        le_u16(self.id) + (le_u16(self.nbsplits) + (enc_i8(self.prgvol) + (enc_i8(self.prgpan) + (enc_u8(self.unk3) + (enc_u8(self.thatFbyte) + (le_u16(self.unk4) + (enc_u8(self.unk5) + (enc_u8(self.nblfos) + (enc_u8(self.PadByte) + (enc_u8(self.unk7) + (enc_u8(self.unk8) + (enc_u8(self.unk9)))))))))))))
    }

    closed spec fn spec_parse(b: Seq<u8>) -> Self {
        ProgramInfoHeader {
            id: u16_of(b.subrange(0, 2)),
            nbsplits: u16_of(b.subrange(2, 4)),
            prgvol: i8_of_u8(b.subrange(4, 5)[0]),
            prgpan: i8_of_u8(b.subrange(5, 6)[0]),
            unk3: b.subrange(6, 7)[0],
            thatFbyte: b.subrange(7, 8)[0],
            unk4: u16_of(b.subrange(8, 10)),
            unk5: b.subrange(10, 11)[0],
            nblfos: b.subrange(11, 12)[0],
            PadByte: b.subrange(12, 13)[0],
            unk7: b.subrange(13, 14)[0],
            unk8: b.subrange(14, 15)[0],
            unk9: b.subrange(15, 16)[0],
        }
    }

    open spec fn spec_canonical(b: Seq<u8>) -> bool {
        true
    }

    fn byte_len() -> (n: usize) {
        16
    }

    fn encode_fields(&self, out: &mut Vec<u8>) {
        let ghost s0 = out@;
        push_u16(out, self.id);
        proof { vstd::seq_lib::lemma_concat_associative(s0, le_u16(self.id), le_u16(self.nbsplits) + (enc_i8(self.prgvol) + (enc_i8(self.prgpan) + (enc_u8(self.unk3) + (enc_u8(self.thatFbyte) + (le_u16(self.unk4) + (enc_u8(self.unk5) + (enc_u8(self.nblfos) + (enc_u8(self.PadByte) + (enc_u8(self.unk7) + (enc_u8(self.unk8) + (enc_u8(self.unk9))))))))))))); }
        let ghost s1 = out@;
        push_u16(out, self.nbsplits);
        proof { vstd::seq_lib::lemma_concat_associative(s1, le_u16(self.nbsplits), enc_i8(self.prgvol) + (enc_i8(self.prgpan) + (enc_u8(self.unk3) + (enc_u8(self.thatFbyte) + (le_u16(self.unk4) + (enc_u8(self.unk5) + (enc_u8(self.nblfos) + (enc_u8(self.PadByte) + (enc_u8(self.unk7) + (enc_u8(self.unk8) + (enc_u8(self.unk9)))))))))))); }
        let ghost s2 = out@;
        push_i8(out, self.prgvol);
        proof { vstd::seq_lib::lemma_concat_associative(s2, enc_i8(self.prgvol), enc_i8(self.prgpan) + (enc_u8(self.unk3) + (enc_u8(self.thatFbyte) + (le_u16(self.unk4) + (enc_u8(self.unk5) + (enc_u8(self.nblfos) + (enc_u8(self.PadByte) + (enc_u8(self.unk7) + (enc_u8(self.unk8) + (enc_u8(self.unk9))))))))))); }
        let ghost s3 = out@;
        push_i8(out, self.prgpan);
        proof { vstd::seq_lib::lemma_concat_associative(s3, enc_i8(self.prgpan), enc_u8(self.unk3) + (enc_u8(self.thatFbyte) + (le_u16(self.unk4) + (enc_u8(self.unk5) + (enc_u8(self.nblfos) + (enc_u8(self.PadByte) + (enc_u8(self.unk7) + (enc_u8(self.unk8) + (enc_u8(self.unk9)))))))))); }
        let ghost s4 = out@;
        push_u8(out, self.unk3);
        proof { vstd::seq_lib::lemma_concat_associative(s4, enc_u8(self.unk3), enc_u8(self.thatFbyte) + (le_u16(self.unk4) + (enc_u8(self.unk5) + (enc_u8(self.nblfos) + (enc_u8(self.PadByte) + (enc_u8(self.unk7) + (enc_u8(self.unk8) + (enc_u8(self.unk9))))))))); }
        let ghost s5 = out@;
        push_u8(out, self.thatFbyte);
        proof { vstd::seq_lib::lemma_concat_associative(s5, enc_u8(self.thatFbyte), le_u16(self.unk4) + (enc_u8(self.unk5) + (enc_u8(self.nblfos) + (enc_u8(self.PadByte) + (enc_u8(self.unk7) + (enc_u8(self.unk8) + (enc_u8(self.unk9)))))))); }
        let ghost s6 = out@;
        push_u16(out, self.unk4);
        proof { vstd::seq_lib::lemma_concat_associative(s6, le_u16(self.unk4), enc_u8(self.unk5) + (enc_u8(self.nblfos) + (enc_u8(self.PadByte) + (enc_u8(self.unk7) + (enc_u8(self.unk8) + (enc_u8(self.unk9))))))); }
        let ghost s7 = out@;
        push_u8(out, self.unk5);
        proof { vstd::seq_lib::lemma_concat_associative(s7, enc_u8(self.unk5), enc_u8(self.nblfos) + (enc_u8(self.PadByte) + (enc_u8(self.unk7) + (enc_u8(self.unk8) + (enc_u8(self.unk9)))))); }
        let ghost s8 = out@;
        push_u8(out, self.nblfos);
        proof { vstd::seq_lib::lemma_concat_associative(s8, enc_u8(self.nblfos), enc_u8(self.PadByte) + (enc_u8(self.unk7) + (enc_u8(self.unk8) + (enc_u8(self.unk9))))); }
        let ghost s9 = out@;
        push_u8(out, self.PadByte);
        proof { vstd::seq_lib::lemma_concat_associative(s9, enc_u8(self.PadByte), enc_u8(self.unk7) + (enc_u8(self.unk8) + (enc_u8(self.unk9)))); }
        let ghost s10 = out@;
        push_u8(out, self.unk7);
        proof { vstd::seq_lib::lemma_concat_associative(s10, enc_u8(self.unk7), enc_u8(self.unk8) + (enc_u8(self.unk9))); }
        let ghost s11 = out@;
        push_u8(out, self.unk8);
        proof { vstd::seq_lib::lemma_concat_associative(s11, enc_u8(self.unk8), enc_u8(self.unk9)); }
        let ghost s12 = out@;
        push_u8(out, self.unk9);
    }

    fn decode_fields(d: &[u8], pos: usize) -> (r: Self) {
        let _dlen = d.len();
        let id = get_u16(d, pos + 0);
        let nbsplits = get_u16(d, pos + 2);
        let prgvol = get_i8(d, pos + 4);
        let prgpan = get_i8(d, pos + 5);
        let unk3 = get_u8(d, pos + 6);
        let thatFbyte = get_u8(d, pos + 7);
        let unk4 = get_u16(d, pos + 8);
        let unk5 = get_u8(d, pos + 10);
        let nblfos = get_u8(d, pos + 11);
        let PadByte = get_u8(d, pos + 12);
        let unk7 = get_u8(d, pos + 13);
        let unk8 = get_u8(d, pos + 14);
        let unk9 = get_u8(d, pos + 15);
        proof {
            let b = d@.subrange(pos as int, pos + 16);
            assert(b.subrange(0, 2) =~= d@.subrange(pos + 0, pos + 2));
            assert(b.subrange(2, 4) =~= d@.subrange(pos + 2, pos + 4));
            assert(b.subrange(8, 10) =~= d@.subrange(pos + 8, pos + 10));
        }
        ProgramInfoHeader { id, nbsplits, prgvol, prgpan, unk3, thatFbyte, unk4, unk5, nblfos, PadByte, unk7, unk8, unk9 }
    }

    proof fn lemma_parse_encode(&self) {
        let e = self.spec_encode();
        lemma_skip_zero(e);
        lemma_split_piece(e, 0, le_u16(self.id), le_u16(self.nbsplits) + (enc_i8(self.prgvol) + (enc_i8(self.prgpan) + (enc_u8(self.unk3) + (enc_u8(self.thatFbyte) + (le_u16(self.unk4) + (enc_u8(self.unk5) + (enc_u8(self.nblfos) + (enc_u8(self.PadByte) + (enc_u8(self.unk7) + (enc_u8(self.unk8) + (enc_u8(self.unk9)))))))))))));
        lemma_u16_roundtrip(self.id);
        lemma_split_piece(e, 2, le_u16(self.nbsplits), enc_i8(self.prgvol) + (enc_i8(self.prgpan) + (enc_u8(self.unk3) + (enc_u8(self.thatFbyte) + (le_u16(self.unk4) + (enc_u8(self.unk5) + (enc_u8(self.nblfos) + (enc_u8(self.PadByte) + (enc_u8(self.unk7) + (enc_u8(self.unk8) + (enc_u8(self.unk9))))))))))));
        lemma_u16_roundtrip(self.nbsplits);
        lemma_split_piece(e, 4, enc_i8(self.prgvol), enc_i8(self.prgpan) + (enc_u8(self.unk3) + (enc_u8(self.thatFbyte) + (le_u16(self.unk4) + (enc_u8(self.unk5) + (enc_u8(self.nblfos) + (enc_u8(self.PadByte) + (enc_u8(self.unk7) + (enc_u8(self.unk8) + (enc_u8(self.unk9)))))))))));
        lemma_i8_roundtrip(self.prgvol);
        lemma_split_piece(e, 5, enc_i8(self.prgpan), enc_u8(self.unk3) + (enc_u8(self.thatFbyte) + (le_u16(self.unk4) + (enc_u8(self.unk5) + (enc_u8(self.nblfos) + (enc_u8(self.PadByte) + (enc_u8(self.unk7) + (enc_u8(self.unk8) + (enc_u8(self.unk9))))))))));
        lemma_i8_roundtrip(self.prgpan);
        lemma_split_piece(e, 6, enc_u8(self.unk3), enc_u8(self.thatFbyte) + (le_u16(self.unk4) + (enc_u8(self.unk5) + (enc_u8(self.nblfos) + (enc_u8(self.PadByte) + (enc_u8(self.unk7) + (enc_u8(self.unk8) + (enc_u8(self.unk9)))))))));
        lemma_split_piece(e, 7, enc_u8(self.thatFbyte), le_u16(self.unk4) + (enc_u8(self.unk5) + (enc_u8(self.nblfos) + (enc_u8(self.PadByte) + (enc_u8(self.unk7) + (enc_u8(self.unk8) + (enc_u8(self.unk9))))))));
        lemma_split_piece(e, 8, le_u16(self.unk4), enc_u8(self.unk5) + (enc_u8(self.nblfos) + (enc_u8(self.PadByte) + (enc_u8(self.unk7) + (enc_u8(self.unk8) + (enc_u8(self.unk9)))))));
        lemma_u16_roundtrip(self.unk4);
        lemma_split_piece(e, 10, enc_u8(self.unk5), enc_u8(self.nblfos) + (enc_u8(self.PadByte) + (enc_u8(self.unk7) + (enc_u8(self.unk8) + (enc_u8(self.unk9))))));
        lemma_split_piece(e, 11, enc_u8(self.nblfos), enc_u8(self.PadByte) + (enc_u8(self.unk7) + (enc_u8(self.unk8) + (enc_u8(self.unk9)))));
        lemma_split_piece(e, 12, enc_u8(self.PadByte), enc_u8(self.unk7) + (enc_u8(self.unk8) + (enc_u8(self.unk9))));
        lemma_split_piece(e, 13, enc_u8(self.unk7), enc_u8(self.unk8) + (enc_u8(self.unk9)));
        lemma_split_piece(e, 14, enc_u8(self.unk8), enc_u8(self.unk9));
        lemma_split_piece(e, 15, enc_u8(self.unk9), Seq::<u8>::empty());
        assert(enc_u8(self.unk9) + Seq::<u8>::empty() =~= enc_u8(self.unk9));
        assert(Self::spec_parse(e) == *self);
    }

    proof fn lemma_encode_parse(b: Seq<u8>) {
        let p = Self::spec_parse(b);
        lemma_u16_bytes(b.subrange(0, 2));
        assert(le_u16(p.id) =~= b.subrange(0, 2));
        lemma_u16_bytes(b.subrange(2, 4));
        assert(le_u16(p.nbsplits) =~= b.subrange(2, 4));
        lemma_i8_bytes(b[4]);
        assert(enc_i8(p.prgvol) =~= b.subrange(4, 5));
        lemma_i8_bytes(b[5]);
        assert(enc_i8(p.prgpan) =~= b.subrange(5, 6));
        assert(enc_u8(p.unk3) =~= b.subrange(6, 7));
        assert(enc_u8(p.thatFbyte) =~= b.subrange(7, 8));
        lemma_u16_bytes(b.subrange(8, 10));
        assert(le_u16(p.unk4) =~= b.subrange(8, 10));
        assert(enc_u8(p.unk5) =~= b.subrange(10, 11));
        assert(enc_u8(p.nblfos) =~= b.subrange(11, 12));
        assert(enc_u8(p.PadByte) =~= b.subrange(12, 13));
        assert(enc_u8(p.unk7) =~= b.subrange(13, 14));
        assert(enc_u8(p.unk8) =~= b.subrange(14, 15));
        assert(enc_u8(p.unk9) =~= b.subrange(15, 16));
        lemma_skip_tail(b, 15);
        lemma_join_piece(b, 14, enc_u8(p.unk8), enc_u8(p.unk9));
        lemma_join_piece(b, 13, enc_u8(p.unk7), enc_u8(p.unk8) + (enc_u8(p.unk9)));
        lemma_join_piece(b, 12, enc_u8(p.PadByte), enc_u8(p.unk7) + (enc_u8(p.unk8) + (enc_u8(p.unk9))));
        lemma_join_piece(b, 11, enc_u8(p.nblfos), enc_u8(p.PadByte) + (enc_u8(p.unk7) + (enc_u8(p.unk8) + (enc_u8(p.unk9)))));
        lemma_join_piece(b, 10, enc_u8(p.unk5), enc_u8(p.nblfos) + (enc_u8(p.PadByte) + (enc_u8(p.unk7) + (enc_u8(p.unk8) + (enc_u8(p.unk9))))));
        lemma_join_piece(b, 8, le_u16(p.unk4), enc_u8(p.unk5) + (enc_u8(p.nblfos) + (enc_u8(p.PadByte) + (enc_u8(p.unk7) + (enc_u8(p.unk8) + (enc_u8(p.unk9)))))));
        lemma_join_piece(b, 7, enc_u8(p.thatFbyte), le_u16(p.unk4) + (enc_u8(p.unk5) + (enc_u8(p.nblfos) + (enc_u8(p.PadByte) + (enc_u8(p.unk7) + (enc_u8(p.unk8) + (enc_u8(p.unk9))))))));
        lemma_join_piece(b, 6, enc_u8(p.unk3), enc_u8(p.thatFbyte) + (le_u16(p.unk4) + (enc_u8(p.unk5) + (enc_u8(p.nblfos) + (enc_u8(p.PadByte) + (enc_u8(p.unk7) + (enc_u8(p.unk8) + (enc_u8(p.unk9)))))))));
        lemma_join_piece(b, 5, enc_i8(p.prgpan), enc_u8(p.unk3) + (enc_u8(p.thatFbyte) + (le_u16(p.unk4) + (enc_u8(p.unk5) + (enc_u8(p.nblfos) + (enc_u8(p.PadByte) + (enc_u8(p.unk7) + (enc_u8(p.unk8) + (enc_u8(p.unk9))))))))));
        lemma_join_piece(b, 4, enc_i8(p.prgvol), enc_i8(p.prgpan) + (enc_u8(p.unk3) + (enc_u8(p.thatFbyte) + (le_u16(p.unk4) + (enc_u8(p.unk5) + (enc_u8(p.nblfos) + (enc_u8(p.PadByte) + (enc_u8(p.unk7) + (enc_u8(p.unk8) + (enc_u8(p.unk9)))))))))));
        lemma_join_piece(b, 2, le_u16(p.nbsplits), enc_i8(p.prgvol) + (enc_i8(p.prgpan) + (enc_u8(p.unk3) + (enc_u8(p.thatFbyte) + (le_u16(p.unk4) + (enc_u8(p.unk5) + (enc_u8(p.nblfos) + (enc_u8(p.PadByte) + (enc_u8(p.unk7) + (enc_u8(p.unk8) + (enc_u8(p.unk9))))))))))));
        lemma_join_piece(b, 0, le_u16(p.id), le_u16(p.nbsplits) + (enc_i8(p.prgvol) + (enc_i8(p.prgpan) + (enc_u8(p.unk3) + (enc_u8(p.thatFbyte) + (le_u16(p.unk4) + (enc_u8(p.unk5) + (enc_u8(p.nblfos) + (enc_u8(p.PadByte) + (enc_u8(p.unk7) + (enc_u8(p.unk8) + (enc_u8(p.unk9)))))))))))));
        lemma_skip_zero(b);
    }
}

impl ProgramInfoHeader {
    /// The value that `default` returns.
    pub open spec fn spec_default() -> Self {
        ProgramInfoHeader {
            id: 0u16,
            nbsplits: 0u16,
            prgvol: 0i8,
            prgpan: 0i8,
            unk3: 0u8,
            thatFbyte: 0x0Fu8,
            unk4: 0x200u16,
            unk5: 0u8,
            nblfos: 0u8,
            PadByte: 0xAAu8,
            unk7: 0u8,
            unk8: 0u8,
            unk9: 0u8,
        }
    }
}

impl Default for ProgramInfoHeader {
    fn default() -> (r: Self)
        ensures
            r == Self::spec_default(),
    {
        ProgramInfoHeader {
            id: 0u16,
            nbsplits: 0u16,
            prgvol: 0i8,
            prgpan: 0i8,
            unk3: 0u8,
            thatFbyte: 0x0Fu8,
            unk4: 0x200u16,
            unk5: 0u8,
            nblfos: 0u8,
            PadByte: 0xAAu8,
            unk7: 0u8,
            unk8: 0u8,
            unk9: 0u8,
        }
    }
}

impl View for ProgramInfoHeader {
    type V = Self;

    open spec fn view(&self) -> Self {
        *self
    }
}

impl ReadWrite for ProgramInfoHeader {
    open spec fn spec_write(&self) -> Result<Seq<u8>, DSEError> {
        Ok(self.spec_encode())
    }

    open spec fn spec_read(v: Self, data: Seq<u8>, pos: int) -> Result<(Self, int), DSEError> {
        spec_record_read::<Self>(data, pos)
    }

    open spec fn spec_fresh() -> Self {
        Self::spec_default()
    }

    fn fresh() -> (r: Self) {
        Self::default()
    }

    fn write_to_file(&self, writer: &mut Vec<u8>) -> (res: Result<usize, DSEError>) {
        write_record(self, writer)
    }

    fn read_from_file(&mut self, reader: &mut DataReader) -> (res: Result<(), DSEError>) {
        read_record(self, reader)
    }
}

/// A low-frequency oscillator of a program.
#[allow(non_snake_case)]
#[derive(Debug, Clone, PartialEq, Eq)]
pub struct LFOEntry {
    pub unk34: u8,
    /// Usually 1 when the LFO is in use.
    pub unk52: u8,
    /// 0 disabled, 1 pitch, 2 volume, 3 pan, 4 lowpass filter.
    pub dest: u8,
    /// Waveform.
    pub wshape: u8,
    pub rate: u16,
    pub unk29: u16,
    pub depth: u16,
    /// Delay in milliseconds before the LFO applies.
    pub delay: u16,
    pub unk32: u16,
    pub unk33: u16,
}

impl LFOEntry {
    /// The bytes of a `LFOEntry`: its fields one after the other in the order
    /// they are declared, integers of more than one byte little-endian unless
    /// written `be_`, a `bool` as 1 or 0.
    pub proof fn lemma_encoding(&self)
        ensures
            self.spec_encode() == enc_u8(self.unk34) + (enc_u8(self.unk52) + (enc_u8(self.dest) + (enc_u8(self.wshape) + (le_u16(self.rate) + (le_u16(self.unk29) + (le_u16(self.depth) + (le_u16(self.delay) + (le_u16(self.unk32) + (le_u16(self.unk33)))))))))),
    {
    }
}

impl AutoReadWrite for LFOEntry {
    open spec fn spec_size() -> nat {
        16
    }

    closed spec fn spec_encode(&self) -> Seq<u8> {
        enc_u8(self.unk34) + (enc_u8(self.unk52) + (enc_u8(self.dest) + (enc_u8(self.wshape) + (le_u16(self.rate) + (le_u16(self.unk29) + (le_u16(self.depth) + (le_u16(self.delay) + (le_u16(self.unk32) + (le_u16(self.unk33))))))))))
    }

    closed spec fn spec_parse(b: Seq<u8>) -> Self {
        LFOEntry {
            unk34: b.subrange(0, 1)[0],
            unk52: b.subrange(1, 2)[0],
            dest: b.subrange(2, 3)[0],
            wshape: b.subrange(3, 4)[0],
            rate: u16_of(b.subrange(4, 6)),
            unk29: u16_of(b.subrange(6, 8)),
            depth: u16_of(b.subrange(8, 10)),
            delay: u16_of(b.subrange(10, 12)),
            unk32: u16_of(b.subrange(12, 14)),
            unk33: u16_of(b.subrange(14, 16)),
        }
    }

    open spec fn spec_canonical(b: Seq<u8>) -> bool {
        true
    }

    fn byte_len() -> (n: usize) {
        16
    }

    fn encode_fields(&self, out: &mut Vec<u8>) {
        let ghost s0 = out@;
        push_u8(out, self.unk34);
        proof { vstd::seq_lib::lemma_concat_associative(s0, enc_u8(self.unk34), enc_u8(self.unk52) + (enc_u8(self.dest) + (enc_u8(self.wshape) + (le_u16(self.rate) + (le_u16(self.unk29) + (le_u16(self.depth) + (le_u16(self.delay) + (le_u16(self.unk32) + (le_u16(self.unk33)))))))))); }
        let ghost s1 = out@;
        push_u8(out, self.unk52);
        proof { vstd::seq_lib::lemma_concat_associative(s1, enc_u8(self.unk52), enc_u8(self.dest) + (enc_u8(self.wshape) + (le_u16(self.rate) + (le_u16(self.unk29) + (le_u16(self.depth) + (le_u16(self.delay) + (le_u16(self.unk32) + (le_u16(self.unk33))))))))); }
        let ghost s2 = out@;
        push_u8(out, self.dest);
        proof { vstd::seq_lib::lemma_concat_associative(s2, enc_u8(self.dest), enc_u8(self.wshape) + (le_u16(self.rate) + (le_u16(self.unk29) + (le_u16(self.depth) + (le_u16(self.delay) + (le_u16(self.unk32) + (le_u16(self.unk33)))))))); }
        let ghost s3 = out@;
        push_u8(out, self.wshape);
        proof { vstd::seq_lib::lemma_concat_associative(s3, enc_u8(self.wshape), le_u16(self.rate) + (le_u16(self.unk29) + (le_u16(self.depth) + (le_u16(self.delay) + (le_u16(self.unk32) + (le_u16(self.unk33))))))); }
        let ghost s4 = out@;
        push_u16(out, self.rate);
        proof { vstd::seq_lib::lemma_concat_associative(s4, le_u16(self.rate), le_u16(self.unk29) + (le_u16(self.depth) + (le_u16(self.delay) + (le_u16(self.unk32) + (le_u16(self.unk33)))))); }
        let ghost s5 = out@;
        push_u16(out, self.unk29);
        proof { vstd::seq_lib::lemma_concat_associative(s5, le_u16(self.unk29), le_u16(self.depth) + (le_u16(self.delay) + (le_u16(self.unk32) + (le_u16(self.unk33))))); }
        let ghost s6 = out@;
        push_u16(out, self.depth);
        proof { vstd::seq_lib::lemma_concat_associative(s6, le_u16(self.depth), le_u16(self.delay) + (le_u16(self.unk32) + (le_u16(self.unk33)))); }
        let ghost s7 = out@;
        push_u16(out, self.delay);
        proof { vstd::seq_lib::lemma_concat_associative(s7, le_u16(self.delay), le_u16(self.unk32) + (le_u16(self.unk33))); }
        let ghost s8 = out@;
        push_u16(out, self.unk32);
        proof { vstd::seq_lib::lemma_concat_associative(s8, le_u16(self.unk32), le_u16(self.unk33)); }
        let ghost s9 = out@;
        push_u16(out, self.unk33);
    }

    fn decode_fields(d: &[u8], pos: usize) -> (r: Self) {
        let _dlen = d.len();
        let unk34 = get_u8(d, pos + 0);
        let unk52 = get_u8(d, pos + 1);
        let dest = get_u8(d, pos + 2);
        let wshape = get_u8(d, pos + 3);
        let rate = get_u16(d, pos + 4);
        let unk29 = get_u16(d, pos + 6);
        let depth = get_u16(d, pos + 8);
        let delay = get_u16(d, pos + 10);
        let unk32 = get_u16(d, pos + 12);
        let unk33 = get_u16(d, pos + 14);
        proof {
            let b = d@.subrange(pos as int, pos + 16);
            assert(b.subrange(4, 6) =~= d@.subrange(pos + 4, pos + 6));
            assert(b.subrange(6, 8) =~= d@.subrange(pos + 6, pos + 8));
            assert(b.subrange(8, 10) =~= d@.subrange(pos + 8, pos + 10));
            assert(b.subrange(10, 12) =~= d@.subrange(pos + 10, pos + 12));
            assert(b.subrange(12, 14) =~= d@.subrange(pos + 12, pos + 14));
            assert(b.subrange(14, 16) =~= d@.subrange(pos + 14, pos + 16));
        }
        LFOEntry { unk34, unk52, dest, wshape, rate, unk29, depth, delay, unk32, unk33 }
    }

    proof fn lemma_parse_encode(&self) {
        let e = self.spec_encode();
        lemma_skip_zero(e);
        lemma_split_piece(e, 0, enc_u8(self.unk34), enc_u8(self.unk52) + (enc_u8(self.dest) + (enc_u8(self.wshape) + (le_u16(self.rate) + (le_u16(self.unk29) + (le_u16(self.depth) + (le_u16(self.delay) + (le_u16(self.unk32) + (le_u16(self.unk33))))))))));
        lemma_split_piece(e, 1, enc_u8(self.unk52), enc_u8(self.dest) + (enc_u8(self.wshape) + (le_u16(self.rate) + (le_u16(self.unk29) + (le_u16(self.depth) + (le_u16(self.delay) + (le_u16(self.unk32) + (le_u16(self.unk33)))))))));
        lemma_split_piece(e, 2, enc_u8(self.dest), enc_u8(self.wshape) + (le_u16(self.rate) + (le_u16(self.unk29) + (le_u16(self.depth) + (le_u16(self.delay) + (le_u16(self.unk32) + (le_u16(self.unk33))))))));
        lemma_split_piece(e, 3, enc_u8(self.wshape), le_u16(self.rate) + (le_u16(self.unk29) + (le_u16(self.depth) + (le_u16(self.delay) + (le_u16(self.unk32) + (le_u16(self.unk33)))))));
        lemma_split_piece(e, 4, le_u16(self.rate), le_u16(self.unk29) + (le_u16(self.depth) + (le_u16(self.delay) + (le_u16(self.unk32) + (le_u16(self.unk33))))));
        lemma_u16_roundtrip(self.rate);
        lemma_split_piece(e, 6, le_u16(self.unk29), le_u16(self.depth) + (le_u16(self.delay) + (le_u16(self.unk32) + (le_u16(self.unk33)))));
        lemma_u16_roundtrip(self.unk29);
        lemma_split_piece(e, 8, le_u16(self.depth), le_u16(self.delay) + (le_u16(self.unk32) + (le_u16(self.unk33))));
        lemma_u16_roundtrip(self.depth);
        lemma_split_piece(e, 10, le_u16(self.delay), le_u16(self.unk32) + (le_u16(self.unk33)));
        lemma_u16_roundtrip(self.delay);
        lemma_split_piece(e, 12, le_u16(self.unk32), le_u16(self.unk33));
        lemma_u16_roundtrip(self.unk32);
        lemma_split_piece(e, 14, le_u16(self.unk33), Seq::<u8>::empty());
        assert(le_u16(self.unk33) + Seq::<u8>::empty() =~= le_u16(self.unk33));
        lemma_u16_roundtrip(self.unk33);
        assert(Self::spec_parse(e) == *self);
    }

    proof fn lemma_encode_parse(b: Seq<u8>) {
        let p = Self::spec_parse(b);
        assert(enc_u8(p.unk34) =~= b.subrange(0, 1));
        assert(enc_u8(p.unk52) =~= b.subrange(1, 2));
        assert(enc_u8(p.dest) =~= b.subrange(2, 3));
        assert(enc_u8(p.wshape) =~= b.subrange(3, 4));
        lemma_u16_bytes(b.subrange(4, 6));
        assert(le_u16(p.rate) =~= b.subrange(4, 6));
        lemma_u16_bytes(b.subrange(6, 8));
        assert(le_u16(p.unk29) =~= b.subrange(6, 8));
        lemma_u16_bytes(b.subrange(8, 10));
        assert(le_u16(p.depth) =~= b.subrange(8, 10));
        lemma_u16_bytes(b.subrange(10, 12));
        assert(le_u16(p.delay) =~= b.subrange(10, 12));
        lemma_u16_bytes(b.subrange(12, 14));
        assert(le_u16(p.unk32) =~= b.subrange(12, 14));
        lemma_u16_bytes(b.subrange(14, 16));
        assert(le_u16(p.unk33) =~= b.subrange(14, 16));
        lemma_skip_tail(b, 14);
        lemma_join_piece(b, 12, le_u16(p.unk32), le_u16(p.unk33));
        lemma_join_piece(b, 10, le_u16(p.delay), le_u16(p.unk32) + (le_u16(p.unk33)));
        lemma_join_piece(b, 8, le_u16(p.depth), le_u16(p.delay) + (le_u16(p.unk32) + (le_u16(p.unk33))));
        lemma_join_piece(b, 6, le_u16(p.unk29), le_u16(p.depth) + (le_u16(p.delay) + (le_u16(p.unk32) + (le_u16(p.unk33)))));
        lemma_join_piece(b, 4, le_u16(p.rate), le_u16(p.unk29) + (le_u16(p.depth) + (le_u16(p.delay) + (le_u16(p.unk32) + (le_u16(p.unk33))))));
        lemma_join_piece(b, 3, enc_u8(p.wshape), le_u16(p.rate) + (le_u16(p.unk29) + (le_u16(p.depth) + (le_u16(p.delay) + (le_u16(p.unk32) + (le_u16(p.unk33)))))));
        lemma_join_piece(b, 2, enc_u8(p.dest), enc_u8(p.wshape) + (le_u16(p.rate) + (le_u16(p.unk29) + (le_u16(p.depth) + (le_u16(p.delay) + (le_u16(p.unk32) + (le_u16(p.unk33))))))));
        lemma_join_piece(b, 1, enc_u8(p.unk52), enc_u8(p.dest) + (enc_u8(p.wshape) + (le_u16(p.rate) + (le_u16(p.unk29) + (le_u16(p.depth) + (le_u16(p.delay) + (le_u16(p.unk32) + (le_u16(p.unk33)))))))));
        lemma_join_piece(b, 0, enc_u8(p.unk34), enc_u8(p.unk52) + (enc_u8(p.dest) + (enc_u8(p.wshape) + (le_u16(p.rate) + (le_u16(p.unk29) + (le_u16(p.depth) + (le_u16(p.delay) + (le_u16(p.unk32) + (le_u16(p.unk33))))))))));
        lemma_skip_zero(b);
    }
}

impl LFOEntry {
    /// The value that `default` returns.
    pub open spec fn spec_default() -> Self {
        LFOEntry {
            unk34: 0u8,
            unk52: 0u8,
            dest: 0u8,
            wshape: 1u8,
            rate: 0u16,
            unk29: 0u16,
            depth: 0u16,
            delay: 0u16,
            unk32: 0u16,
            unk33: 0u16,
        }
    }
}

impl Default for LFOEntry {
    fn default() -> (r: Self)
        ensures
            r == Self::spec_default(),
    {
        LFOEntry {
            unk34: 0u8,
            unk52: 0u8,
            dest: 0u8,
            wshape: 1u8,
            rate: 0u16,
            unk29: 0u16,
            depth: 0u16,
            delay: 0u16,
            unk32: 0u16,
            unk33: 0u16,
        }
    }
}

impl View for LFOEntry {
    type V = Self;

    open spec fn view(&self) -> Self {
        *self
    }
}

impl ReadWrite for LFOEntry {
    open spec fn spec_write(&self) -> Result<Seq<u8>, DSEError> {
        Ok(self.spec_encode())
    }

    open spec fn spec_read(v: Self, data: Seq<u8>, pos: int) -> Result<(Self, int), DSEError> {
        spec_record_read::<Self>(data, pos)
    }

    open spec fn spec_fresh() -> Self {
        Self::spec_default()
    }

    fn fresh() -> (r: Self) {
        Self::default()
    }

    fn write_to_file(&self, writer: &mut Vec<u8>) -> (res: Result<usize, DSEError>) {
        write_record(self, writer)
    }

    fn read_from_file(&mut self, reader: &mut DataReader) -> (res: Result<(), DSEError>) {
        read_record(self, reader)
    }
}

/// A split of a program: the sample that plays over a key and velocity range.
#[allow(non_snake_case)]
#[derive(Debug, Clone, PartialEq, Eq)]
pub struct SplitEntry {
    pub unk10: u8,
    /// Index of the split in its program.
    pub id: u8,
    pub unk11: u8,
    pub unk25: u8,
    /// Lowest MIDI key of the split.
    pub lowkey: i8,
    /// Highest MIDI key of the split.
    pub hikey: i8,
    /// Copy of the lowest key.
    pub lowkey2: i8,
    /// Copy of the highest key.
    pub hikey2: i8,
    /// Lowest velocity of the split.
    pub lovel: i8,
    /// Highest velocity of the split.
    pub hivel: i8,
    /// Copy of the lowest velocity.
    pub lovel2: i8,
    /// Copy of the highest velocity.
    pub hivel2: i8,
    pub unk16: u32,
    pub unk17: u16,
    /// Index of the sample in the sample table.
    pub SmplID: u16,
    pub tuning: Tuning,
    /// MIDI key at which the sample plays at its own pitch.
    pub rootkey: i8,
    /// Key transpose: 60 minus the root key.
    pub ktps: i8,
    pub smplvol: i8,
    pub smplpan: i8,
    /// Keygroup of the split.
    pub kgrpid: u8,
    pub unk22: u8,
    pub unk23: u16,
    pub unk24: u16,
    pub volume_envelope: ADSRVolumeEnvelope,
}

impl SplitEntry {
    /// The bytes of a `SplitEntry`: its fields one after the other in the order
    /// they are declared, integers of more than one byte little-endian unless
    /// written `be_`, a `bool` as 1 or 0.
    pub proof fn lemma_encoding(&self)
        ensures
            self.spec_encode() == enc_u8(self.unk10) + (enc_u8(self.id) + (enc_u8(self.unk11) + (enc_u8(self.unk25) + (enc_i8(self.lowkey) + (enc_i8(self.hikey) + (enc_i8(self.lowkey2) + (enc_i8(self.hikey2) + (enc_i8(self.lovel) + (enc_i8(self.hivel) + (enc_i8(self.lovel2) + (enc_i8(self.hivel2) + (le_u32(self.unk16) + (le_u16(self.unk17) + (le_u16(self.SmplID) + (self.tuning.spec_encode() + (enc_i8(self.rootkey) + (enc_i8(self.ktps) + (enc_i8(self.smplvol) + (enc_i8(self.smplpan) + (enc_u8(self.kgrpid) + (enc_u8(self.unk22) + (le_u16(self.unk23) + (le_u16(self.unk24) + (self.volume_envelope.spec_encode())))))))))))))))))))))))),
    {
    }
}

impl AutoReadWrite for SplitEntry {
    open spec fn spec_size() -> nat {
        48
    }

    closed spec fn spec_encode(&self) -> Seq<u8> {
        enc_u8(self.unk10) + (enc_u8(self.id) + (enc_u8(self.unk11) + (enc_u8(self.unk25) + (enc_i8(self.lowkey) + (enc_i8(self.hikey) + (enc_i8(self.lowkey2) + (enc_i8(self.hikey2) + (enc_i8(self.lovel) + (enc_i8(self.hivel) + (enc_i8(self.lovel2) + (enc_i8(self.hivel2) + (le_u32(self.unk16) + (le_u16(self.unk17) + (le_u16(self.SmplID) + (self.tuning.spec_encode() + (enc_i8(self.rootkey) + (enc_i8(self.ktps) + (enc_i8(self.smplvol) + (enc_i8(self.smplpan) + (enc_u8(self.kgrpid) + (enc_u8(self.unk22) + (le_u16(self.unk23) + (le_u16(self.unk24) + (self.volume_envelope.spec_encode()))))))))))))))))))))))))
    }

    closed spec fn spec_parse(b: Seq<u8>) -> Self {
        SplitEntry {
            unk10: b.subrange(0, 1)[0],
            id: b.subrange(1, 2)[0],
            unk11: b.subrange(2, 3)[0],
            unk25: b.subrange(3, 4)[0],
            lowkey: i8_of_u8(b.subrange(4, 5)[0]),
            hikey: i8_of_u8(b.subrange(5, 6)[0]),
            lowkey2: i8_of_u8(b.subrange(6, 7)[0]),
            hikey2: i8_of_u8(b.subrange(7, 8)[0]),
            lovel: i8_of_u8(b.subrange(8, 9)[0]),
            hivel: i8_of_u8(b.subrange(9, 10)[0]),
            lovel2: i8_of_u8(b.subrange(10, 11)[0]),
            hivel2: i8_of_u8(b.subrange(11, 12)[0]),
            unk16: u32_of(b.subrange(12, 16)),
            unk17: u16_of(b.subrange(16, 18)),
            SmplID: u16_of(b.subrange(18, 20)),
            tuning: Tuning::spec_parse(b.subrange(20, 22)),
            rootkey: i8_of_u8(b.subrange(22, 23)[0]),
            ktps: i8_of_u8(b.subrange(23, 24)[0]),
            smplvol: i8_of_u8(b.subrange(24, 25)[0]),
            smplpan: i8_of_u8(b.subrange(25, 26)[0]),
            kgrpid: b.subrange(26, 27)[0],
            unk22: b.subrange(27, 28)[0],
            unk23: u16_of(b.subrange(28, 30)),
            unk24: u16_of(b.subrange(30, 32)),
            volume_envelope: ADSRVolumeEnvelope::spec_parse(b.subrange(32, 48)),
        }
    }

    open spec fn spec_canonical(b: Seq<u8>) -> bool {
        Tuning::spec_canonical(b.subrange(20, 22)) && ADSRVolumeEnvelope::spec_canonical(b.subrange(32, 48))
    }

    fn byte_len() -> (n: usize) {
        48
    }

    #[verifier::spinoff_prover]
    #[verifier::rlimit(100)]
    fn encode_fields(&self, out: &mut Vec<u8>) {
        let ghost s0 = out@;
        push_u8(out, self.unk10);
        proof { vstd::seq_lib::lemma_concat_associative(s0, enc_u8(self.unk10), enc_u8(self.id) + (enc_u8(self.unk11) + (enc_u8(self.unk25) + (enc_i8(self.lowkey) + (enc_i8(self.hikey) + (enc_i8(self.lowkey2) + (enc_i8(self.hikey2) + (enc_i8(self.lovel) + (enc_i8(self.hivel) + (enc_i8(self.lovel2) + (enc_i8(self.hivel2) + (le_u32(self.unk16) + (le_u16(self.unk17) + (le_u16(self.SmplID) + (self.tuning.spec_encode() + (enc_i8(self.rootkey) + (enc_i8(self.ktps) + (enc_i8(self.smplvol) + (enc_i8(self.smplpan) + (enc_u8(self.kgrpid) + (enc_u8(self.unk22) + (le_u16(self.unk23) + (le_u16(self.unk24) + (self.volume_envelope.spec_encode())))))))))))))))))))))))); }
        let ghost s1 = out@;
        push_u8(out, self.id);
        proof { vstd::seq_lib::lemma_concat_associative(s1, enc_u8(self.id), enc_u8(self.unk11) + (enc_u8(self.unk25) + (enc_i8(self.lowkey) + (enc_i8(self.hikey) + (enc_i8(self.lowkey2) + (enc_i8(self.hikey2) + (enc_i8(self.lovel) + (enc_i8(self.hivel) + (enc_i8(self.lovel2) + (enc_i8(self.hivel2) + (le_u32(self.unk16) + (le_u16(self.unk17) + (le_u16(self.SmplID) + (self.tuning.spec_encode() + (enc_i8(self.rootkey) + (enc_i8(self.ktps) + (enc_i8(self.smplvol) + (enc_i8(self.smplpan) + (enc_u8(self.kgrpid) + (enc_u8(self.unk22) + (le_u16(self.unk23) + (le_u16(self.unk24) + (self.volume_envelope.spec_encode()))))))))))))))))))))))); }
        let ghost s2 = out@;
        push_u8(out, self.unk11);
        proof { vstd::seq_lib::lemma_concat_associative(s2, enc_u8(self.unk11), enc_u8(self.unk25) + (enc_i8(self.lowkey) + (enc_i8(self.hikey) + (enc_i8(self.lowkey2) + (enc_i8(self.hikey2) + (enc_i8(self.lovel) + (enc_i8(self.hivel) + (enc_i8(self.lovel2) + (enc_i8(self.hivel2) + (le_u32(self.unk16) + (le_u16(self.unk17) + (le_u16(self.SmplID) + (self.tuning.spec_encode() + (enc_i8(self.rootkey) + (enc_i8(self.ktps) + (enc_i8(self.smplvol) + (enc_i8(self.smplpan) + (enc_u8(self.kgrpid) + (enc_u8(self.unk22) + (le_u16(self.unk23) + (le_u16(self.unk24) + (self.volume_envelope.spec_encode())))))))))))))))))))))); }
        let ghost s3 = out@;
        push_u8(out, self.unk25);
        proof { vstd::seq_lib::lemma_concat_associative(s3, enc_u8(self.unk25), enc_i8(self.lowkey) + (enc_i8(self.hikey) + (enc_i8(self.lowkey2) + (enc_i8(self.hikey2) + (enc_i8(self.lovel) + (enc_i8(self.hivel) + (enc_i8(self.lovel2) + (enc_i8(self.hivel2) + (le_u32(self.unk16) + (le_u16(self.unk17) + (le_u16(self.SmplID) + (self.tuning.spec_encode() + (enc_i8(self.rootkey) + (enc_i8(self.ktps) + (enc_i8(self.smplvol) + (enc_i8(self.smplpan) + (enc_u8(self.kgrpid) + (enc_u8(self.unk22) + (le_u16(self.unk23) + (le_u16(self.unk24) + (self.volume_envelope.spec_encode()))))))))))))))))))))); }
        let ghost s4 = out@;
        push_i8(out, self.lowkey);
        proof { vstd::seq_lib::lemma_concat_associative(s4, enc_i8(self.lowkey), enc_i8(self.hikey) + (enc_i8(self.lowkey2) + (enc_i8(self.hikey2) + (enc_i8(self.lovel) + (enc_i8(self.hivel) + (enc_i8(self.lovel2) + (enc_i8(self.hivel2) + (le_u32(self.unk16) + (le_u16(self.unk17) + (le_u16(self.SmplID) + (self.tuning.spec_encode() + (enc_i8(self.rootkey) + (enc_i8(self.ktps) + (enc_i8(self.smplvol) + (enc_i8(self.smplpan) + (enc_u8(self.kgrpid) + (enc_u8(self.unk22) + (le_u16(self.unk23) + (le_u16(self.unk24) + (self.volume_envelope.spec_encode())))))))))))))))))))); }
        let ghost s5 = out@;
        push_i8(out, self.hikey);
        proof { vstd::seq_lib::lemma_concat_associative(s5, enc_i8(self.hikey), enc_i8(self.lowkey2) + (enc_i8(self.hikey2) + (enc_i8(self.lovel) + (enc_i8(self.hivel) + (enc_i8(self.lovel2) + (enc_i8(self.hivel2) + (le_u32(self.unk16) + (le_u16(self.unk17) + (le_u16(self.SmplID) + (self.tuning.spec_encode() + (enc_i8(self.rootkey) + (enc_i8(self.ktps) + (enc_i8(self.smplvol) + (enc_i8(self.smplpan) + (enc_u8(self.kgrpid) + (enc_u8(self.unk22) + (le_u16(self.unk23) + (le_u16(self.unk24) + (self.volume_envelope.spec_encode()))))))))))))))))))); }
        let ghost s6 = out@;
        push_i8(out, self.lowkey2);
        proof { vstd::seq_lib::lemma_concat_associative(s6, enc_i8(self.lowkey2), enc_i8(self.hikey2) + (enc_i8(self.lovel) + (enc_i8(self.hivel) + (enc_i8(self.lovel2) + (enc_i8(self.hivel2) + (le_u32(self.unk16) + (le_u16(self.unk17) + (le_u16(self.SmplID) + (self.tuning.spec_encode() + (enc_i8(self.rootkey) + (enc_i8(self.ktps) + (enc_i8(self.smplvol) + (enc_i8(self.smplpan) + (enc_u8(self.kgrpid) + (enc_u8(self.unk22) + (le_u16(self.unk23) + (le_u16(self.unk24) + (self.volume_envelope.spec_encode())))))))))))))))))); }
        let ghost s7 = out@;
        push_i8(out, self.hikey2);
        proof { vstd::seq_lib::lemma_concat_associative(s7, enc_i8(self.hikey2), enc_i8(self.lovel) + (enc_i8(self.hivel) + (enc_i8(self.lovel2) + (enc_i8(self.hivel2) + (le_u32(self.unk16) + (le_u16(self.unk17) + (le_u16(self.SmplID) + (self.tuning.spec_encode() + (enc_i8(self.rootkey) + (enc_i8(self.ktps) + (enc_i8(self.smplvol) + (enc_i8(self.smplpan) + (enc_u8(self.kgrpid) + (enc_u8(self.unk22) + (le_u16(self.unk23) + (le_u16(self.unk24) + (self.volume_envelope.spec_encode()))))))))))))))))); }
        let ghost s8 = out@;
        push_i8(out, self.lovel);
        proof { vstd::seq_lib::lemma_concat_associative(s8, enc_i8(self.lovel), enc_i8(self.hivel) + (enc_i8(self.lovel2) + (enc_i8(self.hivel2) + (le_u32(self.unk16) + (le_u16(self.unk17) + (le_u16(self.SmplID) + (self.tuning.spec_encode() + (enc_i8(self.rootkey) + (enc_i8(self.ktps) + (enc_i8(self.smplvol) + (enc_i8(self.smplpan) + (enc_u8(self.kgrpid) + (enc_u8(self.unk22) + (le_u16(self.unk23) + (le_u16(self.unk24) + (self.volume_envelope.spec_encode())))))))))))))))); }
        let ghost s9 = out@;
        push_i8(out, self.hivel);
        proof { vstd::seq_lib::lemma_concat_associative(s9, enc_i8(self.hivel), enc_i8(self.lovel2) + (enc_i8(self.hivel2) + (le_u32(self.unk16) + (le_u16(self.unk17) + (le_u16(self.SmplID) + (self.tuning.spec_encode() + (enc_i8(self.rootkey) + (enc_i8(self.ktps) + (enc_i8(self.smplvol) + (enc_i8(self.smplpan) + (enc_u8(self.kgrpid) + (enc_u8(self.unk22) + (le_u16(self.unk23) + (le_u16(self.unk24) + (self.volume_envelope.spec_encode()))))))))))))))); }
        let ghost s10 = out@;
        push_i8(out, self.lovel2);
        proof { vstd::seq_lib::lemma_concat_associative(s10, enc_i8(self.lovel2), enc_i8(self.hivel2) + (le_u32(self.unk16) + (le_u16(self.unk17) + (le_u16(self.SmplID) + (self.tuning.spec_encode() + (enc_i8(self.rootkey) + (enc_i8(self.ktps) + (enc_i8(self.smplvol) + (enc_i8(self.smplpan) + (enc_u8(self.kgrpid) + (enc_u8(self.unk22) + (le_u16(self.unk23) + (le_u16(self.unk24) + (self.volume_envelope.spec_encode())))))))))))))); }
        let ghost s11 = out@;
        push_i8(out, self.hivel2);
        proof { vstd::seq_lib::lemma_concat_associative(s11, enc_i8(self.hivel2), le_u32(self.unk16) + (le_u16(self.unk17) + (le_u16(self.SmplID) + (self.tuning.spec_encode() + (enc_i8(self.rootkey) + (enc_i8(self.ktps) + (enc_i8(self.smplvol) + (enc_i8(self.smplpan) + (enc_u8(self.kgrpid) + (enc_u8(self.unk22) + (le_u16(self.unk23) + (le_u16(self.unk24) + (self.volume_envelope.spec_encode()))))))))))))); }
        let ghost s12 = out@;
        push_u32(out, self.unk16);
        proof { vstd::seq_lib::lemma_concat_associative(s12, le_u32(self.unk16), le_u16(self.unk17) + (le_u16(self.SmplID) + (self.tuning.spec_encode() + (enc_i8(self.rootkey) + (enc_i8(self.ktps) + (enc_i8(self.smplvol) + (enc_i8(self.smplpan) + (enc_u8(self.kgrpid) + (enc_u8(self.unk22) + (le_u16(self.unk23) + (le_u16(self.unk24) + (self.volume_envelope.spec_encode())))))))))))); }
        let ghost s13 = out@;
        push_u16(out, self.unk17);
        proof { vstd::seq_lib::lemma_concat_associative(s13, le_u16(self.unk17), le_u16(self.SmplID) + (self.tuning.spec_encode() + (enc_i8(self.rootkey) + (enc_i8(self.ktps) + (enc_i8(self.smplvol) + (enc_i8(self.smplpan) + (enc_u8(self.kgrpid) + (enc_u8(self.unk22) + (le_u16(self.unk23) + (le_u16(self.unk24) + (self.volume_envelope.spec_encode()))))))))))); }
        let ghost s14 = out@;
        push_u16(out, self.SmplID);
        proof { vstd::seq_lib::lemma_concat_associative(s14, le_u16(self.SmplID), self.tuning.spec_encode() + (enc_i8(self.rootkey) + (enc_i8(self.ktps) + (enc_i8(self.smplvol) + (enc_i8(self.smplpan) + (enc_u8(self.kgrpid) + (enc_u8(self.unk22) + (le_u16(self.unk23) + (le_u16(self.unk24) + (self.volume_envelope.spec_encode())))))))))); }
        let ghost s15 = out@;
        self.tuning.encode_fields(out);
        proof { vstd::seq_lib::lemma_concat_associative(s15, self.tuning.spec_encode(), enc_i8(self.rootkey) + (enc_i8(self.ktps) + (enc_i8(self.smplvol) + (enc_i8(self.smplpan) + (enc_u8(self.kgrpid) + (enc_u8(self.unk22) + (le_u16(self.unk23) + (le_u16(self.unk24) + (self.volume_envelope.spec_encode()))))))))); }
        let ghost s16 = out@;
        push_i8(out, self.rootkey);
        proof { vstd::seq_lib::lemma_concat_associative(s16, enc_i8(self.rootkey), enc_i8(self.ktps) + (enc_i8(self.smplvol) + (enc_i8(self.smplpan) + (enc_u8(self.kgrpid) + (enc_u8(self.unk22) + (le_u16(self.unk23) + (le_u16(self.unk24) + (self.volume_envelope.spec_encode())))))))); }
        let ghost s17 = out@;
        push_i8(out, self.ktps);
        proof { vstd::seq_lib::lemma_concat_associative(s17, enc_i8(self.ktps), enc_i8(self.smplvol) + (enc_i8(self.smplpan) + (enc_u8(self.kgrpid) + (enc_u8(self.unk22) + (le_u16(self.unk23) + (le_u16(self.unk24) + (self.volume_envelope.spec_encode()))))))); }
        let ghost s18 = out@;
        push_i8(out, self.smplvol);
        proof { vstd::seq_lib::lemma_concat_associative(s18, enc_i8(self.smplvol), enc_i8(self.smplpan) + (enc_u8(self.kgrpid) + (enc_u8(self.unk22) + (le_u16(self.unk23) + (le_u16(self.unk24) + (self.volume_envelope.spec_encode())))))); }
        let ghost s19 = out@;
        push_i8(out, self.smplpan);
        proof { vstd::seq_lib::lemma_concat_associative(s19, enc_i8(self.smplpan), enc_u8(self.kgrpid) + (enc_u8(self.unk22) + (le_u16(self.unk23) + (le_u16(self.unk24) + (self.volume_envelope.spec_encode()))))); }
        let ghost s20 = out@;
        push_u8(out, self.kgrpid);
        proof { vstd::seq_lib::lemma_concat_associative(s20, enc_u8(self.kgrpid), enc_u8(self.unk22) + (le_u16(self.unk23) + (le_u16(self.unk24) + (self.volume_envelope.spec_encode())))); }
        let ghost s21 = out@;
        push_u8(out, self.unk22);
        proof { vstd::seq_lib::lemma_concat_associative(s21, enc_u8(self.unk22), le_u16(self.unk23) + (le_u16(self.unk24) + (self.volume_envelope.spec_encode()))); }
        let ghost s22 = out@;
        push_u16(out, self.unk23);
        proof { vstd::seq_lib::lemma_concat_associative(s22, le_u16(self.unk23), le_u16(self.unk24) + (self.volume_envelope.spec_encode())); }
        let ghost s23 = out@;
        push_u16(out, self.unk24);
        proof { vstd::seq_lib::lemma_concat_associative(s23, le_u16(self.unk24), self.volume_envelope.spec_encode()); }
        let ghost s24 = out@;
        self.volume_envelope.encode_fields(out);
    }

    #[verifier::spinoff_prover]
    #[verifier::rlimit(100)]
    fn decode_fields(d: &[u8], pos: usize) -> (r: Self) {
        let _dlen = d.len();
        let unk10 = get_u8(d, pos + 0);
        let id = get_u8(d, pos + 1);
        let unk11 = get_u8(d, pos + 2);
        let unk25 = get_u8(d, pos + 3);
        let lowkey = get_i8(d, pos + 4);
        let hikey = get_i8(d, pos + 5);
        let lowkey2 = get_i8(d, pos + 6);
        let hikey2 = get_i8(d, pos + 7);
        let lovel = get_i8(d, pos + 8);
        let hivel = get_i8(d, pos + 9);
        let lovel2 = get_i8(d, pos + 10);
        let hivel2 = get_i8(d, pos + 11);
        let unk16 = get_u32(d, pos + 12);
        let unk17 = get_u16(d, pos + 16);
        let SmplID = get_u16(d, pos + 18);
        let tuning = Tuning::decode_fields(d, pos + 20);
        let rootkey = get_i8(d, pos + 22);
        let ktps = get_i8(d, pos + 23);
        let smplvol = get_i8(d, pos + 24);
        let smplpan = get_i8(d, pos + 25);
        let kgrpid = get_u8(d, pos + 26);
        let unk22 = get_u8(d, pos + 27);
        let unk23 = get_u16(d, pos + 28);
        let unk24 = get_u16(d, pos + 30);
        let volume_envelope = ADSRVolumeEnvelope::decode_fields(d, pos + 32);
        proof {
            let b = d@.subrange(pos as int, pos + 48);
            assert(b.subrange(12, 16) =~= d@.subrange(pos + 12, pos + 16));
            assert(b.subrange(16, 18) =~= d@.subrange(pos + 16, pos + 18));
            assert(b.subrange(18, 20) =~= d@.subrange(pos + 18, pos + 20));
            assert(b.subrange(20, 22) =~= d@.subrange(pos + 20, pos + 22));
            assert(b.subrange(28, 30) =~= d@.subrange(pos + 28, pos + 30));
            assert(b.subrange(30, 32) =~= d@.subrange(pos + 30, pos + 32));
            assert(b.subrange(32, 48) =~= d@.subrange(pos + 32, pos + 48));
        }
        SplitEntry { unk10, id, unk11, unk25, lowkey, hikey, lowkey2, hikey2, lovel, hivel, lovel2, hivel2, unk16, unk17, SmplID, tuning, rootkey, ktps, smplvol, smplpan, kgrpid, unk22, unk23, unk24, volume_envelope }
    }

    #[verifier::spinoff_prover]
    #[verifier::rlimit(100)]
    proof fn lemma_parse_encode(&self) {
        let e = self.spec_encode();
        lemma_skip_zero(e);
        lemma_split_piece(e, 0, enc_u8(self.unk10), enc_u8(self.id) + (enc_u8(self.unk11) + (enc_u8(self.unk25) + (enc_i8(self.lowkey) + (enc_i8(self.hikey) + (enc_i8(self.lowkey2) + (enc_i8(self.hikey2) + (enc_i8(self.lovel) + (enc_i8(self.hivel) + (enc_i8(self.lovel2) + (enc_i8(self.hivel2) + (le_u32(self.unk16) + (le_u16(self.unk17) + (le_u16(self.SmplID) + (self.tuning.spec_encode() + (enc_i8(self.rootkey) + (enc_i8(self.ktps) + (enc_i8(self.smplvol) + (enc_i8(self.smplpan) + (enc_u8(self.kgrpid) + (enc_u8(self.unk22) + (le_u16(self.unk23) + (le_u16(self.unk24) + (self.volume_envelope.spec_encode()))))))))))))))))))))))));
        lemma_split_piece(e, 1, enc_u8(self.id), enc_u8(self.unk11) + (enc_u8(self.unk25) + (enc_i8(self.lowkey) + (enc_i8(self.hikey) + (enc_i8(self.lowkey2) + (enc_i8(self.hikey2) + (enc_i8(self.lovel) + (enc_i8(self.hivel) + (enc_i8(self.lovel2) + (enc_i8(self.hivel2) + (le_u32(self.unk16) + (le_u16(self.unk17) + (le_u16(self.SmplID) + (self.tuning.spec_encode() + (enc_i8(self.rootkey) + (enc_i8(self.ktps) + (enc_i8(self.smplvol) + (enc_i8(self.smplpan) + (enc_u8(self.kgrpid) + (enc_u8(self.unk22) + (le_u16(self.unk23) + (le_u16(self.unk24) + (self.volume_envelope.spec_encode())))))))))))))))))))))));
        lemma_split_piece(e, 2, enc_u8(self.unk11), enc_u8(self.unk25) + (enc_i8(self.lowkey) + (enc_i8(self.hikey) + (enc_i8(self.lowkey2) + (enc_i8(self.hikey2) + (enc_i8(self.lovel) + (enc_i8(self.hivel) + (enc_i8(self.lovel2) + (enc_i8(self.hivel2) + (le_u32(self.unk16) + (le_u16(self.unk17) + (le_u16(self.SmplID) + (self.tuning.spec_encode() + (enc_i8(self.rootkey) + (enc_i8(self.ktps) + (enc_i8(self.smplvol) + (enc_i8(self.smplpan) + (enc_u8(self.kgrpid) + (enc_u8(self.unk22) + (le_u16(self.unk23) + (le_u16(self.unk24) + (self.volume_envelope.spec_encode()))))))))))))))))))))));
        lemma_split_piece(e, 3, enc_u8(self.unk25), enc_i8(self.lowkey) + (enc_i8(self.hikey) + (enc_i8(self.lowkey2) + (enc_i8(self.hikey2) + (enc_i8(self.lovel) + (enc_i8(self.hivel) + (enc_i8(self.lovel2) + (enc_i8(self.hivel2) + (le_u32(self.unk16) + (le_u16(self.unk17) + (le_u16(self.SmplID) + (self.tuning.spec_encode() + (enc_i8(self.rootkey) + (enc_i8(self.ktps) + (enc_i8(self.smplvol) + (enc_i8(self.smplpan) + (enc_u8(self.kgrpid) + (enc_u8(self.unk22) + (le_u16(self.unk23) + (le_u16(self.unk24) + (self.volume_envelope.spec_encode())))))))))))))))))))));
        lemma_split_piece(e, 4, enc_i8(self.lowkey), enc_i8(self.hikey) + (enc_i8(self.lowkey2) + (enc_i8(self.hikey2) + (enc_i8(self.lovel) + (enc_i8(self.hivel) + (enc_i8(self.lovel2) + (enc_i8(self.hivel2) + (le_u32(self.unk16) + (le_u16(self.unk17) + (le_u16(self.SmplID) + (self.tuning.spec_encode() + (enc_i8(self.rootkey) + (enc_i8(self.ktps) + (enc_i8(self.smplvol) + (enc_i8(self.smplpan) + (enc_u8(self.kgrpid) + (enc_u8(self.unk22) + (le_u16(self.unk23) + (le_u16(self.unk24) + (self.volume_envelope.spec_encode()))))))))))))))))))));
        lemma_i8_roundtrip(self.lowkey);
        lemma_split_piece(e, 5, enc_i8(self.hikey), enc_i8(self.lowkey2) + (enc_i8(self.hikey2) + (enc_i8(self.lovel) + (enc_i8(self.hivel) + (enc_i8(self.lovel2) + (enc_i8(self.hivel2) + (le_u32(self.unk16) + (le_u16(self.unk17) + (le_u16(self.SmplID) + (self.tuning.spec_encode() + (enc_i8(self.rootkey) + (enc_i8(self.ktps) + (enc_i8(self.smplvol) + (enc_i8(self.smplpan) + (enc_u8(self.kgrpid) + (enc_u8(self.unk22) + (le_u16(self.unk23) + (le_u16(self.unk24) + (self.volume_envelope.spec_encode())))))))))))))))))));
        lemma_i8_roundtrip(self.hikey);
        lemma_split_piece(e, 6, enc_i8(self.lowkey2), enc_i8(self.hikey2) + (enc_i8(self.lovel) + (enc_i8(self.hivel) + (enc_i8(self.lovel2) + (enc_i8(self.hivel2) + (le_u32(self.unk16) + (le_u16(self.unk17) + (le_u16(self.SmplID) + (self.tuning.spec_encode() + (enc_i8(self.rootkey) + (enc_i8(self.ktps) + (enc_i8(self.smplvol) + (enc_i8(self.smplpan) + (enc_u8(self.kgrpid) + (enc_u8(self.unk22) + (le_u16(self.unk23) + (le_u16(self.unk24) + (self.volume_envelope.spec_encode()))))))))))))))))));
        lemma_i8_roundtrip(self.lowkey2);
        lemma_split_piece(e, 7, enc_i8(self.hikey2), enc_i8(self.lovel) + (enc_i8(self.hivel) + (enc_i8(self.lovel2) + (enc_i8(self.hivel2) + (le_u32(self.unk16) + (le_u16(self.unk17) + (le_u16(self.SmplID) + (self.tuning.spec_encode() + (enc_i8(self.rootkey) + (enc_i8(self.ktps) + (enc_i8(self.smplvol) + (enc_i8(self.smplpan) + (enc_u8(self.kgrpid) + (enc_u8(self.unk22) + (le_u16(self.unk23) + (le_u16(self.unk24) + (self.volume_envelope.spec_encode())))))))))))))))));
        lemma_i8_roundtrip(self.hikey2);
        lemma_split_piece(e, 8, enc_i8(self.lovel), enc_i8(self.hivel) + (enc_i8(self.lovel2) + (enc_i8(self.hivel2) + (le_u32(self.unk16) + (le_u16(self.unk17) + (le_u16(self.SmplID) + (self.tuning.spec_encode() + (enc_i8(self.rootkey) + (enc_i8(self.ktps) + (enc_i8(self.smplvol) + (enc_i8(self.smplpan) + (enc_u8(self.kgrpid) + (enc_u8(self.unk22) + (le_u16(self.unk23) + (le_u16(self.unk24) + (self.volume_envelope.spec_encode()))))))))))))))));
        lemma_i8_roundtrip(self.lovel);
        lemma_split_piece(e, 9, enc_i8(self.hivel), enc_i8(self.lovel2) + (enc_i8(self.hivel2) + (le_u32(self.unk16) + (le_u16(self.unk17) + (le_u16(self.SmplID) + (self.tuning.spec_encode() + (enc_i8(self.rootkey) + (enc_i8(self.ktps) + (enc_i8(self.smplvol) + (enc_i8(self.smplpan) + (enc_u8(self.kgrpid) + (enc_u8(self.unk22) + (le_u16(self.unk23) + (le_u16(self.unk24) + (self.volume_envelope.spec_encode())))))))))))))));
        lemma_i8_roundtrip(self.hivel);
        lemma_split_piece(e, 10, enc_i8(self.lovel2), enc_i8(self.hivel2) + (le_u32(self.unk16) + (le_u16(self.unk17) + (le_u16(self.SmplID) + (self.tuning.spec_encode() + (enc_i8(self.rootkey) + (enc_i8(self.ktps) + (enc_i8(self.smplvol) + (enc_i8(self.smplpan) + (enc_u8(self.kgrpid) + (enc_u8(self.unk22) + (le_u16(self.unk23) + (le_u16(self.unk24) + (self.volume_envelope.spec_encode()))))))))))))));
        lemma_i8_roundtrip(self.lovel2);
        lemma_split_piece(e, 11, enc_i8(self.hivel2), le_u32(self.unk16) + (le_u16(self.unk17) + (le_u16(self.SmplID) + (self.tuning.spec_encode() + (enc_i8(self.rootkey) + (enc_i8(self.ktps) + (enc_i8(self.smplvol) + (enc_i8(self.smplpan) + (enc_u8(self.kgrpid) + (enc_u8(self.unk22) + (le_u16(self.unk23) + (le_u16(self.unk24) + (self.volume_envelope.spec_encode())))))))))))));
        lemma_i8_roundtrip(self.hivel2);
        lemma_split_piece(e, 12, le_u32(self.unk16), le_u16(self.unk17) + (le_u16(self.SmplID) + (self.tuning.spec_encode() + (enc_i8(self.rootkey) + (enc_i8(self.ktps) + (enc_i8(self.smplvol) + (enc_i8(self.smplpan) + (enc_u8(self.kgrpid) + (enc_u8(self.unk22) + (le_u16(self.unk23) + (le_u16(self.unk24) + (self.volume_envelope.spec_encode()))))))))))));
        lemma_u32_roundtrip(self.unk16);
        lemma_split_piece(e, 16, le_u16(self.unk17), le_u16(self.SmplID) + (self.tuning.spec_encode() + (enc_i8(self.rootkey) + (enc_i8(self.ktps) + (enc_i8(self.smplvol) + (enc_i8(self.smplpan) + (enc_u8(self.kgrpid) + (enc_u8(self.unk22) + (le_u16(self.unk23) + (le_u16(self.unk24) + (self.volume_envelope.spec_encode())))))))))));
        lemma_u16_roundtrip(self.unk17);
        lemma_split_piece(e, 18, le_u16(self.SmplID), self.tuning.spec_encode() + (enc_i8(self.rootkey) + (enc_i8(self.ktps) + (enc_i8(self.smplvol) + (enc_i8(self.smplpan) + (enc_u8(self.kgrpid) + (enc_u8(self.unk22) + (le_u16(self.unk23) + (le_u16(self.unk24) + (self.volume_envelope.spec_encode()))))))))));
        lemma_u16_roundtrip(self.SmplID);
        lemma_split_piece(e, 20, self.tuning.spec_encode(), enc_i8(self.rootkey) + (enc_i8(self.ktps) + (enc_i8(self.smplvol) + (enc_i8(self.smplpan) + (enc_u8(self.kgrpid) + (enc_u8(self.unk22) + (le_u16(self.unk23) + (le_u16(self.unk24) + (self.volume_envelope.spec_encode())))))))));
        self.tuning.lemma_parse_encode();
        lemma_split_piece(e, 22, enc_i8(self.rootkey), enc_i8(self.ktps) + (enc_i8(self.smplvol) + (enc_i8(self.smplpan) + (enc_u8(self.kgrpid) + (enc_u8(self.unk22) + (le_u16(self.unk23) + (le_u16(self.unk24) + (self.volume_envelope.spec_encode()))))))));
        lemma_i8_roundtrip(self.rootkey);
        lemma_split_piece(e, 23, enc_i8(self.ktps), enc_i8(self.smplvol) + (enc_i8(self.smplpan) + (enc_u8(self.kgrpid) + (enc_u8(self.unk22) + (le_u16(self.unk23) + (le_u16(self.unk24) + (self.volume_envelope.spec_encode())))))));
        lemma_i8_roundtrip(self.ktps);
        lemma_split_piece(e, 24, enc_i8(self.smplvol), enc_i8(self.smplpan) + (enc_u8(self.kgrpid) + (enc_u8(self.unk22) + (le_u16(self.unk23) + (le_u16(self.unk24) + (self.volume_envelope.spec_encode()))))));
        lemma_i8_roundtrip(self.smplvol);
        lemma_split_piece(e, 25, enc_i8(self.smplpan), enc_u8(self.kgrpid) + (enc_u8(self.unk22) + (le_u16(self.unk23) + (le_u16(self.unk24) + (self.volume_envelope.spec_encode())))));
        lemma_i8_roundtrip(self.smplpan);
        lemma_split_piece(e, 26, enc_u8(self.kgrpid), enc_u8(self.unk22) + (le_u16(self.unk23) + (le_u16(self.unk24) + (self.volume_envelope.spec_encode()))));
        lemma_split_piece(e, 27, enc_u8(self.unk22), le_u16(self.unk23) + (le_u16(self.unk24) + (self.volume_envelope.spec_encode())));
        lemma_split_piece(e, 28, le_u16(self.unk23), le_u16(self.unk24) + (self.volume_envelope.spec_encode()));
        lemma_u16_roundtrip(self.unk23);
        lemma_split_piece(e, 30, le_u16(self.unk24), self.volume_envelope.spec_encode());
        lemma_u16_roundtrip(self.unk24);
        lemma_split_piece(e, 32, self.volume_envelope.spec_encode(), Seq::<u8>::empty());
        assert(self.volume_envelope.spec_encode() + Seq::<u8>::empty() =~= self.volume_envelope.spec_encode());
        self.volume_envelope.lemma_parse_encode();
        assert(Self::spec_parse(e) == *self);
    }

    #[verifier::spinoff_prover]
    #[verifier::rlimit(100)]
    proof fn lemma_encode_parse(b: Seq<u8>) {
        let p = Self::spec_parse(b);
        assert(enc_u8(p.unk10) =~= b.subrange(0, 1));
        assert(enc_u8(p.id) =~= b.subrange(1, 2));
        assert(enc_u8(p.unk11) =~= b.subrange(2, 3));
        assert(enc_u8(p.unk25) =~= b.subrange(3, 4));
        lemma_i8_bytes(b[4]);
        assert(enc_i8(p.lowkey) =~= b.subrange(4, 5));
        lemma_i8_bytes(b[5]);
        assert(enc_i8(p.hikey) =~= b.subrange(5, 6));
        lemma_i8_bytes(b[6]);
        assert(enc_i8(p.lowkey2) =~= b.subrange(6, 7));
        lemma_i8_bytes(b[7]);
        assert(enc_i8(p.hikey2) =~= b.subrange(7, 8));
        lemma_i8_bytes(b[8]);
        assert(enc_i8(p.lovel) =~= b.subrange(8, 9));
        lemma_i8_bytes(b[9]);
        assert(enc_i8(p.hivel) =~= b.subrange(9, 10));
        lemma_i8_bytes(b[10]);
        assert(enc_i8(p.lovel2) =~= b.subrange(10, 11));
        lemma_i8_bytes(b[11]);
        assert(enc_i8(p.hivel2) =~= b.subrange(11, 12));
        lemma_u32_bytes(b.subrange(12, 16));
        assert(le_u32(p.unk16) =~= b.subrange(12, 16));
        lemma_u16_bytes(b.subrange(16, 18));
        assert(le_u16(p.unk17) =~= b.subrange(16, 18));
        lemma_u16_bytes(b.subrange(18, 20));
        assert(le_u16(p.SmplID) =~= b.subrange(18, 20));
        Tuning::lemma_encode_parse(b.subrange(20, 22));
        assert(p.tuning.spec_encode() =~= b.subrange(20, 22));
        lemma_i8_bytes(b[22]);
        assert(enc_i8(p.rootkey) =~= b.subrange(22, 23));
        lemma_i8_bytes(b[23]);
        assert(enc_i8(p.ktps) =~= b.subrange(23, 24));
        lemma_i8_bytes(b[24]);
        assert(enc_i8(p.smplvol) =~= b.subrange(24, 25));
        lemma_i8_bytes(b[25]);
        assert(enc_i8(p.smplpan) =~= b.subrange(25, 26));
        assert(enc_u8(p.kgrpid) =~= b.subrange(26, 27));
        assert(enc_u8(p.unk22) =~= b.subrange(27, 28));
        lemma_u16_bytes(b.subrange(28, 30));
        assert(le_u16(p.unk23) =~= b.subrange(28, 30));
        lemma_u16_bytes(b.subrange(30, 32));
        assert(le_u16(p.unk24) =~= b.subrange(30, 32));
        ADSRVolumeEnvelope::lemma_encode_parse(b.subrange(32, 48));
        assert(p.volume_envelope.spec_encode() =~= b.subrange(32, 48));
        lemma_skip_tail(b, 32);
        lemma_join_piece(b, 30, le_u16(p.unk24), p.volume_envelope.spec_encode());
        lemma_join_piece(b, 28, le_u16(p.unk23), le_u16(p.unk24) + (p.volume_envelope.spec_encode()));
        lemma_join_piece(b, 27, enc_u8(p.unk22), le_u16(p.unk23) + (le_u16(p.unk24) + (p.volume_envelope.spec_encode())));
        lemma_join_piece(b, 26, enc_u8(p.kgrpid), enc_u8(p.unk22) + (le_u16(p.unk23) + (le_u16(p.unk24) + (p.volume_envelope.spec_encode()))));
        lemma_join_piece(b, 25, enc_i8(p.smplpan), enc_u8(p.kgrpid) + (enc_u8(p.unk22) + (le_u16(p.unk23) + (le_u16(p.unk24) + (p.volume_envelope.spec_encode())))));
        lemma_join_piece(b, 24, enc_i8(p.smplvol), enc_i8(p.smplpan) + (enc_u8(p.kgrpid) + (enc_u8(p.unk22) + (le_u16(p.unk23) + (le_u16(p.unk24) + (p.volume_envelope.spec_encode()))))));
        lemma_join_piece(b, 23, enc_i8(p.ktps), enc_i8(p.smplvol) + (enc_i8(p.smplpan) + (enc_u8(p.kgrpid) + (enc_u8(p.unk22) + (le_u16(p.unk23) + (le_u16(p.unk24) + (p.volume_envelope.spec_encode())))))));
        lemma_join_piece(b, 22, enc_i8(p.rootkey), enc_i8(p.ktps) + (enc_i8(p.smplvol) + (enc_i8(p.smplpan) + (enc_u8(p.kgrpid) + (enc_u8(p.unk22) + (le_u16(p.unk23) + (le_u16(p.unk24) + (p.volume_envelope.spec_encode()))))))));
        lemma_join_piece(b, 20, p.tuning.spec_encode(), enc_i8(p.rootkey) + (enc_i8(p.ktps) + (enc_i8(p.smplvol) + (enc_i8(p.smplpan) + (enc_u8(p.kgrpid) + (enc_u8(p.unk22) + (le_u16(p.unk23) + (le_u16(p.unk24) + (p.volume_envelope.spec_encode())))))))));
        lemma_join_piece(b, 18, le_u16(p.SmplID), p.tuning.spec_encode() + (enc_i8(p.rootkey) + (enc_i8(p.ktps) + (enc_i8(p.smplvol) + (enc_i8(p.smplpan) + (enc_u8(p.kgrpid) + (enc_u8(p.unk22) + (le_u16(p.unk23) + (le_u16(p.unk24) + (p.volume_envelope.spec_encode()))))))))));
        lemma_join_piece(b, 16, le_u16(p.unk17), le_u16(p.SmplID) + (p.tuning.spec_encode() + (enc_i8(p.rootkey) + (enc_i8(p.ktps) + (enc_i8(p.smplvol) + (enc_i8(p.smplpan) + (enc_u8(p.kgrpid) + (enc_u8(p.unk22) + (le_u16(p.unk23) + (le_u16(p.unk24) + (p.volume_envelope.spec_encode())))))))))));
        lemma_join_piece(b, 12, le_u32(p.unk16), le_u16(p.unk17) + (le_u16(p.SmplID) + (p.tuning.spec_encode() + (enc_i8(p.rootkey) + (enc_i8(p.ktps) + (enc_i8(p.smplvol) + (enc_i8(p.smplpan) + (enc_u8(p.kgrpid) + (enc_u8(p.unk22) + (le_u16(p.unk23) + (le_u16(p.unk24) + (p.volume_envelope.spec_encode()))))))))))));
        lemma_join_piece(b, 11, enc_i8(p.hivel2), le_u32(p.unk16) + (le_u16(p.unk17) + (le_u16(p.SmplID) + (p.tuning.spec_encode() + (enc_i8(p.rootkey) + (enc_i8(p.ktps) + (enc_i8(p.smplvol) + (enc_i8(p.smplpan) + (enc_u8(p.kgrpid) + (enc_u8(p.unk22) + (le_u16(p.unk23) + (le_u16(p.unk24) + (p.volume_envelope.spec_encode())))))))))))));
        lemma_join_piece(b, 10, enc_i8(p.lovel2), enc_i8(p.hivel2) + (le_u32(p.unk16) + (le_u16(p.unk17) + (le_u16(p.SmplID) + (p.tuning.spec_encode() + (enc_i8(p.rootkey) + (enc_i8(p.ktps) + (enc_i8(p.smplvol) + (enc_i8(p.smplpan) + (enc_u8(p.kgrpid) + (enc_u8(p.unk22) + (le_u16(p.unk23) + (le_u16(p.unk24) + (p.volume_envelope.spec_encode()))))))))))))));
        lemma_join_piece(b, 9, enc_i8(p.hivel), enc_i8(p.lovel2) + (enc_i8(p.hivel2) + (le_u32(p.unk16) + (le_u16(p.unk17) + (le_u16(p.SmplID) + (p.tuning.spec_encode() + (enc_i8(p.rootkey) + (enc_i8(p.ktps) + (enc_i8(p.smplvol) + (enc_i8(p.smplpan) + (enc_u8(p.kgrpid) + (enc_u8(p.unk22) + (le_u16(p.unk23) + (le_u16(p.unk24) + (p.volume_envelope.spec_encode())))))))))))))));
        lemma_join_piece(b, 8, enc_i8(p.lovel), enc_i8(p.hivel) + (enc_i8(p.lovel2) + (enc_i8(p.hivel2) + (le_u32(p.unk16) + (le_u16(p.unk17) + (le_u16(p.SmplID) + (p.tuning.spec_encode() + (enc_i8(p.rootkey) + (enc_i8(p.ktps) + (enc_i8(p.smplvol) + (enc_i8(p.smplpan) + (enc_u8(p.kgrpid) + (enc_u8(p.unk22) + (le_u16(p.unk23) + (le_u16(p.unk24) + (p.volume_envelope.spec_encode()))))))))))))))));
        lemma_join_piece(b, 7, enc_i8(p.hikey2), enc_i8(p.lovel) + (enc_i8(p.hivel) + (enc_i8(p.lovel2) + (enc_i8(p.hivel2) + (le_u32(p.unk16) + (le_u16(p.unk17) + (le_u16(p.SmplID) + (p.tuning.spec_encode() + (enc_i8(p.rootkey) + (enc_i8(p.ktps) + (enc_i8(p.smplvol) + (enc_i8(p.smplpan) + (enc_u8(p.kgrpid) + (enc_u8(p.unk22) + (le_u16(p.unk23) + (le_u16(p.unk24) + (p.volume_envelope.spec_encode())))))))))))))))));
        lemma_join_piece(b, 6, enc_i8(p.lowkey2), enc_i8(p.hikey2) + (enc_i8(p.lovel) + (enc_i8(p.hivel) + (enc_i8(p.lovel2) + (enc_i8(p.hivel2) + (le_u32(p.unk16) + (le_u16(p.unk17) + (le_u16(p.SmplID) + (p.tuning.spec_encode() + (enc_i8(p.rootkey) + (enc_i8(p.ktps) + (enc_i8(p.smplvol) + (enc_i8(p.smplpan) + (enc_u8(p.kgrpid) + (enc_u8(p.unk22) + (le_u16(p.unk23) + (le_u16(p.unk24) + (p.volume_envelope.spec_encode()))))))))))))))))));
        lemma_join_piece(b, 5, enc_i8(p.hikey), enc_i8(p.lowkey2) + (enc_i8(p.hikey2) + (enc_i8(p.lovel) + (enc_i8(p.hivel) + (enc_i8(p.lovel2) + (enc_i8(p.hivel2) + (le_u32(p.unk16) + (le_u16(p.unk17) + (le_u16(p.SmplID) + (p.tuning.spec_encode() + (enc_i8(p.rootkey) + (enc_i8(p.ktps) + (enc_i8(p.smplvol) + (enc_i8(p.smplpan) + (enc_u8(p.kgrpid) + (enc_u8(p.unk22) + (le_u16(p.unk23) + (le_u16(p.unk24) + (p.volume_envelope.spec_encode())))))))))))))))))));
        lemma_join_piece(b, 4, enc_i8(p.lowkey), enc_i8(p.hikey) + (enc_i8(p.lowkey2) + (enc_i8(p.hikey2) + (enc_i8(p.lovel) + (enc_i8(p.hivel) + (enc_i8(p.lovel2) + (enc_i8(p.hivel2) + (le_u32(p.unk16) + (le_u16(p.unk17) + (le_u16(p.SmplID) + (p.tuning.spec_encode() + (enc_i8(p.rootkey) + (enc_i8(p.ktps) + (enc_i8(p.smplvol) + (enc_i8(p.smplpan) + (enc_u8(p.kgrpid) + (enc_u8(p.unk22) + (le_u16(p.unk23) + (le_u16(p.unk24) + (p.volume_envelope.spec_encode()))))))))))))))))))));
        lemma_join_piece(b, 3, enc_u8(p.unk25), enc_i8(p.lowkey) + (enc_i8(p.hikey) + (enc_i8(p.lowkey2) + (enc_i8(p.hikey2) + (enc_i8(p.lovel) + (enc_i8(p.hivel) + (enc_i8(p.lovel2) + (enc_i8(p.hivel2) + (le_u32(p.unk16) + (le_u16(p.unk17) + (le_u16(p.SmplID) + (p.tuning.spec_encode() + (enc_i8(p.rootkey) + (enc_i8(p.ktps) + (enc_i8(p.smplvol) + (enc_i8(p.smplpan) + (enc_u8(p.kgrpid) + (enc_u8(p.unk22) + (le_u16(p.unk23) + (le_u16(p.unk24) + (p.volume_envelope.spec_encode())))))))))))))))))))));
        lemma_join_piece(b, 2, enc_u8(p.unk11), enc_u8(p.unk25) + (enc_i8(p.lowkey) + (enc_i8(p.hikey) + (enc_i8(p.lowkey2) + (enc_i8(p.hikey2) + (enc_i8(p.lovel) + (enc_i8(p.hivel) + (enc_i8(p.lovel2) + (enc_i8(p.hivel2) + (le_u32(p.unk16) + (le_u16(p.unk17) + (le_u16(p.SmplID) + (p.tuning.spec_encode() + (enc_i8(p.rootkey) + (enc_i8(p.ktps) + (enc_i8(p.smplvol) + (enc_i8(p.smplpan) + (enc_u8(p.kgrpid) + (enc_u8(p.unk22) + (le_u16(p.unk23) + (le_u16(p.unk24) + (p.volume_envelope.spec_encode()))))))))))))))))))))));
        lemma_join_piece(b, 1, enc_u8(p.id), enc_u8(p.unk11) + (enc_u8(p.unk25) + (enc_i8(p.lowkey) + (enc_i8(p.hikey) + (enc_i8(p.lowkey2) + (enc_i8(p.hikey2) + (enc_i8(p.lovel) + (enc_i8(p.hivel) + (enc_i8(p.lovel2) + (enc_i8(p.hivel2) + (le_u32(p.unk16) + (le_u16(p.unk17) + (le_u16(p.SmplID) + (p.tuning.spec_encode() + (enc_i8(p.rootkey) + (enc_i8(p.ktps) + (enc_i8(p.smplvol) + (enc_i8(p.smplpan) + (enc_u8(p.kgrpid) + (enc_u8(p.unk22) + (le_u16(p.unk23) + (le_u16(p.unk24) + (p.volume_envelope.spec_encode())))))))))))))))))))))));
        lemma_join_piece(b, 0, enc_u8(p.unk10), enc_u8(p.id) + (enc_u8(p.unk11) + (enc_u8(p.unk25) + (enc_i8(p.lowkey) + (enc_i8(p.hikey) + (enc_i8(p.lowkey2) + (enc_i8(p.hikey2) + (enc_i8(p.lovel) + (enc_i8(p.hivel) + (enc_i8(p.lovel2) + (enc_i8(p.hivel2) + (le_u32(p.unk16) + (le_u16(p.unk17) + (le_u16(p.SmplID) + (p.tuning.spec_encode() + (enc_i8(p.rootkey) + (enc_i8(p.ktps) + (enc_i8(p.smplvol) + (enc_i8(p.smplpan) + (enc_u8(p.kgrpid) + (enc_u8(p.unk22) + (le_u16(p.unk23) + (le_u16(p.unk24) + (p.volume_envelope.spec_encode()))))))))))))))))))))))));
        lemma_skip_zero(b);
    }
}

impl SplitEntry {
    /// The value that `default` returns.
    pub open spec fn spec_default() -> Self {
        SplitEntry {
            unk10: 0u8,
            id: 0u8,
            unk11: 0x02u8,
            unk25: 0x01u8,
            lowkey: 0i8,
            hikey: 0i8,
            lowkey2: 0i8,
            hikey2: 0i8,
            lovel: 0i8,
            hivel: 0i8,
            lovel2: 0i8,
            hivel2: 0i8,
            unk16: 0u32,
            unk17: 0u16,
            SmplID: 0u16,
            tuning: Tuning::spec_default(),
            rootkey: 0i8,
            ktps: 0i8,
            smplvol: 0i8,
            smplpan: 0i8,
            kgrpid: 0u8,
            unk22: 0x02u8,
            unk23: 0u16,
            unk24: 0u16,
            volume_envelope: ADSRVolumeEnvelope::spec_default(),
        }
    }
}

impl Default for SplitEntry {
    fn default() -> (r: Self)
        ensures
            r == Self::spec_default(),
    {
        SplitEntry {
            unk10: 0u8,
            id: 0u8,
            unk11: 0x02u8,
            unk25: 0x01u8,
            lowkey: 0i8,
            hikey: 0i8,
            lowkey2: 0i8,
            hikey2: 0i8,
            lovel: 0i8,
            hivel: 0i8,
            lovel2: 0i8,
            hivel2: 0i8,
            unk16: 0u32,
            unk17: 0u16,
            SmplID: 0u16,
            tuning: Tuning::default(),
            rootkey: 0i8,
            ktps: 0i8,
            smplvol: 0i8,
            smplpan: 0i8,
            kgrpid: 0u8,
            unk22: 0x02u8,
            unk23: 0u16,
            unk24: 0u16,
            volume_envelope: ADSRVolumeEnvelope::default(),
        }
    }
}

impl View for SplitEntry {
    type V = Self;

    open spec fn view(&self) -> Self {
        *self
    }
}

impl ReadWrite for SplitEntry {
    open spec fn spec_write(&self) -> Result<Seq<u8>, DSEError> {
        Ok(self.spec_encode())
    }

    open spec fn spec_read(v: Self, data: Seq<u8>, pos: int) -> Result<(Self, int), DSEError> {
        spec_record_read::<Self>(data, pos)
    }

    open spec fn spec_fresh() -> Self {
        Self::spec_default()
    }

    fn fresh() -> (r: Self) {
        Self::default()
    }

    fn write_to_file(&self, writer: &mut Vec<u8>) -> (res: Result<usize, DSEError>) {
        write_record(self, writer)
    }

    fn read_from_file(&mut self, reader: &mut DataReader) -> (res: Result<(), DSEError>) {
        read_record(self, reader)
    }
}

/// The 16 bytes between a program's LFO table and its split table.
#[allow(non_snake_case)]
#[derive(Debug, Clone, PartialEq, Eq)]
pub struct _ProgramInfoDelimiter {
    pub delimiter: [u8; 16],
}

impl _ProgramInfoDelimiter {
    /// The bytes of a `_ProgramInfoDelimiter`: its fields one after the other in the order
    /// they are declared, integers of more than one byte little-endian unless
    /// written `be_`, a `bool` as 1 or 0.
    pub proof fn lemma_encoding(&self)
        ensures
            self.spec_encode() == self.delimiter@,
    {
    }
}

impl AutoReadWrite for _ProgramInfoDelimiter {
    open spec fn spec_size() -> nat {
        16
    }

    closed spec fn spec_encode(&self) -> Seq<u8> {
        self.delimiter@
    }

    closed spec fn spec_parse(b: Seq<u8>) -> Self {
        _ProgramInfoDelimiter {
            delimiter: array_from_seq::<16>(b.subrange(0, 16)),
        }
    }

    open spec fn spec_canonical(b: Seq<u8>) -> bool {
        true
    }

    fn byte_len() -> (n: usize) {
        16
    }

    fn encode_fields(&self, out: &mut Vec<u8>) {
        let ghost s0 = out@;
        push_bytes(out, self.delimiter.as_slice());
    }

    fn decode_fields(d: &[u8], pos: usize) -> (r: Self) {
        let _dlen = d.len();
        let delimiter = get_bytes16(d, pos + 0);
        proof {
            let b = d@.subrange(pos as int, pos + 16);
            assert(b.subrange(0, 16) =~= d@.subrange(pos + 0, pos + 16));
            lemma_array_from_view::<16>(delimiter);
        }
        _ProgramInfoDelimiter { delimiter }
    }

    proof fn lemma_parse_encode(&self) {
        let e = self.spec_encode();
        lemma_skip_zero(e);
        lemma_split_piece(e, 0, self.delimiter@, Seq::<u8>::empty());
        assert(self.delimiter@ + Seq::<u8>::empty() =~= self.delimiter@);
        lemma_array_from_view::<16>(self.delimiter);
        assert(Self::spec_parse(e) == *self);
    }

    proof fn lemma_encode_parse(b: Seq<u8>) {
        let p = Self::spec_parse(b);
        lemma_array_from_seq::<16>(b.subrange(0, 16));
        assert(p.delimiter@ =~= b.subrange(0, 16));
        lemma_skip_tail(b, 0);
        lemma_skip_zero(b);
    }
}

impl _ProgramInfoDelimiter {
    /// The value that `default` returns.
    pub open spec fn spec_default() -> Self {
        _ProgramInfoDelimiter {
            delimiter: vstd::array::spec_array_fill_for_copy_type::<u8, 16>(0u8),
        }
    }
}

impl Default for _ProgramInfoDelimiter {
    fn default() -> (r: Self)
        ensures
            r == Self::spec_default(),
    {
        _ProgramInfoDelimiter {
            delimiter: {
                let a: [u8; 16] = [0u8; 16];
                a
            },
        }
    }
}

impl View for _ProgramInfoDelimiter {
    type V = Self;

    open spec fn view(&self) -> Self {
        *self
    }
}

impl ReadWrite for _ProgramInfoDelimiter {
    open spec fn spec_write(&self) -> Result<Seq<u8>, DSEError> {
        Ok(self.spec_encode())
    }

    open spec fn spec_read(v: Self, data: Seq<u8>, pos: int) -> Result<(Self, int), DSEError> {
        spec_record_read::<Self>(data, pos)
    }

    open spec fn spec_fresh() -> Self {
        Self::spec_default()
    }

    fn fresh() -> (r: Self) {
        Self::default()
    }

    fn write_to_file(&self, writer: &mut Vec<u8>) -> (res: Result<usize, DSEError>) {
        write_record(self, writer)
    }

    fn read_from_file(&mut self, reader: &mut DataReader) -> (res: Result<(), DSEError>) {
        read_record(self, reader)
    }
}

/// A keygroup: a voice allocation group.
#[allow(non_snake_case)]
#[derive(Debug, Clone, PartialEq, Eq)]
pub struct Keygroup {
    /// Index of the keygroup.
    pub id: u16,
    /// Polyphony; -1 disables the limit.
    pub poly: i8,
    /// Priority of the group's voices.
    pub priority: u8,
    /// Lowest voice channel of the group.
    pub vclow: i8,
    /// Highest voice channel of the group.
    pub vchigh: i8,
    pub unk50: u8,
    pub unk51: u8,
}

impl Keygroup {
    /// The bytes of a `Keygroup`: its fields one after the other in the order
    /// they are declared, integers of more than one byte little-endian unless
    /// written `be_`, a `bool` as 1 or 0.
    pub proof fn lemma_encoding(&self)
        ensures
            self.spec_encode() == le_u16(self.id) + (enc_i8(self.poly) + (enc_u8(self.priority) + (enc_i8(self.vclow) + (enc_i8(self.vchigh) + (enc_u8(self.unk50) + (enc_u8(self.unk51))))))),
    {
    }
}

impl AutoReadWrite for Keygroup {
    open spec fn spec_size() -> nat {
        8
    }

    closed spec fn spec_encode(&self) -> Seq<u8> {
        le_u16(self.id) + (enc_i8(self.poly) + (enc_u8(self.priority) + (enc_i8(self.vclow) + (enc_i8(self.vchigh) + (enc_u8(self.unk50) + (enc_u8(self.unk51)))))))
    }

    closed spec fn spec_parse(b: Seq<u8>) -> Self {
        Keygroup {
            id: u16_of(b.subrange(0, 2)),
            poly: i8_of_u8(b.subrange(2, 3)[0]),
            priority: b.subrange(3, 4)[0],
            vclow: i8_of_u8(b.subrange(4, 5)[0]),
            vchigh: i8_of_u8(b.subrange(5, 6)[0]),
            unk50: b.subrange(6, 7)[0],
            unk51: b.subrange(7, 8)[0],
        }
    }

    open spec fn spec_canonical(b: Seq<u8>) -> bool {
        true
    }

    fn byte_len() -> (n: usize) {
        8
    }

    fn encode_fields(&self, out: &mut Vec<u8>) {
        let ghost s0 = out@;
        push_u16(out, self.id);
        proof { vstd::seq_lib::lemma_concat_associative(s0, le_u16(self.id), enc_i8(self.poly) + (enc_u8(self.priority) + (enc_i8(self.vclow) + (enc_i8(self.vchigh) + (enc_u8(self.unk50) + (enc_u8(self.unk51))))))); }
        let ghost s1 = out@;
        push_i8(out, self.poly);
        proof { vstd::seq_lib::lemma_concat_associative(s1, enc_i8(self.poly), enc_u8(self.priority) + (enc_i8(self.vclow) + (enc_i8(self.vchigh) + (enc_u8(self.unk50) + (enc_u8(self.unk51)))))); }
        let ghost s2 = out@;
        push_u8(out, self.priority);
        proof { vstd::seq_lib::lemma_concat_associative(s2, enc_u8(self.priority), enc_i8(self.vclow) + (enc_i8(self.vchigh) + (enc_u8(self.unk50) + (enc_u8(self.unk51))))); }
        let ghost s3 = out@;
        push_i8(out, self.vclow);
        proof { vstd::seq_lib::lemma_concat_associative(s3, enc_i8(self.vclow), enc_i8(self.vchigh) + (enc_u8(self.unk50) + (enc_u8(self.unk51)))); }
        let ghost s4 = out@;
        push_i8(out, self.vchigh);
        proof { vstd::seq_lib::lemma_concat_associative(s4, enc_i8(self.vchigh), enc_u8(self.unk50) + (enc_u8(self.unk51))); }
        let ghost s5 = out@;
        push_u8(out, self.unk50);
        proof { vstd::seq_lib::lemma_concat_associative(s5, enc_u8(self.unk50), enc_u8(self.unk51)); }
        let ghost s6 = out@;
        push_u8(out, self.unk51);
    }

    fn decode_fields(d: &[u8], pos: usize) -> (r: Self) {
        let _dlen = d.len();
        let id = get_u16(d, pos + 0);
        let poly = get_i8(d, pos + 2);
        let priority = get_u8(d, pos + 3);
        let vclow = get_i8(d, pos + 4);
        let vchigh = get_i8(d, pos + 5);
        let unk50 = get_u8(d, pos + 6);
        let unk51 = get_u8(d, pos + 7);
        proof {
            let b = d@.subrange(pos as int, pos + 8);
            assert(b.subrange(0, 2) =~= d@.subrange(pos + 0, pos + 2));
        }
        Keygroup { id, poly, priority, vclow, vchigh, unk50, unk51 }
    }

    proof fn lemma_parse_encode(&self) {
        let e = self.spec_encode();
        lemma_skip_zero(e);
        lemma_split_piece(e, 0, le_u16(self.id), enc_i8(self.poly) + (enc_u8(self.priority) + (enc_i8(self.vclow) + (enc_i8(self.vchigh) + (enc_u8(self.unk50) + (enc_u8(self.unk51)))))));
        lemma_u16_roundtrip(self.id);
        lemma_split_piece(e, 2, enc_i8(self.poly), enc_u8(self.priority) + (enc_i8(self.vclow) + (enc_i8(self.vchigh) + (enc_u8(self.unk50) + (enc_u8(self.unk51))))));
        lemma_i8_roundtrip(self.poly);
        lemma_split_piece(e, 3, enc_u8(self.priority), enc_i8(self.vclow) + (enc_i8(self.vchigh) + (enc_u8(self.unk50) + (enc_u8(self.unk51)))));
        lemma_split_piece(e, 4, enc_i8(self.vclow), enc_i8(self.vchigh) + (enc_u8(self.unk50) + (enc_u8(self.unk51))));
        lemma_i8_roundtrip(self.vclow);
        lemma_split_piece(e, 5, enc_i8(self.vchigh), enc_u8(self.unk50) + (enc_u8(self.unk51)));
        lemma_i8_roundtrip(self.vchigh);
        lemma_split_piece(e, 6, enc_u8(self.unk50), enc_u8(self.unk51));
        lemma_split_piece(e, 7, enc_u8(self.unk51), Seq::<u8>::empty());
        assert(enc_u8(self.unk51) + Seq::<u8>::empty() =~= enc_u8(self.unk51));
        assert(Self::spec_parse(e) == *self);
    }

    proof fn lemma_encode_parse(b: Seq<u8>) {
        let p = Self::spec_parse(b);
        lemma_u16_bytes(b.subrange(0, 2));
        assert(le_u16(p.id) =~= b.subrange(0, 2));
        lemma_i8_bytes(b[2]);
        assert(enc_i8(p.poly) =~= b.subrange(2, 3));
        assert(enc_u8(p.priority) =~= b.subrange(3, 4));
        lemma_i8_bytes(b[4]);
        assert(enc_i8(p.vclow) =~= b.subrange(4, 5));
        lemma_i8_bytes(b[5]);
        assert(enc_i8(p.vchigh) =~= b.subrange(5, 6));
        assert(enc_u8(p.unk50) =~= b.subrange(6, 7));
        assert(enc_u8(p.unk51) =~= b.subrange(7, 8));
        lemma_skip_tail(b, 7);
        lemma_join_piece(b, 6, enc_u8(p.unk50), enc_u8(p.unk51));
        lemma_join_piece(b, 5, enc_i8(p.vchigh), enc_u8(p.unk50) + (enc_u8(p.unk51)));
        lemma_join_piece(b, 4, enc_i8(p.vclow), enc_i8(p.vchigh) + (enc_u8(p.unk50) + (enc_u8(p.unk51))));
        lemma_join_piece(b, 3, enc_u8(p.priority), enc_i8(p.vclow) + (enc_i8(p.vchigh) + (enc_u8(p.unk50) + (enc_u8(p.unk51)))));
        lemma_join_piece(b, 2, enc_i8(p.poly), enc_u8(p.priority) + (enc_i8(p.vclow) + (enc_i8(p.vchigh) + (enc_u8(p.unk50) + (enc_u8(p.unk51))))));
        lemma_join_piece(b, 0, le_u16(p.id), enc_i8(p.poly) + (enc_u8(p.priority) + (enc_i8(p.vclow) + (enc_i8(p.vchigh) + (enc_u8(p.unk50) + (enc_u8(p.unk51)))))));
        lemma_skip_zero(b);
    }
}

impl Keygroup {
    /// The value that `default` returns.
    pub open spec fn spec_default() -> Self {
        Keygroup {
            id: 0u16,
            poly: 0i8,
            priority: 0u8,
            vclow: 0i8,
            vchigh: 0i8,
            unk50: 0u8,
            unk51: 0u8,
        }
    }
}

impl Default for Keygroup {
    fn default() -> (r: Self)
        ensures
            r == Self::spec_default(),
    {
        Keygroup {
            id: 0u16,
            poly: 0i8,
            priority: 0u8,
            vclow: 0i8,
            vchigh: 0i8,
            unk50: 0u8,
            unk51: 0u8,
        }
    }
}

impl View for Keygroup {
    type V = Self;

    open spec fn view(&self) -> Self {
        *self
    }
}

impl ReadWrite for Keygroup {
    open spec fn spec_write(&self) -> Result<Seq<u8>, DSEError> {
        Ok(self.spec_encode())
    }

    open spec fn spec_read(v: Self, data: Seq<u8>, pos: int) -> Result<(Self, int), DSEError> {
        spec_record_read::<Self>(data, pos)
    }

    open spec fn spec_fresh() -> Self {
        Self::spec_default()
    }

    fn fresh() -> (r: Self) {
        Self::default()
    }

    fn write_to_file(&self, writer: &mut Vec<u8>) -> (res: Result<usize, DSEError>) {
        write_record(self, writer)
    }

    fn read_from_file(&mut self, reader: &mut DataReader) -> (res: Result<(), DSEError>) {
        read_record(self, reader)
    }
}

/// The 8 bytes that may follow the keygroups.
#[allow(non_snake_case)]
#[derive(Debug, Clone, PartialEq, Eq)]
pub struct _KeygroupsSampleDataDelimiter {
    pub delimiter: [u8; 8],
}

impl _KeygroupsSampleDataDelimiter {
    /// The bytes of a `_KeygroupsSampleDataDelimiter`: its fields one after the other in the order
    /// they are declared, integers of more than one byte little-endian unless
    /// written `be_`, a `bool` as 1 or 0.
    pub proof fn lemma_encoding(&self)
        ensures
            self.spec_encode() == self.delimiter@,
    {
    }
}

impl AutoReadWrite for _KeygroupsSampleDataDelimiter {
    open spec fn spec_size() -> nat {
        8
    }

    closed spec fn spec_encode(&self) -> Seq<u8> {
        self.delimiter@
    }

    closed spec fn spec_parse(b: Seq<u8>) -> Self {
        _KeygroupsSampleDataDelimiter {
            delimiter: array_from_seq::<8>(b.subrange(0, 8)),
        }
    }

    open spec fn spec_canonical(b: Seq<u8>) -> bool {
        true
    }

    fn byte_len() -> (n: usize) {
        8
    }

    fn encode_fields(&self, out: &mut Vec<u8>) {
        let ghost s0 = out@;
        push_bytes(out, self.delimiter.as_slice());
    }

    fn decode_fields(d: &[u8], pos: usize) -> (r: Self) {
        let _dlen = d.len();
        let delimiter = get_bytes8(d, pos + 0);
        proof {
            let b = d@.subrange(pos as int, pos + 8);
            assert(b.subrange(0, 8) =~= d@.subrange(pos + 0, pos + 8));
            lemma_array_from_view::<8>(delimiter);
        }
        _KeygroupsSampleDataDelimiter { delimiter }
    }

    proof fn lemma_parse_encode(&self) {
        let e = self.spec_encode();
        lemma_skip_zero(e);
        lemma_split_piece(e, 0, self.delimiter@, Seq::<u8>::empty());
        assert(self.delimiter@ + Seq::<u8>::empty() =~= self.delimiter@);
        lemma_array_from_view::<8>(self.delimiter);
        assert(Self::spec_parse(e) == *self);
    }

    proof fn lemma_encode_parse(b: Seq<u8>) {
        let p = Self::spec_parse(b);
        lemma_array_from_seq::<8>(b.subrange(0, 8));
        assert(p.delimiter@ =~= b.subrange(0, 8));
        lemma_skip_tail(b, 0);
        lemma_skip_zero(b);
    }
}

impl _KeygroupsSampleDataDelimiter {
    /// The value that `default` returns.
    pub open spec fn spec_default() -> Self {
        _KeygroupsSampleDataDelimiter {
            delimiter: vstd::array::spec_array_fill_for_copy_type::<u8, 8>(0u8),
        }
    }
}

impl Default for _KeygroupsSampleDataDelimiter {
    fn default() -> (r: Self)
        ensures
            r == Self::spec_default(),
    {
        _KeygroupsSampleDataDelimiter {
            delimiter: {
                let a: [u8; 8] = [0u8; 8];
                a
            },
        }
    }
}

impl View for _KeygroupsSampleDataDelimiter {
    type V = Self;

    open spec fn view(&self) -> Self {
        *self
    }
}

impl ReadWrite for _KeygroupsSampleDataDelimiter {
    open spec fn spec_write(&self) -> Result<Seq<u8>, DSEError> {
        Ok(self.spec_encode())
    }

    open spec fn spec_read(v: Self, data: Seq<u8>, pos: int) -> Result<(Self, int), DSEError> {
        spec_record_read::<Self>(data, pos)
    }

    open spec fn spec_fresh() -> Self {
        Self::spec_default()
    }

    fn fresh() -> (r: Self) {
        Self::default()
    }

    fn write_to_file(&self, writer: &mut Vec<u8>) -> (res: Result<usize, DSEError>) {
        write_record(self, writer)
    }

    fn read_from_file(&mut self, reader: &mut DataReader) -> (res: Result<(), DSEError>) {
        read_record(self, reader)
    }
}

/// The first four bytes of a chunk header are its label, little-endian.
pub proof fn lemma_chunk_header_label(h: ChunkHeader)
    ensures
        h.spec_encode().len() == 16,
        h.spec_encode().subrange(0, 4) == le_u32(h.label),
{
    assert(h.spec_encode().subrange(0, 4) =~= le_u32(h.label));
}

/// Reading the delimiter of a program from 16 bytes gives the delimiter
/// holding them.
pub proof fn lemma_program_delimiter_parse(b: Seq<u8>)
    requires
        b.len() == 16,
    ensures
        _ProgramInfoDelimiter::spec_parse(b) == (_ProgramInfoDelimiter { delimiter: array_from_seq::<16>(b) }),
{
    assert(b.subrange(0, 16) =~= b);
}

/// Reading the delimiter after the keygroups from 8 bytes gives the
/// delimiter holding them.
pub proof fn lemma_kgrp_delimiter_parse(b: Seq<u8>)
    requires
        b.len() == 8,
    ensures
        _KeygroupsSampleDataDelimiter::spec_parse(b) == (_KeygroupsSampleDataDelimiter { delimiter: array_from_seq::<8>(b) }),
{
    assert(b.subrange(0, 8) =~= b);
}

} // verus!
