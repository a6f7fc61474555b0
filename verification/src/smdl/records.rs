//! The fixed-length records of the SMDL format.
use vstd::prelude::*;
use crate::codec::{
    DataReader, lemma_split_piece, lemma_join_piece, lemma_skip_zero, lemma_skip_tail, enc_bool, enc_i8, enc_u8, le_u16, le_u32, le_i16, le_i32, u16_of, u32_of, i16_of,
    i32_of, i8_of_u8, array_from_seq, lemma_array_from_seq, lemma_array_from_view, lemma_u16_roundtrip,
    lemma_u32_roundtrip, lemma_i8_roundtrip, lemma_u16_bytes, lemma_u32_bytes, lemma_i8_bytes,
    push_u8, push_i8, push_bool, push_u16, push_u32, push_bytes, get_u8, get_i8, get_bool, get_u16,
    get_u32, get_bytes16, get_bytes8,
};
use crate::dtype::{AutoReadWrite, DSEError, ReadWrite, spec_record_read, write_record, read_record};
use crate::swdl::DSEString;

verus! {

/// The header of an SMDL file.
#[allow(non_snake_case)]
#[derive(Debug, Clone, PartialEq, Eq)]
pub struct SMDLHeader {
    /// The characters "smdl".
    pub magicn: u32,
    /// Always 0 in the game's files; holds the song builder flags.
    pub unk7: u32,
    /// Length of the whole file.
    pub flen: u32,
    /// Always 0x415.
    pub version: u16,
    /// First link byte; matches the SWDL bank of the song.
    pub unk1: u8,
    /// Second link byte; matches the SWDL bank of the song.
    pub unk2: u8,
    pub unk3: u32,
    pub unk4: u32,
    pub year: u16,
    pub month: u8,
    pub day: u8,
    pub hour: u8,
    pub minute: u8,
    pub second: u8,
    pub centisecond: u8,
    /// File name; SMDL files pad it with 0xFF bytes.
    pub fname: DSEString<0xFF>,
    pub unk5: u32,
    pub unk6: u32,
    pub unk8: u32,
    pub unk9: u32,
}

impl SMDLHeader {
    /// The bytes of a `SMDLHeader`: its fields one after the other in the order
    /// they are declared, integers of more than one byte little-endian unless
    /// written `be_`, a `bool` as 1 or 0.
    pub proof fn lemma_encoding(&self)
        ensures
            self.spec_encode() == le_u32(self.magicn) + (le_u32(self.unk7) + (le_u32(self.flen) + (le_u16(self.version) + (enc_u8(self.unk1) + (enc_u8(self.unk2) + (le_u32(self.unk3) + (le_u32(self.unk4) + (le_u16(self.year) + (enc_u8(self.month) + (enc_u8(self.day) + (enc_u8(self.hour) + (enc_u8(self.minute) + (enc_u8(self.second) + (enc_u8(self.centisecond) + (self.fname.spec_encode() + (le_u32(self.unk5) + (le_u32(self.unk6) + (le_u32(self.unk8) + (le_u32(self.unk9)))))))))))))))))))),
    {
    }
}

impl AutoReadWrite for SMDLHeader {
    open spec fn spec_size() -> nat {
        64
    }

    closed spec fn spec_encode(&self) -> Seq<u8> {
        le_u32(self.magicn) + (le_u32(self.unk7) + (le_u32(self.flen) + (le_u16(self.version) + (enc_u8(self.unk1) + (enc_u8(self.unk2) + (le_u32(self.unk3) + (le_u32(self.unk4) + (le_u16(self.year) + (enc_u8(self.month) + (enc_u8(self.day) + (enc_u8(self.hour) + (enc_u8(self.minute) + (enc_u8(self.second) + (enc_u8(self.centisecond) + (self.fname.spec_encode() + (le_u32(self.unk5) + (le_u32(self.unk6) + (le_u32(self.unk8) + (le_u32(self.unk9))))))))))))))))))))
    }

    closed spec fn spec_parse(b: Seq<u8>) -> Self {
        SMDLHeader {
            magicn: u32_of(b.subrange(0, 4)),
            unk7: u32_of(b.subrange(4, 8)),
            flen: u32_of(b.subrange(8, 12)),
            version: u16_of(b.subrange(12, 14)),
            unk1: b.subrange(14, 15)[0],
            unk2: b.subrange(15, 16)[0],
            unk3: u32_of(b.subrange(16, 20)),
            unk4: u32_of(b.subrange(20, 24)),
            year: u16_of(b.subrange(24, 26)),
            month: b.subrange(26, 27)[0],
            day: b.subrange(27, 28)[0],
            hour: b.subrange(28, 29)[0],
            minute: b.subrange(29, 30)[0],
            second: b.subrange(30, 31)[0],
            centisecond: b.subrange(31, 32)[0],
            fname: DSEString::<0xFF>::spec_parse(b.subrange(32, 48)),
            unk5: u32_of(b.subrange(48, 52)),
            unk6: u32_of(b.subrange(52, 56)),
            unk8: u32_of(b.subrange(56, 60)),
            unk9: u32_of(b.subrange(60, 64)),
        }
    }

    open spec fn spec_canonical(b: Seq<u8>) -> bool {
        DSEString::<0xFF>::spec_canonical(b.subrange(32, 48))
    }

    fn byte_len() -> (n: usize) {
        64
    }

    #[verifier::spinoff_prover]
    #[verifier::rlimit(100)]
    fn encode_fields(&self, out: &mut Vec<u8>) {
        let ghost s0 = out@;
        push_u32(out, self.magicn);
        proof { vstd::seq_lib::lemma_concat_associative(s0, le_u32(self.magicn), le_u32(self.unk7) + (le_u32(self.flen) + (le_u16(self.version) + (enc_u8(self.unk1) + (enc_u8(self.unk2) + (le_u32(self.unk3) + (le_u32(self.unk4) + (le_u16(self.year) + (enc_u8(self.month) + (enc_u8(self.day) + (enc_u8(self.hour) + (enc_u8(self.minute) + (enc_u8(self.second) + (enc_u8(self.centisecond) + (self.fname.spec_encode() + (le_u32(self.unk5) + (le_u32(self.unk6) + (le_u32(self.unk8) + (le_u32(self.unk9)))))))))))))))))))); }
        let ghost s1 = out@;
        push_u32(out, self.unk7);
        proof { vstd::seq_lib::lemma_concat_associative(s1, le_u32(self.unk7), le_u32(self.flen) + (le_u16(self.version) + (enc_u8(self.unk1) + (enc_u8(self.unk2) + (le_u32(self.unk3) + (le_u32(self.unk4) + (le_u16(self.year) + (enc_u8(self.month) + (enc_u8(self.day) + (enc_u8(self.hour) + (enc_u8(self.minute) + (enc_u8(self.second) + (enc_u8(self.centisecond) + (self.fname.spec_encode() + (le_u32(self.unk5) + (le_u32(self.unk6) + (le_u32(self.unk8) + (le_u32(self.unk9))))))))))))))))))); }
        let ghost s2 = out@;
        push_u32(out, self.flen);
        proof { vstd::seq_lib::lemma_concat_associative(s2, le_u32(self.flen), le_u16(self.version) + (enc_u8(self.unk1) + (enc_u8(self.unk2) + (le_u32(self.unk3) + (le_u32(self.unk4) + (le_u16(self.year) + (enc_u8(self.month) + (enc_u8(self.day) + (enc_u8(self.hour) + (enc_u8(self.minute) + (enc_u8(self.second) + (enc_u8(self.centisecond) + (self.fname.spec_encode() + (le_u32(self.unk5) + (le_u32(self.unk6) + (le_u32(self.unk8) + (le_u32(self.unk9)))))))))))))))))); }
        let ghost s3 = out@;
        push_u16(out, self.version);
        proof { vstd::seq_lib::lemma_concat_associative(s3, le_u16(self.version), enc_u8(self.unk1) + (enc_u8(self.unk2) + (le_u32(self.unk3) + (le_u32(self.unk4) + (le_u16(self.year) + (enc_u8(self.month) + (enc_u8(self.day) + (enc_u8(self.hour) + (enc_u8(self.minute) + (enc_u8(self.second) + (enc_u8(self.centisecond) + (self.fname.spec_encode() + (le_u32(self.unk5) + (le_u32(self.unk6) + (le_u32(self.unk8) + (le_u32(self.unk9))))))))))))))))); }
        let ghost s4 = out@;
        push_u8(out, self.unk1);
        proof { vstd::seq_lib::lemma_concat_associative(s4, enc_u8(self.unk1), enc_u8(self.unk2) + (le_u32(self.unk3) + (le_u32(self.unk4) + (le_u16(self.year) + (enc_u8(self.month) + (enc_u8(self.day) + (enc_u8(self.hour) + (enc_u8(self.minute) + (enc_u8(self.second) + (enc_u8(self.centisecond) + (self.fname.spec_encode() + (le_u32(self.unk5) + (le_u32(self.unk6) + (le_u32(self.unk8) + (le_u32(self.unk9)))))))))))))))); }
        let ghost s5 = out@;
        push_u8(out, self.unk2);
        proof { vstd::seq_lib::lemma_concat_associative(s5, enc_u8(self.unk2), le_u32(self.unk3) + (le_u32(self.unk4) + (le_u16(self.year) + (enc_u8(self.month) + (enc_u8(self.day) + (enc_u8(self.hour) + (enc_u8(self.minute) + (enc_u8(self.second) + (enc_u8(self.centisecond) + (self.fname.spec_encode() + (le_u32(self.unk5) + (le_u32(self.unk6) + (le_u32(self.unk8) + (le_u32(self.unk9))))))))))))))); }
        let ghost s6 = out@;
        push_u32(out, self.unk3);
        proof { vstd::seq_lib::lemma_concat_associative(s6, le_u32(self.unk3), le_u32(self.unk4) + (le_u16(self.year) + (enc_u8(self.month) + (enc_u8(self.day) + (enc_u8(self.hour) + (enc_u8(self.minute) + (enc_u8(self.second) + (enc_u8(self.centisecond) + (self.fname.spec_encode() + (le_u32(self.unk5) + (le_u32(self.unk6) + (le_u32(self.unk8) + (le_u32(self.unk9)))))))))))))); }
        let ghost s7 = out@;
        push_u32(out, self.unk4);
        proof { vstd::seq_lib::lemma_concat_associative(s7, le_u32(self.unk4), le_u16(self.year) + (enc_u8(self.month) + (enc_u8(self.day) + (enc_u8(self.hour) + (enc_u8(self.minute) + (enc_u8(self.second) + (enc_u8(self.centisecond) + (self.fname.spec_encode() + (le_u32(self.unk5) + (le_u32(self.unk6) + (le_u32(self.unk8) + (le_u32(self.unk9))))))))))))); }
        let ghost s8 = out@;
        push_u16(out, self.year);
        proof { vstd::seq_lib::lemma_concat_associative(s8, le_u16(self.year), enc_u8(self.month) + (enc_u8(self.day) + (enc_u8(self.hour) + (enc_u8(self.minute) + (enc_u8(self.second) + (enc_u8(self.centisecond) + (self.fname.spec_encode() + (le_u32(self.unk5) + (le_u32(self.unk6) + (le_u32(self.unk8) + (le_u32(self.unk9)))))))))))); }
        let ghost s9 = out@;
        push_u8(out, self.month);
        proof { vstd::seq_lib::lemma_concat_associative(s9, enc_u8(self.month), enc_u8(self.day) + (enc_u8(self.hour) + (enc_u8(self.minute) + (enc_u8(self.second) + (enc_u8(self.centisecond) + (self.fname.spec_encode() + (le_u32(self.unk5) + (le_u32(self.unk6) + (le_u32(self.unk8) + (le_u32(self.unk9))))))))))); }
        let ghost s10 = out@;
        push_u8(out, self.day);
        proof { vstd::seq_lib::lemma_concat_associative(s10, enc_u8(self.day), enc_u8(self.hour) + (enc_u8(self.minute) + (enc_u8(self.second) + (enc_u8(self.centisecond) + (self.fname.spec_encode() + (le_u32(self.unk5) + (le_u32(self.unk6) + (le_u32(self.unk8) + (le_u32(self.unk9)))))))))); }
        let ghost s11 = out@;
        push_u8(out, self.hour);
        proof { vstd::seq_lib::lemma_concat_associative(s11, enc_u8(self.hour), enc_u8(self.minute) + (enc_u8(self.second) + (enc_u8(self.centisecond) + (self.fname.spec_encode() + (le_u32(self.unk5) + (le_u32(self.unk6) + (le_u32(self.unk8) + (le_u32(self.unk9))))))))); }
        let ghost s12 = out@;
        push_u8(out, self.minute);
        proof { vstd::seq_lib::lemma_concat_associative(s12, enc_u8(self.minute), enc_u8(self.second) + (enc_u8(self.centisecond) + (self.fname.spec_encode() + (le_u32(self.unk5) + (le_u32(self.unk6) + (le_u32(self.unk8) + (le_u32(self.unk9)))))))); }
        let ghost s13 = out@;
        push_u8(out, self.second);
        proof { vstd::seq_lib::lemma_concat_associative(s13, enc_u8(self.second), enc_u8(self.centisecond) + (self.fname.spec_encode() + (le_u32(self.unk5) + (le_u32(self.unk6) + (le_u32(self.unk8) + (le_u32(self.unk9))))))); }
        let ghost s14 = out@;
        push_u8(out, self.centisecond);
        proof { vstd::seq_lib::lemma_concat_associative(s14, enc_u8(self.centisecond), self.fname.spec_encode() + (le_u32(self.unk5) + (le_u32(self.unk6) + (le_u32(self.unk8) + (le_u32(self.unk9)))))); }
        let ghost s15 = out@;
        self.fname.encode_fields(out);
        proof { vstd::seq_lib::lemma_concat_associative(s15, self.fname.spec_encode(), le_u32(self.unk5) + (le_u32(self.unk6) + (le_u32(self.unk8) + (le_u32(self.unk9))))); }
        let ghost s16 = out@;
        push_u32(out, self.unk5);
        proof { vstd::seq_lib::lemma_concat_associative(s16, le_u32(self.unk5), le_u32(self.unk6) + (le_u32(self.unk8) + (le_u32(self.unk9)))); }
        let ghost s17 = out@;
        push_u32(out, self.unk6);
        proof { vstd::seq_lib::lemma_concat_associative(s17, le_u32(self.unk6), le_u32(self.unk8) + (le_u32(self.unk9))); }
        let ghost s18 = out@;
        push_u32(out, self.unk8);
        proof { vstd::seq_lib::lemma_concat_associative(s18, le_u32(self.unk8), le_u32(self.unk9)); }
        let ghost s19 = out@;
        push_u32(out, self.unk9);
    }

    #[verifier::spinoff_prover]
    #[verifier::rlimit(100)]
    fn decode_fields(d: &[u8], pos: usize) -> (r: Self) {
        let _dlen = d.len();
        let magicn = get_u32(d, pos + 0);
        let unk7 = get_u32(d, pos + 4);
        let flen = get_u32(d, pos + 8);
        let version = get_u16(d, pos + 12);
        let unk1 = get_u8(d, pos + 14);
        let unk2 = get_u8(d, pos + 15);
        let unk3 = get_u32(d, pos + 16);
        let unk4 = get_u32(d, pos + 20);
        let year = get_u16(d, pos + 24);
        let month = get_u8(d, pos + 26);
        let day = get_u8(d, pos + 27);
        let hour = get_u8(d, pos + 28);
        let minute = get_u8(d, pos + 29);
        let second = get_u8(d, pos + 30);
        let centisecond = get_u8(d, pos + 31);
        let fname = DSEString::decode_fields(d, pos + 32);
        let unk5 = get_u32(d, pos + 48);
        let unk6 = get_u32(d, pos + 52);
        let unk8 = get_u32(d, pos + 56);
        let unk9 = get_u32(d, pos + 60);
        proof {
            let b = d@.subrange(pos as int, pos + 64);
            assert(b.subrange(0, 4) =~= d@.subrange(pos + 0, pos + 4));
            assert(b.subrange(4, 8) =~= d@.subrange(pos + 4, pos + 8));
            assert(b.subrange(8, 12) =~= d@.subrange(pos + 8, pos + 12));
            assert(b.subrange(12, 14) =~= d@.subrange(pos + 12, pos + 14));
            assert(b.subrange(16, 20) =~= d@.subrange(pos + 16, pos + 20));
            assert(b.subrange(20, 24) =~= d@.subrange(pos + 20, pos + 24));
            assert(b.subrange(24, 26) =~= d@.subrange(pos + 24, pos + 26));
            assert(b.subrange(32, 48) =~= d@.subrange(pos + 32, pos + 48));
            assert(b.subrange(48, 52) =~= d@.subrange(pos + 48, pos + 52));
            assert(b.subrange(52, 56) =~= d@.subrange(pos + 52, pos + 56));
            assert(b.subrange(56, 60) =~= d@.subrange(pos + 56, pos + 60));
            assert(b.subrange(60, 64) =~= d@.subrange(pos + 60, pos + 64));
        }
        SMDLHeader { magicn, unk7, flen, version, unk1, unk2, unk3, unk4, year, month, day, hour, minute, second, centisecond, fname, unk5, unk6, unk8, unk9 }
    }

    #[verifier::spinoff_prover]
    #[verifier::rlimit(100)]
    proof fn lemma_parse_encode(&self) {
        let e = self.spec_encode();
        lemma_skip_zero(e);
        lemma_split_piece(e, 0, le_u32(self.magicn), le_u32(self.unk7) + (le_u32(self.flen) + (le_u16(self.version) + (enc_u8(self.unk1) + (enc_u8(self.unk2) + (le_u32(self.unk3) + (le_u32(self.unk4) + (le_u16(self.year) + (enc_u8(self.month) + (enc_u8(self.day) + (enc_u8(self.hour) + (enc_u8(self.minute) + (enc_u8(self.second) + (enc_u8(self.centisecond) + (self.fname.spec_encode() + (le_u32(self.unk5) + (le_u32(self.unk6) + (le_u32(self.unk8) + (le_u32(self.unk9))))))))))))))))))));
        lemma_u32_roundtrip(self.magicn);
        lemma_split_piece(e, 4, le_u32(self.unk7), le_u32(self.flen) + (le_u16(self.version) + (enc_u8(self.unk1) + (enc_u8(self.unk2) + (le_u32(self.unk3) + (le_u32(self.unk4) + (le_u16(self.year) + (enc_u8(self.month) + (enc_u8(self.day) + (enc_u8(self.hour) + (enc_u8(self.minute) + (enc_u8(self.second) + (enc_u8(self.centisecond) + (self.fname.spec_encode() + (le_u32(self.unk5) + (le_u32(self.unk6) + (le_u32(self.unk8) + (le_u32(self.unk9)))))))))))))))))));
        lemma_u32_roundtrip(self.unk7);
        lemma_split_piece(e, 8, le_u32(self.flen), le_u16(self.version) + (enc_u8(self.unk1) + (enc_u8(self.unk2) + (le_u32(self.unk3) + (le_u32(self.unk4) + (le_u16(self.year) + (enc_u8(self.month) + (enc_u8(self.day) + (enc_u8(self.hour) + (enc_u8(self.minute) + (enc_u8(self.second) + (enc_u8(self.centisecond) + (self.fname.spec_encode() + (le_u32(self.unk5) + (le_u32(self.unk6) + (le_u32(self.unk8) + (le_u32(self.unk9))))))))))))))))));
        lemma_u32_roundtrip(self.flen);
        lemma_split_piece(e, 12, le_u16(self.version), enc_u8(self.unk1) + (enc_u8(self.unk2) + (le_u32(self.unk3) + (le_u32(self.unk4) + (le_u16(self.year) + (enc_u8(self.month) + (enc_u8(self.day) + (enc_u8(self.hour) + (enc_u8(self.minute) + (enc_u8(self.second) + (enc_u8(self.centisecond) + (self.fname.spec_encode() + (le_u32(self.unk5) + (le_u32(self.unk6) + (le_u32(self.unk8) + (le_u32(self.unk9)))))))))))))))));
        lemma_u16_roundtrip(self.version);
        lemma_split_piece(e, 14, enc_u8(self.unk1), enc_u8(self.unk2) + (le_u32(self.unk3) + (le_u32(self.unk4) + (le_u16(self.year) + (enc_u8(self.month) + (enc_u8(self.day) + (enc_u8(self.hour) + (enc_u8(self.minute) + (enc_u8(self.second) + (enc_u8(self.centisecond) + (self.fname.spec_encode() + (le_u32(self.unk5) + (le_u32(self.unk6) + (le_u32(self.unk8) + (le_u32(self.unk9))))))))))))))));
        lemma_split_piece(e, 15, enc_u8(self.unk2), le_u32(self.unk3) + (le_u32(self.unk4) + (le_u16(self.year) + (enc_u8(self.month) + (enc_u8(self.day) + (enc_u8(self.hour) + (enc_u8(self.minute) + (enc_u8(self.second) + (enc_u8(self.centisecond) + (self.fname.spec_encode() + (le_u32(self.unk5) + (le_u32(self.unk6) + (le_u32(self.unk8) + (le_u32(self.unk9)))))))))))))));
        lemma_split_piece(e, 16, le_u32(self.unk3), le_u32(self.unk4) + (le_u16(self.year) + (enc_u8(self.month) + (enc_u8(self.day) + (enc_u8(self.hour) + (enc_u8(self.minute) + (enc_u8(self.second) + (enc_u8(self.centisecond) + (self.fname.spec_encode() + (le_u32(self.unk5) + (le_u32(self.unk6) + (le_u32(self.unk8) + (le_u32(self.unk9))))))))))))));
        lemma_u32_roundtrip(self.unk3);
        lemma_split_piece(e, 20, le_u32(self.unk4), le_u16(self.year) + (enc_u8(self.month) + (enc_u8(self.day) + (enc_u8(self.hour) + (enc_u8(self.minute) + (enc_u8(self.second) + (enc_u8(self.centisecond) + (self.fname.spec_encode() + (le_u32(self.unk5) + (le_u32(self.unk6) + (le_u32(self.unk8) + (le_u32(self.unk9)))))))))))));
        lemma_u32_roundtrip(self.unk4);
        lemma_split_piece(e, 24, le_u16(self.year), enc_u8(self.month) + (enc_u8(self.day) + (enc_u8(self.hour) + (enc_u8(self.minute) + (enc_u8(self.second) + (enc_u8(self.centisecond) + (self.fname.spec_encode() + (le_u32(self.unk5) + (le_u32(self.unk6) + (le_u32(self.unk8) + (le_u32(self.unk9))))))))))));
        lemma_u16_roundtrip(self.year);
        lemma_split_piece(e, 26, enc_u8(self.month), enc_u8(self.day) + (enc_u8(self.hour) + (enc_u8(self.minute) + (enc_u8(self.second) + (enc_u8(self.centisecond) + (self.fname.spec_encode() + (le_u32(self.unk5) + (le_u32(self.unk6) + (le_u32(self.unk8) + (le_u32(self.unk9)))))))))));
        lemma_split_piece(e, 27, enc_u8(self.day), enc_u8(self.hour) + (enc_u8(self.minute) + (enc_u8(self.second) + (enc_u8(self.centisecond) + (self.fname.spec_encode() + (le_u32(self.unk5) + (le_u32(self.unk6) + (le_u32(self.unk8) + (le_u32(self.unk9))))))))));
        lemma_split_piece(e, 28, enc_u8(self.hour), enc_u8(self.minute) + (enc_u8(self.second) + (enc_u8(self.centisecond) + (self.fname.spec_encode() + (le_u32(self.unk5) + (le_u32(self.unk6) + (le_u32(self.unk8) + (le_u32(self.unk9)))))))));
        lemma_split_piece(e, 29, enc_u8(self.minute), enc_u8(self.second) + (enc_u8(self.centisecond) + (self.fname.spec_encode() + (le_u32(self.unk5) + (le_u32(self.unk6) + (le_u32(self.unk8) + (le_u32(self.unk9))))))));
        lemma_split_piece(e, 30, enc_u8(self.second), enc_u8(self.centisecond) + (self.fname.spec_encode() + (le_u32(self.unk5) + (le_u32(self.unk6) + (le_u32(self.unk8) + (le_u32(self.unk9)))))));
        lemma_split_piece(e, 31, enc_u8(self.centisecond), self.fname.spec_encode() + (le_u32(self.unk5) + (le_u32(self.unk6) + (le_u32(self.unk8) + (le_u32(self.unk9))))));
        lemma_split_piece(e, 32, self.fname.spec_encode(), le_u32(self.unk5) + (le_u32(self.unk6) + (le_u32(self.unk8) + (le_u32(self.unk9)))));
        self.fname.lemma_parse_encode();
        lemma_split_piece(e, 48, le_u32(self.unk5), le_u32(self.unk6) + (le_u32(self.unk8) + (le_u32(self.unk9))));
        lemma_u32_roundtrip(self.unk5);
        lemma_split_piece(e, 52, le_u32(self.unk6), le_u32(self.unk8) + (le_u32(self.unk9)));
        lemma_u32_roundtrip(self.unk6);
        lemma_split_piece(e, 56, le_u32(self.unk8), le_u32(self.unk9));
        lemma_u32_roundtrip(self.unk8);
        lemma_split_piece(e, 60, le_u32(self.unk9), Seq::<u8>::empty());
        assert(le_u32(self.unk9) + Seq::<u8>::empty() =~= le_u32(self.unk9));
        lemma_u32_roundtrip(self.unk9);
        assert(Self::spec_parse(e) == *self);
    }

    #[verifier::spinoff_prover]
    #[verifier::rlimit(100)]
    proof fn lemma_encode_parse(b: Seq<u8>) {
        let p = Self::spec_parse(b);
        lemma_u32_bytes(b.subrange(0, 4));
        assert(le_u32(p.magicn) =~= b.subrange(0, 4));
        lemma_u32_bytes(b.subrange(4, 8));
        assert(le_u32(p.unk7) =~= b.subrange(4, 8));
        lemma_u32_bytes(b.subrange(8, 12));
        assert(le_u32(p.flen) =~= b.subrange(8, 12));
        lemma_u16_bytes(b.subrange(12, 14));
        assert(le_u16(p.version) =~= b.subrange(12, 14));
        assert(enc_u8(p.unk1) =~= b.subrange(14, 15));
        assert(enc_u8(p.unk2) =~= b.subrange(15, 16));
        lemma_u32_bytes(b.subrange(16, 20));
        assert(le_u32(p.unk3) =~= b.subrange(16, 20));
        lemma_u32_bytes(b.subrange(20, 24));
        assert(le_u32(p.unk4) =~= b.subrange(20, 24));
        lemma_u16_bytes(b.subrange(24, 26));
        assert(le_u16(p.year) =~= b.subrange(24, 26));
        assert(enc_u8(p.month) =~= b.subrange(26, 27));
        assert(enc_u8(p.day) =~= b.subrange(27, 28));
        assert(enc_u8(p.hour) =~= b.subrange(28, 29));
        assert(enc_u8(p.minute) =~= b.subrange(29, 30));
        assert(enc_u8(p.second) =~= b.subrange(30, 31));
        assert(enc_u8(p.centisecond) =~= b.subrange(31, 32));
        DSEString::<0xFF>::lemma_encode_parse(b.subrange(32, 48));
        assert(p.fname.spec_encode() =~= b.subrange(32, 48));
        lemma_u32_bytes(b.subrange(48, 52));
        assert(le_u32(p.unk5) =~= b.subrange(48, 52));
        lemma_u32_bytes(b.subrange(52, 56));
        assert(le_u32(p.unk6) =~= b.subrange(52, 56));
        lemma_u32_bytes(b.subrange(56, 60));
        assert(le_u32(p.unk8) =~= b.subrange(56, 60));
        lemma_u32_bytes(b.subrange(60, 64));
        assert(le_u32(p.unk9) =~= b.subrange(60, 64));
        lemma_skip_tail(b, 60);
        lemma_join_piece(b, 56, le_u32(p.unk8), le_u32(p.unk9));
        lemma_join_piece(b, 52, le_u32(p.unk6), le_u32(p.unk8) + (le_u32(p.unk9)));
        lemma_join_piece(b, 48, le_u32(p.unk5), le_u32(p.unk6) + (le_u32(p.unk8) + (le_u32(p.unk9))));
        lemma_join_piece(b, 32, p.fname.spec_encode(), le_u32(p.unk5) + (le_u32(p.unk6) + (le_u32(p.unk8) + (le_u32(p.unk9)))));
        lemma_join_piece(b, 31, enc_u8(p.centisecond), p.fname.spec_encode() + (le_u32(p.unk5) + (le_u32(p.unk6) + (le_u32(p.unk8) + (le_u32(p.unk9))))));
        lemma_join_piece(b, 30, enc_u8(p.second), enc_u8(p.centisecond) + (p.fname.spec_encode() + (le_u32(p.unk5) + (le_u32(p.unk6) + (le_u32(p.unk8) + (le_u32(p.unk9)))))));
        lemma_join_piece(b, 29, enc_u8(p.minute), enc_u8(p.second) + (enc_u8(p.centisecond) + (p.fname.spec_encode() + (le_u32(p.unk5) + (le_u32(p.unk6) + (le_u32(p.unk8) + (le_u32(p.unk9))))))));
        lemma_join_piece(b, 28, enc_u8(p.hour), enc_u8(p.minute) + (enc_u8(p.second) + (enc_u8(p.centisecond) + (p.fname.spec_encode() + (le_u32(p.unk5) + (le_u32(p.unk6) + (le_u32(p.unk8) + (le_u32(p.unk9)))))))));
        lemma_join_piece(b, 27, enc_u8(p.day), enc_u8(p.hour) + (enc_u8(p.minute) + (enc_u8(p.second) + (enc_u8(p.centisecond) + (p.fname.spec_encode() + (le_u32(p.unk5) + (le_u32(p.unk6) + (le_u32(p.unk8) + (le_u32(p.unk9))))))))));
        lemma_join_piece(b, 26, enc_u8(p.month), enc_u8(p.day) + (enc_u8(p.hour) + (enc_u8(p.minute) + (enc_u8(p.second) + (enc_u8(p.centisecond) + (p.fname.spec_encode() + (le_u32(p.unk5) + (le_u32(p.unk6) + (le_u32(p.unk8) + (le_u32(p.unk9)))))))))));
        lemma_join_piece(b, 24, le_u16(p.year), enc_u8(p.month) + (enc_u8(p.day) + (enc_u8(p.hour) + (enc_u8(p.minute) + (enc_u8(p.second) + (enc_u8(p.centisecond) + (p.fname.spec_encode() + (le_u32(p.unk5) + (le_u32(p.unk6) + (le_u32(p.unk8) + (le_u32(p.unk9))))))))))));
        lemma_join_piece(b, 20, le_u32(p.unk4), le_u16(p.year) + (enc_u8(p.month) + (enc_u8(p.day) + (enc_u8(p.hour) + (enc_u8(p.minute) + (enc_u8(p.second) + (enc_u8(p.centisecond) + (p.fname.spec_encode() + (le_u32(p.unk5) + (le_u32(p.unk6) + (le_u32(p.unk8) + (le_u32(p.unk9)))))))))))));
        lemma_join_piece(b, 16, le_u32(p.unk3), le_u32(p.unk4) + (le_u16(p.year) + (enc_u8(p.month) + (enc_u8(p.day) + (enc_u8(p.hour) + (enc_u8(p.minute) + (enc_u8(p.second) + (enc_u8(p.centisecond) + (p.fname.spec_encode() + (le_u32(p.unk5) + (le_u32(p.unk6) + (le_u32(p.unk8) + (le_u32(p.unk9))))))))))))));
        lemma_join_piece(b, 15, enc_u8(p.unk2), le_u32(p.unk3) + (le_u32(p.unk4) + (le_u16(p.year) + (enc_u8(p.month) + (enc_u8(p.day) + (enc_u8(p.hour) + (enc_u8(p.minute) + (enc_u8(p.second) + (enc_u8(p.centisecond) + (p.fname.spec_encode() + (le_u32(p.unk5) + (le_u32(p.unk6) + (le_u32(p.unk8) + (le_u32(p.unk9)))))))))))))));
        lemma_join_piece(b, 14, enc_u8(p.unk1), enc_u8(p.unk2) + (le_u32(p.unk3) + (le_u32(p.unk4) + (le_u16(p.year) + (enc_u8(p.month) + (enc_u8(p.day) + (enc_u8(p.hour) + (enc_u8(p.minute) + (enc_u8(p.second) + (enc_u8(p.centisecond) + (p.fname.spec_encode() + (le_u32(p.unk5) + (le_u32(p.unk6) + (le_u32(p.unk8) + (le_u32(p.unk9))))))))))))))));
        lemma_join_piece(b, 12, le_u16(p.version), enc_u8(p.unk1) + (enc_u8(p.unk2) + (le_u32(p.unk3) + (le_u32(p.unk4) + (le_u16(p.year) + (enc_u8(p.month) + (enc_u8(p.day) + (enc_u8(p.hour) + (enc_u8(p.minute) + (enc_u8(p.second) + (enc_u8(p.centisecond) + (p.fname.spec_encode() + (le_u32(p.unk5) + (le_u32(p.unk6) + (le_u32(p.unk8) + (le_u32(p.unk9)))))))))))))))));
        lemma_join_piece(b, 8, le_u32(p.flen), le_u16(p.version) + (enc_u8(p.unk1) + (enc_u8(p.unk2) + (le_u32(p.unk3) + (le_u32(p.unk4) + (le_u16(p.year) + (enc_u8(p.month) + (enc_u8(p.day) + (enc_u8(p.hour) + (enc_u8(p.minute) + (enc_u8(p.second) + (enc_u8(p.centisecond) + (p.fname.spec_encode() + (le_u32(p.unk5) + (le_u32(p.unk6) + (le_u32(p.unk8) + (le_u32(p.unk9))))))))))))))))));
        lemma_join_piece(b, 4, le_u32(p.unk7), le_u32(p.flen) + (le_u16(p.version) + (enc_u8(p.unk1) + (enc_u8(p.unk2) + (le_u32(p.unk3) + (le_u32(p.unk4) + (le_u16(p.year) + (enc_u8(p.month) + (enc_u8(p.day) + (enc_u8(p.hour) + (enc_u8(p.minute) + (enc_u8(p.second) + (enc_u8(p.centisecond) + (p.fname.spec_encode() + (le_u32(p.unk5) + (le_u32(p.unk6) + (le_u32(p.unk8) + (le_u32(p.unk9)))))))))))))))))));
        lemma_join_piece(b, 0, le_u32(p.magicn), le_u32(p.unk7) + (le_u32(p.flen) + (le_u16(p.version) + (enc_u8(p.unk1) + (enc_u8(p.unk2) + (le_u32(p.unk3) + (le_u32(p.unk4) + (le_u16(p.year) + (enc_u8(p.month) + (enc_u8(p.day) + (enc_u8(p.hour) + (enc_u8(p.minute) + (enc_u8(p.second) + (enc_u8(p.centisecond) + (p.fname.spec_encode() + (le_u32(p.unk5) + (le_u32(p.unk6) + (le_u32(p.unk8) + (le_u32(p.unk9))))))))))))))))))));
        lemma_skip_zero(b);
    }
}

impl SMDLHeader {
    /// The value that `default` returns.
    pub open spec fn spec_default() -> Self {
        SMDLHeader {
            magicn: 0x6C646D73u32,
            unk7: 0u32,
            flen: 0u32,
            version: 0x415u16,
            unk1: 0u8,
            unk2: 0u8,
            unk3: 0u32,
            unk4: 0u32,
            year: 0u16,
            month: 0u8,
            day: 0u8,
            hour: 0u8,
            minute: 0u8,
            second: 0u8,
            centisecond: 0u8,
            fname: DSEString::<0xFF>::spec_default(),
            unk5: 0x1u32,
            unk6: 0x1u32,
            unk8: 0xFFFFFFFFu32,
            unk9: 0xFFFFFFFFu32,
        }
    }
}

impl Default for SMDLHeader {
    fn default() -> (r: Self)
        ensures
            r == Self::spec_default(),
    {
        SMDLHeader {
            magicn: 0x6C646D73u32,
            unk7: 0u32,
            flen: 0u32,
            version: 0x415u16,
            unk1: 0u8,
            unk2: 0u8,
            unk3: 0u32,
            unk4: 0u32,
            year: 0u16,
            month: 0u8,
            day: 0u8,
            hour: 0u8,
            minute: 0u8,
            second: 0u8,
            centisecond: 0u8,
            fname: DSEString::<0xFF>::default(),
            unk5: 0x1u32,
            unk6: 0x1u32,
            unk8: 0xFFFFFFFFu32,
            unk9: 0xFFFFFFFFu32,
        }
    }
}

impl View for SMDLHeader {
    type V = Self;

    open spec fn view(&self) -> Self {
        *self
    }
}

impl ReadWrite for SMDLHeader {
    open spec fn spec_write(&self) -> Result<Seq<u8>, DSEError> {
        Ok(self.spec_encode())
    }

    open spec fn spec_read(v: Self, data: Seq<u8>, pos: int) -> Result<(Self, int), DSEError> {
        spec_record_read::<Self>(data, pos)
    }

    open spec fn spec_fresh() -> Self {
        Self::spec_default()
    }

    fn fresh() -> (r: Self) {
        Self::default()
    }

    fn write_to_file(&self, writer: &mut Vec<u8>) -> (res: Result<usize, DSEError>) {
        write_record(self, writer)
    }

    fn read_from_file(&mut self, reader: &mut DataReader) -> (res: Result<(), DSEError>) {
        read_record(self, reader)
    }
}

/// The song chunk of an SMDL file.
#[allow(non_snake_case)]
#[derive(Debug, Clone, PartialEq, Eq)]
pub struct SongChunk {
    /// The characters "song".
    pub label: u32,
    pub unk1: u32,
    pub unk2: u32,
    pub unk3: u32,
    pub unk4: u16,
    /// Ticks per quarter note.
    pub tpqn: u16,
    pub unk5: u16,
    /// Number of track chunks.
    pub nbtrks: u8,
    /// Number of channels: the largest channel of the tracks plus 1.
    pub nbchans: u8,
    pub unk6: u32,
    pub unk7: u32,
    pub unk8: u32,
    pub unk9: u32,
    pub unk10: u16,
    pub unk11: u16,
    pub unk12: u32,
    /// 16 bytes of 0xFF.
    pub unkpad: [u8; 16],
}

impl SongChunk {
    /// The bytes of a `SongChunk`: its fields one after the other in the order
    /// they are declared, integers of more than one byte little-endian unless
    /// written `be_`, a `bool` as 1 or 0.
    pub proof fn lemma_encoding(&self)
        ensures
            self.spec_encode() == le_u32(self.label) + (le_u32(self.unk1) + (le_u32(self.unk2) + (le_u32(self.unk3) + (le_u16(self.unk4) + (le_u16(self.tpqn) + (le_u16(self.unk5) + (enc_u8(self.nbtrks) + (enc_u8(self.nbchans) + (le_u32(self.unk6) + (le_u32(self.unk7) + (le_u32(self.unk8) + (le_u32(self.unk9) + (le_u16(self.unk10) + (le_u16(self.unk11) + (le_u32(self.unk12) + (self.unkpad@)))))))))))))))),
    {
    }
}

impl AutoReadWrite for SongChunk {
    open spec fn spec_size() -> nat {
        64
    }

    closed spec fn spec_encode(&self) -> Seq<u8> {
        le_u32(self.label) + (le_u32(self.unk1) + (le_u32(self.unk2) + (le_u32(self.unk3) + (le_u16(self.unk4) + (le_u16(self.tpqn) + (le_u16(self.unk5) + (enc_u8(self.nbtrks) + (enc_u8(self.nbchans) + (le_u32(self.unk6) + (le_u32(self.unk7) + (le_u32(self.unk8) + (le_u32(self.unk9) + (le_u16(self.unk10) + (le_u16(self.unk11) + (le_u32(self.unk12) + (self.unkpad@))))))))))))))))
    }

    closed spec fn spec_parse(b: Seq<u8>) -> Self {
        SongChunk {
            label: u32_of(b.subrange(0, 4)),
            unk1: u32_of(b.subrange(4, 8)),
            unk2: u32_of(b.subrange(8, 12)),
            unk3: u32_of(b.subrange(12, 16)),
            unk4: u16_of(b.subrange(16, 18)),
            tpqn: u16_of(b.subrange(18, 20)),
            unk5: u16_of(b.subrange(20, 22)),
            nbtrks: b.subrange(22, 23)[0],
            nbchans: b.subrange(23, 24)[0],
            unk6: u32_of(b.subrange(24, 28)),
            unk7: u32_of(b.subrange(28, 32)),
            unk8: u32_of(b.subrange(32, 36)),
            unk9: u32_of(b.subrange(36, 40)),
            unk10: u16_of(b.subrange(40, 42)),
            unk11: u16_of(b.subrange(42, 44)),
            unk12: u32_of(b.subrange(44, 48)),
            unkpad: array_from_seq::<16>(b.subrange(48, 64)),
        }
    }

    open spec fn spec_canonical(b: Seq<u8>) -> bool {
        true
    }

    fn byte_len() -> (n: usize) {
        64
    }

    #[verifier::spinoff_prover]
    #[verifier::rlimit(100)]
    fn encode_fields(&self, out: &mut Vec<u8>) {
        let ghost s0 = out@;
        push_u32(out, self.label);
        proof { vstd::seq_lib::lemma_concat_associative(s0, le_u32(self.label), le_u32(self.unk1) + (le_u32(self.unk2) + (le_u32(self.unk3) + (le_u16(self.unk4) + (le_u16(self.tpqn) + (le_u16(self.unk5) + (enc_u8(self.nbtrks) + (enc_u8(self.nbchans) + (le_u32(self.unk6) + (le_u32(self.unk7) + (le_u32(self.unk8) + (le_u32(self.unk9) + (le_u16(self.unk10) + (le_u16(self.unk11) + (le_u32(self.unk12) + (self.unkpad@)))))))))))))))); }
        let ghost s1 = out@;
        push_u32(out, self.unk1);
        proof { vstd::seq_lib::lemma_concat_associative(s1, le_u32(self.unk1), le_u32(self.unk2) + (le_u32(self.unk3) + (le_u16(self.unk4) + (le_u16(self.tpqn) + (le_u16(self.unk5) + (enc_u8(self.nbtrks) + (enc_u8(self.nbchans) + (le_u32(self.unk6) + (le_u32(self.unk7) + (le_u32(self.unk8) + (le_u32(self.unk9) + (le_u16(self.unk10) + (le_u16(self.unk11) + (le_u32(self.unk12) + (self.unkpad@))))))))))))))); }
        let ghost s2 = out@;
        push_u32(out, self.unk2);
        proof { vstd::seq_lib::lemma_concat_associative(s2, le_u32(self.unk2), le_u32(self.unk3) + (le_u16(self.unk4) + (le_u16(self.tpqn) + (le_u16(self.unk5) + (enc_u8(self.nbtrks) + (enc_u8(self.nbchans) + (le_u32(self.unk6) + (le_u32(self.unk7) + (le_u32(self.unk8) + (le_u32(self.unk9) + (le_u16(self.unk10) + (le_u16(self.unk11) + (le_u32(self.unk12) + (self.unkpad@)))))))))))))); }
        let ghost s3 = out@;
        push_u32(out, self.unk3);
        proof { vstd::seq_lib::lemma_concat_associative(s3, le_u32(self.unk3), le_u16(self.unk4) + (le_u16(self.tpqn) + (le_u16(self.unk5) + (enc_u8(self.nbtrks) + (enc_u8(self.nbchans) + (le_u32(self.unk6) + (le_u32(self.unk7) + (le_u32(self.unk8) + (le_u32(self.unk9) + (le_u16(self.unk10) + (le_u16(self.unk11) + (le_u32(self.unk12) + (self.unkpad@))))))))))))); }
        let ghost s4 = out@;
        push_u16(out, self.unk4);
        proof { vstd::seq_lib::lemma_concat_associative(s4, le_u16(self.unk4), le_u16(self.tpqn) + (le_u16(self.unk5) + (enc_u8(self.nbtrks) + (enc_u8(self.nbchans) + (le_u32(self.unk6) + (le_u32(self.unk7) + (le_u32(self.unk8) + (le_u32(self.unk9) + (le_u16(self.unk10) + (le_u16(self.unk11) + (le_u32(self.unk12) + (self.unkpad@)))))))))))); }
        let ghost s5 = out@;
        push_u16(out, self.tpqn);
        proof { vstd::seq_lib::lemma_concat_associative(s5, le_u16(self.tpqn), le_u16(self.unk5) + (enc_u8(self.nbtrks) + (enc_u8(self.nbchans) + (le_u32(self.unk6) + (le_u32(self.unk7) + (le_u32(self.unk8) + (le_u32(self.unk9) + (le_u16(self.unk10) + (le_u16(self.unk11) + (le_u32(self.unk12) + (self.unkpad@))))))))))); }
        let ghost s6 = out@;
        push_u16(out, self.unk5);
        proof { vstd::seq_lib::lemma_concat_associative(s6, le_u16(self.unk5), enc_u8(self.nbtrks) + (enc_u8(self.nbchans) + (le_u32(self.unk6) + (le_u32(self.unk7) + (le_u32(self.unk8) + (le_u32(self.unk9) + (le_u16(self.unk10) + (le_u16(self.unk11) + (le_u32(self.unk12) + (self.unkpad@)))))))))); }
        let ghost s7 = out@;
        push_u8(out, self.nbtrks);
        proof { vstd::seq_lib::lemma_concat_associative(s7, enc_u8(self.nbtrks), enc_u8(self.nbchans) + (le_u32(self.unk6) + (le_u32(self.unk7) + (le_u32(self.unk8) + (le_u32(self.unk9) + (le_u16(self.unk10) + (le_u16(self.unk11) + (le_u32(self.unk12) + (self.unkpad@))))))))); }
        let ghost s8 = out@;
        push_u8(out, self.nbchans);
        proof { vstd::seq_lib::lemma_concat_associative(s8, enc_u8(self.nbchans), le_u32(self.unk6) + (le_u32(self.unk7) + (le_u32(self.unk8) + (le_u32(self.unk9) + (le_u16(self.unk10) + (le_u16(self.unk11) + (le_u32(self.unk12) + (self.unkpad@)))))))); }
        let ghost s9 = out@;
        push_u32(out, self.unk6);
        proof { vstd::seq_lib::lemma_concat_associative(s9, le_u32(self.unk6), le_u32(self.unk7) + (le_u32(self.unk8) + (le_u32(self.unk9) + (le_u16(self.unk10) + (le_u16(self.unk11) + (le_u32(self.unk12) + (self.unkpad@))))))); }
        let ghost s10 = out@;
        push_u32(out, self.unk7);
        proof { vstd::seq_lib::lemma_concat_associative(s10, le_u32(self.unk7), le_u32(self.unk8) + (le_u32(self.unk9) + (le_u16(self.unk10) + (le_u16(self.unk11) + (le_u32(self.unk12) + (self.unkpad@)))))); }
        let ghost s11 = out@;
        push_u32(out, self.unk8);
        proof { vstd::seq_lib::lemma_concat_associative(s11, le_u32(self.unk8), le_u32(self.unk9) + (le_u16(self.unk10) + (le_u16(self.unk11) + (le_u32(self.unk12) + (self.unkpad@))))); }
        let ghost s12 = out@;
        push_u32(out, self.unk9);
        proof { vstd::seq_lib::lemma_concat_associative(s12, le_u32(self.unk9), le_u16(self.unk10) + (le_u16(self.unk11) + (le_u32(self.unk12) + (self.unkpad@)))); }
        let ghost s13 = out@;
        push_u16(out, self.unk10);
        proof { vstd::seq_lib::lemma_concat_associative(s13, le_u16(self.unk10), le_u16(self.unk11) + (le_u32(self.unk12) + (self.unkpad@))); }
        let ghost s14 = out@;
        push_u16(out, self.unk11);
        proof { vstd::seq_lib::lemma_concat_associative(s14, le_u16(self.unk11), le_u32(self.unk12) + (self.unkpad@)); }
        let ghost s15 = out@;
        push_u32(out, self.unk12);
        proof { vstd::seq_lib::lemma_concat_associative(s15, le_u32(self.unk12), self.unkpad@); }
        let ghost s16 = out@;
        push_bytes(out, self.unkpad.as_slice());
    }

    #[verifier::spinoff_prover]
    #[verifier::rlimit(100)]
    fn decode_fields(d: &[u8], pos: usize) -> (r: Self) {
        let _dlen = d.len();
        let label = get_u32(d, pos + 0);
        let unk1 = get_u32(d, pos + 4);
        let unk2 = get_u32(d, pos + 8);
        let unk3 = get_u32(d, pos + 12);
        let unk4 = get_u16(d, pos + 16);
        let tpqn = get_u16(d, pos + 18);
        let unk5 = get_u16(d, pos + 20);
        let nbtrks = get_u8(d, pos + 22);
        let nbchans = get_u8(d, pos + 23);
        let unk6 = get_u32(d, pos + 24);
        let unk7 = get_u32(d, pos + 28);
        let unk8 = get_u32(d, pos + 32);
        let unk9 = get_u32(d, pos + 36);
        let unk10 = get_u16(d, pos + 40);
        let unk11 = get_u16(d, pos + 42);
        let unk12 = get_u32(d, pos + 44);
        let unkpad = get_bytes16(d, pos + 48);
        proof {
            let b = d@.subrange(pos as int, pos + 64);
            assert(b.subrange(0, 4) =~= d@.subrange(pos + 0, pos + 4));
            assert(b.subrange(4, 8) =~= d@.subrange(pos + 4, pos + 8));
            assert(b.subrange(8, 12) =~= d@.subrange(pos + 8, pos + 12));
            assert(b.subrange(12, 16) =~= d@.subrange(pos + 12, pos + 16));
            assert(b.subrange(16, 18) =~= d@.subrange(pos + 16, pos + 18));
            assert(b.subrange(18, 20) =~= d@.subrange(pos + 18, pos + 20));
            assert(b.subrange(20, 22) =~= d@.subrange(pos + 20, pos + 22));
            assert(b.subrange(24, 28) =~= d@.subrange(pos + 24, pos + 28));
            assert(b.subrange(28, 32) =~= d@.subrange(pos + 28, pos + 32));
            assert(b.subrange(32, 36) =~= d@.subrange(pos + 32, pos + 36));
            assert(b.subrange(36, 40) =~= d@.subrange(pos + 36, pos + 40));
            assert(b.subrange(40, 42) =~= d@.subrange(pos + 40, pos + 42));
            assert(b.subrange(42, 44) =~= d@.subrange(pos + 42, pos + 44));
            assert(b.subrange(44, 48) =~= d@.subrange(pos + 44, pos + 48));
            assert(b.subrange(48, 64) =~= d@.subrange(pos + 48, pos + 64));
            lemma_array_from_view::<16>(unkpad);
        }
        SongChunk { label, unk1, unk2, unk3, unk4, tpqn, unk5, nbtrks, nbchans, unk6, unk7, unk8, unk9, unk10, unk11, unk12, unkpad }
    }

    #[verifier::spinoff_prover]
    #[verifier::rlimit(100)]
    proof fn lemma_parse_encode(&self) {
        let e = self.spec_encode();
        lemma_skip_zero(e);
        lemma_split_piece(e, 0, le_u32(self.label), le_u32(self.unk1) + (le_u32(self.unk2) + (le_u32(self.unk3) + (le_u16(self.unk4) + (le_u16(self.tpqn) + (le_u16(self.unk5) + (enc_u8(self.nbtrks) + (enc_u8(self.nbchans) + (le_u32(self.unk6) + (le_u32(self.unk7) + (le_u32(self.unk8) + (le_u32(self.unk9) + (le_u16(self.unk10) + (le_u16(self.unk11) + (le_u32(self.unk12) + (self.unkpad@))))))))))))))));
        lemma_u32_roundtrip(self.label);
        lemma_split_piece(e, 4, le_u32(self.unk1), le_u32(self.unk2) + (le_u32(self.unk3) + (le_u16(self.unk4) + (le_u16(self.tpqn) + (le_u16(self.unk5) + (enc_u8(self.nbtrks) + (enc_u8(self.nbchans) + (le_u32(self.unk6) + (le_u32(self.unk7) + (le_u32(self.unk8) + (le_u32(self.unk9) + (le_u16(self.unk10) + (le_u16(self.unk11) + (le_u32(self.unk12) + (self.unkpad@)))))))))))))));
        lemma_u32_roundtrip(self.unk1);
        lemma_split_piece(e, 8, le_u32(self.unk2), le_u32(self.unk3) + (le_u16(self.unk4) + (le_u16(self.tpqn) + (le_u16(self.unk5) + (enc_u8(self.nbtrks) + (enc_u8(self.nbchans) + (le_u32(self.unk6) + (le_u32(self.unk7) + (le_u32(self.unk8) + (le_u32(self.unk9) + (le_u16(self.unk10) + (le_u16(self.unk11) + (le_u32(self.unk12) + (self.unkpad@))))))))))))));
        lemma_u32_roundtrip(self.unk2);
        lemma_split_piece(e, 12, le_u32(self.unk3), le_u16(self.unk4) + (le_u16(self.tpqn) + (le_u16(self.unk5) + (enc_u8(self.nbtrks) + (enc_u8(self.nbchans) + (le_u32(self.unk6) + (le_u32(self.unk7) + (le_u32(self.unk8) + (le_u32(self.unk9) + (le_u16(self.unk10) + (le_u16(self.unk11) + (le_u32(self.unk12) + (self.unkpad@)))))))))))));
        lemma_u32_roundtrip(self.unk3);
        lemma_split_piece(e, 16, le_u16(self.unk4), le_u16(self.tpqn) + (le_u16(self.unk5) + (enc_u8(self.nbtrks) + (enc_u8(self.nbchans) + (le_u32(self.unk6) + (le_u32(self.unk7) + (le_u32(self.unk8) + (le_u32(self.unk9) + (le_u16(self.unk10) + (le_u16(self.unk11) + (le_u32(self.unk12) + (self.unkpad@))))))))))));
        lemma_u16_roundtrip(self.unk4);
        lemma_split_piece(e, 18, le_u16(self.tpqn), le_u16(self.unk5) + (enc_u8(self.nbtrks) + (enc_u8(self.nbchans) + (le_u32(self.unk6) + (le_u32(self.unk7) + (le_u32(self.unk8) + (le_u32(self.unk9) + (le_u16(self.unk10) + (le_u16(self.unk11) + (le_u32(self.unk12) + (self.unkpad@)))))))))));
        lemma_u16_roundtrip(self.tpqn);
        lemma_split_piece(e, 20, le_u16(self.unk5), enc_u8(self.nbtrks) + (enc_u8(self.nbchans) + (le_u32(self.unk6) + (le_u32(self.unk7) + (le_u32(self.unk8) + (le_u32(self.unk9) + (le_u16(self.unk10) + (le_u16(self.unk11) + (le_u32(self.unk12) + (self.unkpad@))))))))));
        lemma_u16_roundtrip(self.unk5);
        lemma_split_piece(e, 22, enc_u8(self.nbtrks), enc_u8(self.nbchans) + (le_u32(self.unk6) + (le_u32(self.unk7) + (le_u32(self.unk8) + (le_u32(self.unk9) + (le_u16(self.unk10) + (le_u16(self.unk11) + (le_u32(self.unk12) + (self.unkpad@)))))))));
        lemma_split_piece(e, 23, enc_u8(self.nbchans), le_u32(self.unk6) + (le_u32(self.unk7) + (le_u32(self.unk8) + (le_u32(self.unk9) + (le_u16(self.unk10) + (le_u16(self.unk11) + (le_u32(self.unk12) + (self.unkpad@))))))));
        lemma_split_piece(e, 24, le_u32(self.unk6), le_u32(self.unk7) + (le_u32(self.unk8) + (le_u32(self.unk9) + (le_u16(self.unk10) + (le_u16(self.unk11) + (le_u32(self.unk12) + (self.unkpad@)))))));
        lemma_u32_roundtrip(self.unk6);
        lemma_split_piece(e, 28, le_u32(self.unk7), le_u32(self.unk8) + (le_u32(self.unk9) + (le_u16(self.unk10) + (le_u16(self.unk11) + (le_u32(self.unk12) + (self.unkpad@))))));
        lemma_u32_roundtrip(self.unk7);
        lemma_split_piece(e, 32, le_u32(self.unk8), le_u32(self.unk9) + (le_u16(self.unk10) + (le_u16(self.unk11) + (le_u32(self.unk12) + (self.unkpad@)))));
        lemma_u32_roundtrip(self.unk8);
        lemma_split_piece(e, 36, le_u32(self.unk9), le_u16(self.unk10) + (le_u16(self.unk11) + (le_u32(self.unk12) + (self.unkpad@))));
        lemma_u32_roundtrip(self.unk9);
        lemma_split_piece(e, 40, le_u16(self.unk10), le_u16(self.unk11) + (le_u32(self.unk12) + (self.unkpad@)));
        lemma_u16_roundtrip(self.unk10);
        lemma_split_piece(e, 42, le_u16(self.unk11), le_u32(self.unk12) + (self.unkpad@));
        lemma_u16_roundtrip(self.unk11);
        lemma_split_piece(e, 44, le_u32(self.unk12), self.unkpad@);
        lemma_u32_roundtrip(self.unk12);
        lemma_split_piece(e, 48, self.unkpad@, Seq::<u8>::empty());
        assert(self.unkpad@ + Seq::<u8>::empty() =~= self.unkpad@);
        lemma_array_from_view::<16>(self.unkpad);
        assert(Self::spec_parse(e) == *self);
    }

    #[verifier::spinoff_prover]
    #[verifier::rlimit(100)]
    proof fn lemma_encode_parse(b: Seq<u8>) {
        let p = Self::spec_parse(b);
        lemma_u32_bytes(b.subrange(0, 4));
        assert(le_u32(p.label) =~= b.subrange(0, 4));
        lemma_u32_bytes(b.subrange(4, 8));
        assert(le_u32(p.unk1) =~= b.subrange(4, 8));
        lemma_u32_bytes(b.subrange(8, 12));
        assert(le_u32(p.unk2) =~= b.subrange(8, 12));
        lemma_u32_bytes(b.subrange(12, 16));
        assert(le_u32(p.unk3) =~= b.subrange(12, 16));
        lemma_u16_bytes(b.subrange(16, 18));
        assert(le_u16(p.unk4) =~= b.subrange(16, 18));
        lemma_u16_bytes(b.subrange(18, 20));
        assert(le_u16(p.tpqn) =~= b.subrange(18, 20));
        lemma_u16_bytes(b.subrange(20, 22));
        assert(le_u16(p.unk5) =~= b.subrange(20, 22));
        assert(enc_u8(p.nbtrks) =~= b.subrange(22, 23));
        assert(enc_u8(p.nbchans) =~= b.subrange(23, 24));
        lemma_u32_bytes(b.subrange(24, 28));
        assert(le_u32(p.unk6) =~= b.subrange(24, 28));
        lemma_u32_bytes(b.subrange(28, 32));
        assert(le_u32(p.unk7) =~= b.subrange(28, 32));
        lemma_u32_bytes(b.subrange(32, 36));
        assert(le_u32(p.unk8) =~= b.subrange(32, 36));
        lemma_u32_bytes(b.subrange(36, 40));
        assert(le_u32(p.unk9) =~= b.subrange(36, 40));
        lemma_u16_bytes(b.subrange(40, 42));
        assert(le_u16(p.unk10) =~= b.subrange(40, 42));
        lemma_u16_bytes(b.subrange(42, 44));
        assert(le_u16(p.unk11) =~= b.subrange(42, 44));
        lemma_u32_bytes(b.subrange(44, 48));
        assert(le_u32(p.unk12) =~= b.subrange(44, 48));
        lemma_array_from_seq::<16>(b.subrange(48, 64));
        assert(p.unkpad@ =~= b.subrange(48, 64));
        lemma_skip_tail(b, 48);
        lemma_join_piece(b, 44, le_u32(p.unk12), p.unkpad@);
        lemma_join_piece(b, 42, le_u16(p.unk11), le_u32(p.unk12) + (p.unkpad@));
        lemma_join_piece(b, 40, le_u16(p.unk10), le_u16(p.unk11) + (le_u32(p.unk12) + (p.unkpad@)));
        lemma_join_piece(b, 36, le_u32(p.unk9), le_u16(p.unk10) + (le_u16(p.unk11) + (le_u32(p.unk12) + (p.unkpad@))));
        lemma_join_piece(b, 32, le_u32(p.unk8), le_u32(p.unk9) + (le_u16(p.unk10) + (le_u16(p.unk11) + (le_u32(p.unk12) + (p.unkpad@)))));
        lemma_join_piece(b, 28, le_u32(p.unk7), le_u32(p.unk8) + (le_u32(p.unk9) + (le_u16(p.unk10) + (le_u16(p.unk11) + (le_u32(p.unk12) + (p.unkpad@))))));
        lemma_join_piece(b, 24, le_u32(p.unk6), le_u32(p.unk7) + (le_u32(p.unk8) + (le_u32(p.unk9) + (le_u16(p.unk10) + (le_u16(p.unk11) + (le_u32(p.unk12) + (p.unkpad@)))))));
        lemma_join_piece(b, 23, enc_u8(p.nbchans), le_u32(p.unk6) + (le_u32(p.unk7) + (le_u32(p.unk8) + (le_u32(p.unk9) + (le_u16(p.unk10) + (le_u16(p.unk11) + (le_u32(p.unk12) + (p.unkpad@))))))));
        lemma_join_piece(b, 22, enc_u8(p.nbtrks), enc_u8(p.nbchans) + (le_u32(p.unk6) + (le_u32(p.unk7) + (le_u32(p.unk8) + (le_u32(p.unk9) + (le_u16(p.unk10) + (le_u16(p.unk11) + (le_u32(p.unk12) + (p.unkpad@)))))))));
        lemma_join_piece(b, 20, le_u16(p.unk5), enc_u8(p.nbtrks) + (enc_u8(p.nbchans) + (le_u32(p.unk6) + (le_u32(p.unk7) + (le_u32(p.unk8) + (le_u32(p.unk9) + (le_u16(p.unk10) + (le_u16(p.unk11) + (le_u32(p.unk12) + (p.unkpad@))))))))));
        lemma_join_piece(b, 18, le_u16(p.tpqn), le_u16(p.unk5) + (enc_u8(p.nbtrks) + (enc_u8(p.nbchans) + (le_u32(p.unk6) + (le_u32(p.unk7) + (le_u32(p.unk8) + (le_u32(p.unk9) + (le_u16(p.unk10) + (le_u16(p.unk11) + (le_u32(p.unk12) + (p.unkpad@)))))))))));
        lemma_join_piece(b, 16, le_u16(p.unk4), le_u16(p.tpqn) + (le_u16(p.unk5) + (enc_u8(p.nbtrks) + (enc_u8(p.nbchans) + (le_u32(p.unk6) + (le_u32(p.unk7) + (le_u32(p.unk8) + (le_u32(p.unk9) + (le_u16(p.unk10) + (le_u16(p.unk11) + (le_u32(p.unk12) + (p.unkpad@))))))))))));
        lemma_join_piece(b, 12, le_u32(p.unk3), le_u16(p.unk4) + (le_u16(p.tpqn) + (le_u16(p.unk5) + (enc_u8(p.nbtrks) + (enc_u8(p.nbchans) + (le_u32(p.unk6) + (le_u32(p.unk7) + (le_u32(p.unk8) + (le_u32(p.unk9) + (le_u16(p.unk10) + (le_u16(p.unk11) + (le_u32(p.unk12) + (p.unkpad@)))))))))))));
        lemma_join_piece(b, 8, le_u32(p.unk2), le_u32(p.unk3) + (le_u16(p.unk4) + (le_u16(p.tpqn) + (le_u16(p.unk5) + (enc_u8(p.nbtrks) + (enc_u8(p.nbchans) + (le_u32(p.unk6) + (le_u32(p.unk7) + (le_u32(p.unk8) + (le_u32(p.unk9) + (le_u16(p.unk10) + (le_u16(p.unk11) + (le_u32(p.unk12) + (p.unkpad@))))))))))))));
        lemma_join_piece(b, 4, le_u32(p.unk1), le_u32(p.unk2) + (le_u32(p.unk3) + (le_u16(p.unk4) + (le_u16(p.tpqn) + (le_u16(p.unk5) + (enc_u8(p.nbtrks) + (enc_u8(p.nbchans) + (le_u32(p.unk6) + (le_u32(p.unk7) + (le_u32(p.unk8) + (le_u32(p.unk9) + (le_u16(p.unk10) + (le_u16(p.unk11) + (le_u32(p.unk12) + (p.unkpad@)))))))))))))));
        lemma_join_piece(b, 0, le_u32(p.label), le_u32(p.unk1) + (le_u32(p.unk2) + (le_u32(p.unk3) + (le_u16(p.unk4) + (le_u16(p.tpqn) + (le_u16(p.unk5) + (enc_u8(p.nbtrks) + (enc_u8(p.nbchans) + (le_u32(p.unk6) + (le_u32(p.unk7) + (le_u32(p.unk8) + (le_u32(p.unk9) + (le_u16(p.unk10) + (le_u16(p.unk11) + (le_u32(p.unk12) + (p.unkpad@))))))))))))))));
        lemma_skip_zero(b);
    }
}

impl SongChunk {
    /// The value that `default` returns.
    pub open spec fn spec_default() -> Self {
        SongChunk {
            label: 0x676E6F73u32,
            unk1: 0x01000000u32,
            unk2: 0x0000FF10u32,
            unk3: 0xFFFFFFB0u32,
            unk4: 0x1u16,
            tpqn: 0u16,
            unk5: 0xFF01u16,
            nbtrks: 0u8,
            nbchans: 0u8,
            unk6: 0x0F000000u32,
            unk7: 0xFFFFFFFFu32,
            unk8: 0x40000000u32,
            unk9: 0x00404000u32,
            unk10: 0x0200u16,
            unk11: 0x0800u16,
            unk12: 0xFFFFFF00u32,
            unkpad: vstd::array::spec_array_fill_for_copy_type::<u8, 16>(0xFFu8),
        }
    }
}

impl Default for SongChunk {
    fn default() -> (r: Self)
        ensures
            r == Self::spec_default(),
    {
        SongChunk {
            label: 0x676E6F73u32,
            unk1: 0x01000000u32,
            unk2: 0x0000FF10u32,
            unk3: 0xFFFFFFB0u32,
            unk4: 0x1u16,
            tpqn: 0u16,
            unk5: 0xFF01u16,
            nbtrks: 0u8,
            nbchans: 0u8,
            unk6: 0x0F000000u32,
            unk7: 0xFFFFFFFFu32,
            unk8: 0x40000000u32,
            unk9: 0x00404000u32,
            unk10: 0x0200u16,
            unk11: 0x0800u16,
            unk12: 0xFFFFFF00u32,
            unkpad: {
                let a: [u8; 16] = [0xFFu8; 16];
                a
            },
        }
    }
}

impl View for SongChunk {
    type V = Self;

    open spec fn view(&self) -> Self {
        *self
    }
}

impl ReadWrite for SongChunk {
    open spec fn spec_write(&self) -> Result<Seq<u8>, DSEError> {
        Ok(self.spec_encode())
    }

    open spec fn spec_read(v: Self, data: Seq<u8>, pos: int) -> Result<(Self, int), DSEError> {
        spec_record_read::<Self>(data, pos)
    }

    open spec fn spec_fresh() -> Self {
        Self::spec_default()
    }

    fn fresh() -> (r: Self) {
        Self::default()
    }

    fn write_to_file(&self, writer: &mut Vec<u8>) -> (res: Result<usize, DSEError>) {
        write_record(self, writer)
    }

    fn read_from_file(&mut self, reader: &mut DataReader) -> (res: Result<(), DSEError>) {
        read_record(self, reader)
    }
}

/// The header of a track chunk.
#[allow(non_snake_case)]
#[derive(Debug, Clone, PartialEq, Eq)]
pub struct TrkChunkHeader {
    /// The characters "trk ".
    pub label: u32,
    pub param1: u32,
    pub param2: u32,
    /// Length of the preamble and the events.
    pub chunklen: u32,
}

impl TrkChunkHeader {
    /// The bytes of a `TrkChunkHeader`: its fields one after the other in the order
    /// they are declared, integers of more than one byte little-endian unless
    /// written `be_`, a `bool` as 1 or 0.
    pub proof fn lemma_encoding(&self)
        ensures
            self.spec_encode() == le_u32(self.label) + (le_u32(self.param1) + (le_u32(self.param2) + (le_u32(self.chunklen)))),
    {
    }
}

impl AutoReadWrite for TrkChunkHeader {
    open spec fn spec_size() -> nat {
        16
    }

    closed spec fn spec_encode(&self) -> Seq<u8> {
        le_u32(self.label) + (le_u32(self.param1) + (le_u32(self.param2) + (le_u32(self.chunklen))))
    }

    closed spec fn spec_parse(b: Seq<u8>) -> Self {
        TrkChunkHeader {
            label: u32_of(b.subrange(0, 4)),
            param1: u32_of(b.subrange(4, 8)),
            param2: u32_of(b.subrange(8, 12)),
            chunklen: u32_of(b.subrange(12, 16)),
        }
    }

    open spec fn spec_canonical(b: Seq<u8>) -> bool {
        true
    }

    fn byte_len() -> (n: usize) {
        16
    }

    fn encode_fields(&self, out: &mut Vec<u8>) {
        let ghost s0 = out@;
        push_u32(out, self.label);
        proof { vstd::seq_lib::lemma_concat_associative(s0, le_u32(self.label), le_u32(self.param1) + (le_u32(self.param2) + (le_u32(self.chunklen)))); }
        let ghost s1 = out@;
        push_u32(out, self.param1);
        proof { vstd::seq_lib::lemma_concat_associative(s1, le_u32(self.param1), le_u32(self.param2) + (le_u32(self.chunklen))); }
        let ghost s2 = out@;
        push_u32(out, self.param2);
        proof { vstd::seq_lib::lemma_concat_associative(s2, le_u32(self.param2), le_u32(self.chunklen)); }
        let ghost s3 = out@;
        push_u32(out, self.chunklen);
    }

    fn decode_fields(d: &[u8], pos: usize) -> (r: Self) {
        let _dlen = d.len();
        let label = get_u32(d, pos + 0);
        let param1 = get_u32(d, pos + 4);
        let param2 = get_u32(d, pos + 8);
        let chunklen = get_u32(d, pos + 12);
        proof {
            let b = d@.subrange(pos as int, pos + 16);
            assert(b.subrange(0, 4) =~= d@.subrange(pos + 0, pos + 4));
            assert(b.subrange(4, 8) =~= d@.subrange(pos + 4, pos + 8));
            assert(b.subrange(8, 12) =~= d@.subrange(pos + 8, pos + 12));
            assert(b.subrange(12, 16) =~= d@.subrange(pos + 12, pos + 16));
        }
        TrkChunkHeader { label, param1, param2, chunklen }
    }

    proof fn lemma_parse_encode(&self) {
        let e = self.spec_encode();
        lemma_skip_zero(e);
        lemma_split_piece(e, 0, le_u32(self.label), le_u32(self.param1) + (le_u32(self.param2) + (le_u32(self.chunklen))));
        lemma_u32_roundtrip(self.label);
        lemma_split_piece(e, 4, le_u32(self.param1), le_u32(self.param2) + (le_u32(self.chunklen)));
        lemma_u32_roundtrip(self.param1);
        lemma_split_piece(e, 8, le_u32(self.param2), le_u32(self.chunklen));
        lemma_u32_roundtrip(self.param2);
        lemma_split_piece(e, 12, le_u32(self.chunklen), Seq::<u8>::empty());
        assert(le_u32(self.chunklen) + Seq::<u8>::empty() =~= le_u32(self.chunklen));
        lemma_u32_roundtrip(self.chunklen);
        assert(Self::spec_parse(e) == *self);
    }

    proof fn lemma_encode_parse(b: Seq<u8>) {
        let p = Self::spec_parse(b);
        lemma_u32_bytes(b.subrange(0, 4));
        assert(le_u32(p.label) =~= b.subrange(0, 4));
        lemma_u32_bytes(b.subrange(4, 8));
        assert(le_u32(p.param1) =~= b.subrange(4, 8));
        lemma_u32_bytes(b.subrange(8, 12));
        assert(le_u32(p.param2) =~= b.subrange(8, 12));
        lemma_u32_bytes(b.subrange(12, 16));
        assert(le_u32(p.chunklen) =~= b.subrange(12, 16));
        lemma_skip_tail(b, 12);
        lemma_join_piece(b, 8, le_u32(p.param2), le_u32(p.chunklen));
        lemma_join_piece(b, 4, le_u32(p.param1), le_u32(p.param2) + (le_u32(p.chunklen)));
        lemma_join_piece(b, 0, le_u32(p.label), le_u32(p.param1) + (le_u32(p.param2) + (le_u32(p.chunklen))));
        lemma_skip_zero(b);
    }
}

impl TrkChunkHeader {
    /// The value that `default` returns.
    pub open spec fn spec_default() -> Self {
        TrkChunkHeader {
            label: 0x206B7274u32,
            param1: 0x01000000u32,
            param2: 0x0000FF04u32,
            chunklen: 0u32,
        }
    }
}

impl Default for TrkChunkHeader {
    fn default() -> (r: Self)
        ensures
            r == Self::spec_default(),
    {
        TrkChunkHeader {
            label: 0x206B7274u32,
            param1: 0x01000000u32,
            param2: 0x0000FF04u32,
            chunklen: 0u32,
        }
    }
}

impl View for TrkChunkHeader {
    type V = Self;

    open spec fn view(&self) -> Self {
        *self
    }
}

impl ReadWrite for TrkChunkHeader {
    open spec fn spec_write(&self) -> Result<Seq<u8>, DSEError> {
        Ok(self.spec_encode())
    }

    open spec fn spec_read(v: Self, data: Seq<u8>, pos: int) -> Result<(Self, int), DSEError> {
        spec_record_read::<Self>(data, pos)
    }

    open spec fn spec_fresh() -> Self {
        Self::spec_default()
    }

    fn fresh() -> (r: Self) {
        Self::default()
    }

    fn write_to_file(&self, writer: &mut Vec<u8>) -> (res: Result<usize, DSEError>) {
        write_record(self, writer)
    }

    fn read_from_file(&mut self, reader: &mut DataReader) -> (res: Result<(), DSEError>) {
        read_record(self, reader)
    }
}

/// The four bytes that open a track's data.
#[allow(non_snake_case)]
#[derive(Debug, Clone, PartialEq, Eq)]
pub struct TrkChunkPreamble {
    /// Track id, between 0 and 0x11.
    pub trkid: u8,
    /// Channel of the track.
    pub chanid: u8,
    pub unk1: u8,
    pub unk2: u8,
}

impl TrkChunkPreamble {
    /// The bytes of a `TrkChunkPreamble`: its fields one after the other in the order
    /// they are declared, integers of more than one byte little-endian unless
    /// written `be_`, a `bool` as 1 or 0.
    pub proof fn lemma_encoding(&self)
        ensures
            self.spec_encode() == enc_u8(self.trkid) + (enc_u8(self.chanid) + (enc_u8(self.unk1) + (enc_u8(self.unk2)))),
    {
    }
}

impl AutoReadWrite for TrkChunkPreamble {
    open spec fn spec_size() -> nat {
        4
    }

    closed spec fn spec_encode(&self) -> Seq<u8> {
        enc_u8(self.trkid) + (enc_u8(self.chanid) + (enc_u8(self.unk1) + (enc_u8(self.unk2))))
    }

    closed spec fn spec_parse(b: Seq<u8>) -> Self {
        TrkChunkPreamble {
            trkid: b.subrange(0, 1)[0],
            chanid: b.subrange(1, 2)[0],
            unk1: b.subrange(2, 3)[0],
            unk2: b.subrange(3, 4)[0],
        }
    }

    open spec fn spec_canonical(b: Seq<u8>) -> bool {
        true
    }

    fn byte_len() -> (n: usize) {
        4
    }

    fn encode_fields(&self, out: &mut Vec<u8>) {
        let ghost s0 = out@;
        push_u8(out, self.trkid);
        proof { vstd::seq_lib::lemma_concat_associative(s0, enc_u8(self.trkid), enc_u8(self.chanid) + (enc_u8(self.unk1) + (enc_u8(self.unk2)))); }
        let ghost s1 = out@;
        push_u8(out, self.chanid);
        proof { vstd::seq_lib::lemma_concat_associative(s1, enc_u8(self.chanid), enc_u8(self.unk1) + (enc_u8(self.unk2))); }
        let ghost s2 = out@;
        push_u8(out, self.unk1);
        proof { vstd::seq_lib::lemma_concat_associative(s2, enc_u8(self.unk1), enc_u8(self.unk2)); }
        let ghost s3 = out@;
        push_u8(out, self.unk2);
    }

    fn decode_fields(d: &[u8], pos: usize) -> (r: Self) {
        let _dlen = d.len();
        let trkid = get_u8(d, pos + 0);
        let chanid = get_u8(d, pos + 1);
        let unk1 = get_u8(d, pos + 2);
        let unk2 = get_u8(d, pos + 3);
        proof {
            let b = d@.subrange(pos as int, pos + 4);
        }
        TrkChunkPreamble { trkid, chanid, unk1, unk2 }
    }

    proof fn lemma_parse_encode(&self) {
        let e = self.spec_encode();
        lemma_skip_zero(e);
        lemma_split_piece(e, 0, enc_u8(self.trkid), enc_u8(self.chanid) + (enc_u8(self.unk1) + (enc_u8(self.unk2))));
        lemma_split_piece(e, 1, enc_u8(self.chanid), enc_u8(self.unk1) + (enc_u8(self.unk2)));
        lemma_split_piece(e, 2, enc_u8(self.unk1), enc_u8(self.unk2));
        lemma_split_piece(e, 3, enc_u8(self.unk2), Seq::<u8>::empty());
        assert(enc_u8(self.unk2) + Seq::<u8>::empty() =~= enc_u8(self.unk2));
        assert(Self::spec_parse(e) == *self);
    }

    proof fn lemma_encode_parse(b: Seq<u8>) {
        let p = Self::spec_parse(b);
        assert(enc_u8(p.trkid) =~= b.subrange(0, 1));
        assert(enc_u8(p.chanid) =~= b.subrange(1, 2));
        assert(enc_u8(p.unk1) =~= b.subrange(2, 3));
        assert(enc_u8(p.unk2) =~= b.subrange(3, 4));
        lemma_skip_tail(b, 3);
        lemma_join_piece(b, 2, enc_u8(p.unk1), enc_u8(p.unk2));
        lemma_join_piece(b, 1, enc_u8(p.chanid), enc_u8(p.unk1) + (enc_u8(p.unk2)));
        lemma_join_piece(b, 0, enc_u8(p.trkid), enc_u8(p.chanid) + (enc_u8(p.unk1) + (enc_u8(p.unk2))));
        lemma_skip_zero(b);
    }
}

impl TrkChunkPreamble {
    /// The value that `default` returns.
    pub open spec fn spec_default() -> Self {
        TrkChunkPreamble {
            trkid: 0u8,
            chanid: 0u8,
            unk1: 0u8,
            unk2: 0u8,
        }
    }
}

impl Default for TrkChunkPreamble {
    fn default() -> (r: Self)
        ensures
            r == Self::spec_default(),
    {
        TrkChunkPreamble {
            trkid: 0u8,
            chanid: 0u8,
            unk1: 0u8,
            unk2: 0u8,
        }
    }
}

impl View for TrkChunkPreamble {
    type V = Self;

    open spec fn view(&self) -> Self {
        *self
    }
}

impl ReadWrite for TrkChunkPreamble {
    open spec fn spec_write(&self) -> Result<Seq<u8>, DSEError> {
        Ok(self.spec_encode())
    }

    open spec fn spec_read(v: Self, data: Seq<u8>, pos: int) -> Result<(Self, int), DSEError> {
        spec_record_read::<Self>(data, pos)
    }

    open spec fn spec_fresh() -> Self {
        Self::spec_default()
    }

    fn fresh() -> (r: Self) {
        Self::default()
    }

    fn write_to_file(&self, writer: &mut Vec<u8>) -> (res: Result<usize, DSEError>) {
        write_record(self, writer)
    }

    fn read_from_file(&mut self, reader: &mut DataReader) -> (res: Result<(), DSEError>) {
        read_record(self, reader)
    }
}

/// The header of the closing chunk of an SMDL file.
#[allow(non_snake_case)]
#[derive(Debug, Clone, PartialEq, Eq)]
pub struct EOCChunk {
    /// The characters "eoc ".
    pub label: u32,
    pub param1: u32,
    pub param2: u32,
    /// Always 0.
    pub chunklen: u32,
}

impl EOCChunk {
    /// The bytes of a `EOCChunk`: its fields one after the other in the order
    /// they are declared, integers of more than one byte little-endian unless
    /// written `be_`, a `bool` as 1 or 0.
    pub proof fn lemma_encoding(&self)
        ensures
            self.spec_encode() == le_u32(self.label) + (le_u32(self.param1) + (le_u32(self.param2) + (le_u32(self.chunklen)))),
    {
    }
}

impl AutoReadWrite for EOCChunk {
    open spec fn spec_size() -> nat {
        16
    }

    closed spec fn spec_encode(&self) -> Seq<u8> {
        le_u32(self.label) + (le_u32(self.param1) + (le_u32(self.param2) + (le_u32(self.chunklen))))
    }

    closed spec fn spec_parse(b: Seq<u8>) -> Self {
        EOCChunk {
            label: u32_of(b.subrange(0, 4)),
            param1: u32_of(b.subrange(4, 8)),
            param2: u32_of(b.subrange(8, 12)),
            chunklen: u32_of(b.subrange(12, 16)),
        }
    }

    open spec fn spec_canonical(b: Seq<u8>) -> bool {
        true
    }

    fn byte_len() -> (n: usize) {
        16
    }

    fn encode_fields(&self, out: &mut Vec<u8>) {
        let ghost s0 = out@;
        push_u32(out, self.label);
        proof { vstd::seq_lib::lemma_concat_associative(s0, le_u32(self.label), le_u32(self.param1) + (le_u32(self.param2) + (le_u32(self.chunklen)))); }
        let ghost s1 = out@;
        push_u32(out, self.param1);
        proof { vstd::seq_lib::lemma_concat_associative(s1, le_u32(self.param1), le_u32(self.param2) + (le_u32(self.chunklen))); }
        let ghost s2 = out@;
        push_u32(out, self.param2);
        proof { vstd::seq_lib::lemma_concat_associative(s2, le_u32(self.param2), le_u32(self.chunklen)); }
        let ghost s3 = out@;
        push_u32(out, self.chunklen);
    }

    fn decode_fields(d: &[u8], pos: usize) -> (r: Self) {
        let _dlen = d.len();
        let label = get_u32(d, pos + 0);
        let param1 = get_u32(d, pos + 4);
        let param2 = get_u32(d, pos + 8);
        let chunklen = get_u32(d, pos + 12);
        proof {
            let b = d@.subrange(pos as int, pos + 16);
            assert(b.subrange(0, 4) =~= d@.subrange(pos + 0, pos + 4));
            assert(b.subrange(4, 8) =~= d@.subrange(pos + 4, pos + 8));
            assert(b.subrange(8, 12) =~= d@.subrange(pos + 8, pos + 12));
            assert(b.subrange(12, 16) =~= d@.subrange(pos + 12, pos + 16));
        }
        EOCChunk { label, param1, param2, chunklen }
    }

    proof fn lemma_parse_encode(&self) {
        let e = self.spec_encode();
        lemma_skip_zero(e);
        lemma_split_piece(e, 0, le_u32(self.label), le_u32(self.param1) + (le_u32(self.param2) + (le_u32(self.chunklen))));
        lemma_u32_roundtrip(self.label);
        lemma_split_piece(e, 4, le_u32(self.param1), le_u32(self.param2) + (le_u32(self.chunklen)));
        lemma_u32_roundtrip(self.param1);
        lemma_split_piece(e, 8, le_u32(self.param2), le_u32(self.chunklen));
        lemma_u32_roundtrip(self.param2);
        lemma_split_piece(e, 12, le_u32(self.chunklen), Seq::<u8>::empty());
        assert(le_u32(self.chunklen) + Seq::<u8>::empty() =~= le_u32(self.chunklen));
        lemma_u32_roundtrip(self.chunklen);
        assert(Self::spec_parse(e) == *self);
    }

    proof fn lemma_encode_parse(b: Seq<u8>) {
        let p = Self::spec_parse(b);
        lemma_u32_bytes(b.subrange(0, 4));
        assert(le_u32(p.label) =~= b.subrange(0, 4));
        lemma_u32_bytes(b.subrange(4, 8));
        assert(le_u32(p.param1) =~= b.subrange(4, 8));
        lemma_u32_bytes(b.subrange(8, 12));
        assert(le_u32(p.param2) =~= b.subrange(8, 12));
        lemma_u32_bytes(b.subrange(12, 16));
        assert(le_u32(p.chunklen) =~= b.subrange(12, 16));
        lemma_skip_tail(b, 12);
        lemma_join_piece(b, 8, le_u32(p.param2), le_u32(p.chunklen));
        lemma_join_piece(b, 4, le_u32(p.param1), le_u32(p.param2) + (le_u32(p.chunklen)));
        lemma_join_piece(b, 0, le_u32(p.label), le_u32(p.param1) + (le_u32(p.param2) + (le_u32(p.chunklen))));
        lemma_skip_zero(b);
    }
}

impl EOCChunk {
    /// The value that `default` returns.
    pub open spec fn spec_default() -> Self {
        EOCChunk {
            label: 0x20636F65u32,
            param1: 0x01000000u32,
            param2: 0x0000FF04u32,
            chunklen: 0u32,
        }
    }
}

impl Default for EOCChunk {
    fn default() -> (r: Self)
        ensures
            r == Self::spec_default(),
    {
        EOCChunk {
            label: 0x20636F65u32,
            param1: 0x01000000u32,
            param2: 0x0000FF04u32,
            chunklen: 0u32,
        }
    }
}

impl View for EOCChunk {
    type V = Self;

    open spec fn view(&self) -> Self {
        *self
    }
}

impl ReadWrite for EOCChunk {
    open spec fn spec_write(&self) -> Result<Seq<u8>, DSEError> {
        Ok(self.spec_encode())
    }

    open spec fn spec_read(v: Self, data: Seq<u8>, pos: int) -> Result<(Self, int), DSEError> {
        spec_record_read::<Self>(data, pos)
    }

    open spec fn spec_fresh() -> Self {
        Self::spec_default()
    }

    fn fresh() -> (r: Self) {
        Self::default()
    }

    fn write_to_file(&self, writer: &mut Vec<u8>) -> (res: Result<usize, DSEError>) {
        write_record(self, writer)
    }

    fn read_from_file(&mut self, reader: &mut DataReader) -> (res: Result<(), DSEError>) {
        read_record(self, reader)
    }
}

/// The first byte of a track header's bytes is the low byte of its label.
pub proof fn lemma_trk_header_first_byte(h: TrkChunkHeader)
    ensures
        h.spec_encode().len() == 16,
        h.spec_encode()[0] == (h.label % 256) as u8,
{
}

/// The first byte of a closing chunk's bytes is the low byte of its label.
pub proof fn lemma_eoc_first_byte(c: EOCChunk)
    ensures
        c.spec_encode().len() == 16,
        c.spec_encode()[0] == (c.label % 256) as u8,
{
}

} // verus!
