//! Types shared by the SWDL and SMDL formats: errors, flags, and the traits
//! through which every chunk of a file is read and written.
use vstd::prelude::*;
use crate::codec::{
    DataReader, get_i8, get_u16, get_u32, i8_of_u8, le_u16, le_u32, lemma_u16_roundtrip,
    lemma_u32_roundtrip, push_bytes, push_repeated, push_u16, push_u32, u16_of, u32_of,
};

verus! {

/// The kind of DSE file an error is about.
#[derive(Debug, Clone, Copy, PartialEq, Eq)]
pub enum DSEFileType {
    SWDL,
    SMDL,
}

/// The block of a DSE file an error is about.
#[derive(Debug, Clone, Copy, PartialEq, Eq)]
pub enum DSEBlockType {
    Header,
    SwdlWavi,
    SwdlPrgi,
    SwdlPrgiProgramInfoSplits(usize),
    SwdlPrgiProgramInfoLfos(usize),
    SwdlKgrp,
    SwdlPcmd,
    SwdlEoD,
    SmdlTrkEvents(usize),
}

/// The `String` that `String::from` makes of the characters `s`.
pub uninterp spec fn spec_string_from(s: Seq<char>) -> String;

/// Calls `String::from` on a string slice; the contract claims that the
/// result holds the same characters and depends on them alone.
#[verifier::external_body]
pub(crate) fn string_from(s: &str) -> (r: String)
    ensures
        r == spec_string_from(s@),
        r@ == s@,
{
    String::from(s)
}

/// The error for a play-note event whose key-down duration does not fit in
/// 24 bits.
pub open spec fn spec_keydown_error() -> DSEError {
    DSEError::Invalid(spec_string_from("Keydown duration needs to be within the range 0 to 0xFFFFFF"@))
}

/// The error for a song without tracks, whose channel count cannot be found.
pub open spec fn spec_no_tracks_error() -> DSEError {
    DSEError::Invalid(spec_string_from("SMDL file contains zero tracks! Unable to automatically determine number of channels used!!"@))
}

/// The error for a play-note event whose key-down duration does not fit in
/// 24 bits.
pub(crate) fn keydown_error() -> (r: DSEError)
    ensures
        r == spec_keydown_error(),
{
    DSEError::Invalid(string_from("Keydown duration needs to be within the range 0 to 0xFFFFFF"))
}

/// The error for a song without tracks, whose channel count cannot be found.
pub(crate) fn no_tracks_error() -> (r: DSEError)
    ensures
        r == spec_no_tracks_error(),
{
    DSEError::Invalid(string_from("SMDL file contains zero tracks! Unable to automatically determine number of channels used!!"))
}

/// Errors of the DSE readers and writers.
#[derive(Debug)]
pub enum DSEError {
    /// The data ended before a value could be read.
    UnexpectedEof(),
    /// A message for the caller.
    Invalid(String),
    /// An error of an outside caller, carried as text.
    WrapperString(String),
    DSEFileNameConversionNonASCII(String, String),
    DSEStringConversionNonASCII(String),
    DSEStringConversionLengthError(String, usize),
    DSEEventLookupError(u8),
    DSEEventNameLookupError(String),
    DSEUsedVoiceChannelsRangeOutOfBounds(i8, i8),
    DSEUsedVoiceChannelsRangeFlipped(i8, i8),
    TableNonMatchingSelfIndex(usize, usize),
    PointerTableDuplicateSelfIndex(),
    DSESmdConverterSwdEmpty(),
    BinaryFileTooLarge(DSEFileType),
    BinaryBlockTooLarge(DSEFileType, DSEBlockType),
    TableTooLong(DSEBlockType),
    PointerTableTooLong(DSEBlockType),
    PointerTableTooLarge(DSEBlockType),
    /// A command of a "dsec" marker is malformed: the command and what is wrong.
    InvalidDSECommand(String, String),
    /// A "trk" command of a "dsec" marker names no track number.
    InvalidDSECommandFailedToParseTrkChange(String),
    /// A "dsec" command gives a number of argument bytes other than its event takes:
    /// the command, the bytes given, the event's name and the bytes it takes.
    InvalidDSECommandArguments(String, usize, String, usize),
    /// A typed argument of a "dsec" command does not read as its type: the
    /// command, the argument and the type.
    InvalidDSECommandTypedArgument(String, String, String),
    /// The MIDI data could not be parsed: the parser's message.
    SmfParseError(String),
    DSESmfUnsupportedTimingSpecifier(),
    DSESequencialSmfUnsupported(),
    DSESmf0TooManyTracks(),
    DSESmf0MessagesTooFarApart(),
    DSESmfNotesTooLong(),
    /// A program has 256 splits, one more than a program may have.
    TooManySampleMappings(usize),
    /// The object has no index of its own to change.
    NoSelfIndex(),
    _InvalidEventTypePassedToSetOtherWithParamsU8(),
    _ValidHashMapKeyRemovalFailed(),
    _CorrespondingNoteOnNotFound(),
    /// Stands for an error that the caller names.
    Placeholder(),
}

/// Standard pan positions.
#[derive(Debug, Clone, Copy, PartialEq, Eq)]
pub enum DSEPan {
    FullLeft,
    Middle,
    FullRight,
}

impl DSEPan {
    /// The pan byte of the position.
    pub fn value(&self) -> (r: i8)
        ensures
            r == (match *self {
                DSEPan::FullLeft => 0i8,
                DSEPan::Middle => 64i8,
                DSEPan::FullRight => 127i8,
            }),
    {
        match self {
            DSEPan::FullLeft => 0,
            DSEPan::Middle => 64,
            DSEPan::FullRight => 127,
        }
    }
}

/// Default values for fields, given as const parameters.
pub struct GenericDefaultI8<const U: u8>;

impl<const U: u8> GenericDefaultI8<U> {
    /// The `i8` with the bit pattern `U`.
    pub fn value() -> (r: i8)
        ensures
            r == i8_of_u8(U),
    {
        get_i8(&[U], 0)
    }
}

pub struct GenericDefaultU8<const U: u8>;

impl<const U: u8> GenericDefaultU8<U> {
    pub fn value() -> (r: u8)
        ensures
            r == U,
    {
        U
    }
}

pub struct GenericDefaultU16<const U: u16>;

impl<const U: u16> GenericDefaultU16<U> {
    pub fn value() -> (r: u16)
        ensures
            r == U,
    {
        U
    }
}

pub struct GenericDefaultU32<const U: u32>;

impl<const U: u32> GenericDefaultU32<U> {
    pub fn value() -> (r: u32)
        ensures
            r == U,
    {
        U
    }
}

pub struct GenericDefaultByteArray<const V: u8, const U: usize>;

impl<const V: u8, const U: usize> GenericDefaultByteArray<V, U> {
    /// `U` bytes of value `V`.
    pub fn value() -> (r: Vec<u8>)
        ensures
            r@ == Seq::new(U as nat, |_i: int| V),
    {
        let mut r: Vec<u8> = Vec::new();
        push_repeated(&mut r, V, U);
        assert(r@ =~= Seq::new(U as nat, |_i: int| V));
        r
    }
}

/// Flags kept in an otherwise unused header word, telling how wide the
/// pointers of the sample and program tables are.
#[derive(Debug, Clone, Copy, PartialEq, Eq)]
pub struct SongBuilderFlags {
    bits: u32,
}

impl SongBuilderFlags {
    pub closed spec fn spec_bits(&self) -> u32 {
        self.bits
    }

    /// The sample table's pointers are 32 bits wide.
    pub fn wavi_pointer_extension() -> (r: SongBuilderFlags)
        ensures
            r.spec_bits() == 1,
    {
        SongBuilderFlags { bits: 1 }
    }

    /// The program table's pointers are 32 bits wide.
    pub fn prgi_pointer_extension() -> (r: SongBuilderFlags)
        ensures
            r.spec_bits() == 2,
    {
        SongBuilderFlags { bits: 2 }
    }

    /// Both tables' pointers are 32 bits wide.
    pub fn full_pointer_extension() -> (r: SongBuilderFlags)
        ensures
            r.spec_bits() == 3,
    {
        SongBuilderFlags { bits: 3 }
    }

    /// No flag set.
    pub fn empty() -> (r: SongBuilderFlags)
        ensures
            r.spec_bits() == 0,
    {
        SongBuilderFlags { bits: 0 }
    }

    pub fn from_bits_retain(bits: u32) -> (r: SongBuilderFlags)
        ensures
            r.spec_bits() == bits,
    {
        SongBuilderFlags { bits }
    }

    pub fn bits(&self) -> (r: u32)
        ensures
            r == self.spec_bits(),
    {
        self.bits
    }

    pub open spec fn spec_contains(&self, other: SongBuilderFlags) -> bool {
        self.spec_bits() & other.spec_bits() == other.spec_bits()
    }

    /// Whether every flag of `other` is set here.
    pub fn contains(&self, other: SongBuilderFlags) -> (r: bool)
        ensures
            r == self.spec_contains(other),
    {
        self.bits & other.bits == other.bits
    }
}

/// Access to the song builder flags of a file.
pub trait SetSongBuilderFlags {
    fn get_song_builder_flags(&self) -> SongBuilderFlags;

    fn set_song_builder_flags(&mut self, flags: SongBuilderFlags);
}

/// Access to the two bytes that link an SMDL to its SWDL bank.
pub trait DSELinkBytes {
    fn get_link_bytes(&self) -> (u8, u8);

    fn set_link_bytes(&mut self, link_bytes: (u8, u8));

    fn set_unk1(&mut self, unk1: u8);

    fn set_unk2(&mut self, unk2: u8);
}

/// A record of fixed length whose fields are stored one after the other,
/// integers little-endian and booleans as one byte.
pub trait AutoReadWrite: Sized {
    /// Number of bytes of the record.
    spec fn spec_size() -> nat;

    /// The bytes of the record.
    spec fn spec_encode(&self) -> Seq<u8>;

    /// The record stored in `b` (of length `spec_size`).
    spec fn spec_parse(b: Seq<u8>) -> Self;

    /// Whether `b` is what some record encodes to: each boolean byte is 0 or 1.
    spec fn spec_canonical(b: Seq<u8>) -> bool;

    fn byte_len() -> (n: usize)
        ensures
            n == Self::spec_size(),
    ;

    fn encode_fields(&self, out: &mut Vec<u8>)
        ensures
            final(out)@ == old(out)@ + self.spec_encode(),
    ;

    fn decode_fields(d: &[u8], pos: usize) -> (r: Self)
        requires
            pos + Self::spec_size() <= d@.len(),
        ensures
            r == Self::spec_parse(d@.subrange(pos as int, pos + Self::spec_size())),
    ;

    /// Reading the bytes of a record gives it back.
    proof fn lemma_parse_encode(&self)
        ensures
            self.spec_encode().len() == Self::spec_size(),
            Self::spec_parse(self.spec_encode()) == *self,
    ;

    /// Writing a record read from canonical bytes gives those bytes back.
    proof fn lemma_encode_parse(b: Seq<u8>)
        requires
            b.len() == Self::spec_size(),
            Self::spec_canonical(b),
        ensures
            Self::spec_parse(b).spec_encode() == b,
    ;
}

/// How a value is written to and read from bytes. `V` is the value's
/// mathematical model.
pub trait ReadWrite: Sized + View {
    /// The bytes that writing produces, or the error it stops with.
    spec fn spec_write(&self) -> Result<Seq<u8>, DSEError>;

    /// What reading at `pos` of `data` makes of a value whose model is `v`,
    /// with the position after it, or the error it stops with.
    spec fn spec_read(v: Self::V, data: Seq<u8>, pos: int) -> Result<(Self::V, int), DSEError>;

    /// The model of the value that a table reads each of its entries into.
    spec fn spec_fresh() -> Self::V;

    /// The value that a table reads each of its entries into.
    fn fresh() -> (r: Self)
        ensures
            r@ == Self::spec_fresh(),
    ;

    fn write_to_file(&self, writer: &mut Vec<u8>) -> (res: Result<usize, DSEError>)
        ensures
            match self.spec_write() {
                Ok(b) => res == Ok::<usize, DSEError>(b.len() as usize) && final(writer)@ == old(
                    writer,
                )@ + b,
                Err(e) => res == Err::<usize, DSEError>(e),
            },
    ;

    fn read_from_file(&mut self, reader: &mut DataReader) -> (res: Result<(), DSEError>)
        ensures
            final(reader).data@ == old(reader).data@,
            match Self::spec_read(old(self)@, old(reader).data@, old(reader).pos as int) {
                Ok((v, p)) => res is Ok && final(self)@ == v && final(reader).pos == p,
                Err(e) => res == Err::<(), DSEError>(e),
            },
    ;
}

/// What reading a record at `pos` gives.
pub open spec fn spec_record_read<T: AutoReadWrite>(data: Seq<u8>, pos: int) -> Result<(T, int), DSEError> {
    if 0 <= pos && pos + T::spec_size() <= data.len() {
        Ok((T::spec_parse(data.subrange(pos, pos + T::spec_size())), pos + T::spec_size()))
    } else {
        Err(DSEError::UnexpectedEof())
    }
}

/// Writes a record.
pub fn write_record<T: AutoReadWrite>(x: &T, writer: &mut Vec<u8>) -> (res: Result<usize, DSEError>)
    ensures
        res == Ok::<usize, DSEError>(x.spec_encode().len() as usize),
        final(writer)@ == old(writer)@ + x.spec_encode(),
{
    proof { x.lemma_parse_encode(); }
    x.encode_fields(writer);
    Ok(T::byte_len())
}

/// Reads a record at the reader's position.
pub fn read_record<T: AutoReadWrite>(x: &mut T, reader: &mut DataReader) -> (res: Result<(), DSEError>)
    ensures
        final(reader).data@ == old(reader).data@,
        match spec_record_read::<T>(old(reader).data@, old(reader).pos as int) {
            Ok((v, p)) => res is Ok && *final(x) == v && final(reader).pos == p,
            Err(e) => res == Err::<(), DSEError>(e) && *final(x) == *old(x) && *final(reader) == *old(reader),
        },
{
    let n = T::byte_len();
    if reader.pos > reader.data.len() || reader.data.len() - reader.pos < n {
        return Err(DSEError::UnexpectedEof());
    }
    *x = T::decode_fields(reader.data, reader.pos);
    reader.pos = reader.pos + n;
    Ok(())
}

/// An object that may carry its own index in the table that holds it.
///
/// A `Table` writes its objects in order and stops with
/// `TableNonMatchingSelfIndex` at the first object whose own index is not
/// its position, the objects before it written. A `PointerTable` keeps
/// each object's own index as its slot, so the table may have gaps; a table
/// where two objects claim one slot is not written (its write requires the
/// slots apart, and the code would give `PointerTableDuplicateSelfIndex`).
pub trait IsSelfIndexed: Sized {
    spec fn spec_self_index(&self) -> Option<usize>;

    /// The value after its index is changed to `new_index`, or `None` when it cannot be.
    spec fn spec_with_self_index(&self, new_index: usize) -> Option<Self>;

    fn is_self_indexed(&self) -> (r: Option<usize>)
        ensures
            r == self.spec_self_index(),
    ;

    fn change_self_index(&mut self, new_index: usize) -> (r: Result<(), DSEError>)
        ensures
            match old(self).spec_with_self_index(new_index) {
                Some(v) => r is Ok && *final(self) == v,
                None => r is Err && *final(self) == *old(self),
            },
    ;
}

/// The model of a table: the number of entries the next read takes, and
/// the models of the entries.
pub struct TableView<V> {
    pub read_n: usize,
    pub objects: Seq<V>,
}

/// A sequence of objects stored one after the other.
#[derive(Debug, Clone)]
pub struct Table<T> {
    /// The number of objects that `read_from_file` reads.
    pub _read_n: usize,
    pub objects: Vec<T>,
}

impl<T: View> View for Table<T> {
    type V = TableView<T::V>;

    open spec fn view(&self) -> TableView<T::V> {
        TableView { read_n: self._read_n, objects: self.objects@.map_values(|t: T| t@) }
    }
}

impl<T> Table<T> {
    pub fn table_is_empty(table: &Table<T>) -> (r: bool)
        ensures
            r == (table.objects@.len() == 0),
    {
        table.objects.len() == 0
    }

    /// An empty table that reads `n` objects.
    pub fn new(n: usize) -> (r: Table<T>)
        ensures
            r._read_n == n,
            r.objects@.len() == 0,
    {
        Table { _read_n: n, objects: Vec::new() }
    }

    pub fn set_read_params(&mut self, n: usize)
        ensures
            final(self)._read_n == n,
            final(self).objects@ == old(self).objects@,
    {
        self._read_n = n;
    }

    pub fn len(&self) -> (r: usize)
        ensures
            r == self.objects@.len(),
    {
        self.objects.len()
    }
}

/// The bytes of the first `n` objects of a table, or the first error: an
/// object whose own index differs from its position, or an object that
/// cannot be written.
pub open spec fn spec_table_write<T: ReadWrite + IsSelfIndexed>(objs: Seq<T>) -> Result<Seq<u8>, DSEError>
    decreases objs.len(),
{
    if objs.len() == 0 {
        Ok(Seq::empty())
    } else {
        match spec_table_write(objs.drop_last()) {
            Err(e) => Err(e),
            Ok(b) => {
                let i = objs.len() - 1;
                let o = objs.last();
                if o.spec_self_index() is Some && o.spec_self_index().unwrap() != i {
                    Err(DSEError::TableNonMatchingSelfIndex(i as usize, o.spec_self_index().unwrap()))
                } else {
                    match o.spec_write() {
                        Ok(c) => Ok(b + c),
                        Err(e) => Err(e),
                    }
                }
            },
        }
    }
}

/// Reading `n` objects, each into a fresh value, one after the other.
pub open spec fn spec_table_read<T: ReadWrite>(data: Seq<u8>, pos: int, n: nat) -> Result<(Seq<T::V>, int), DSEError>
    decreases n,
{
    if n == 0 {
        Ok((Seq::empty(), pos))
    } else {
        match spec_table_read::<T>(data, pos, (n - 1) as nat) {
            Err(e) => Err(e),
            Ok((items, p)) => match T::spec_read(T::spec_fresh(), data, p) {
                Err(e) => Err(e),
                Ok((v, p2)) => Ok((items.push(v), p2)),
            },
        }
    }
}

proof fn lemma_table_write_err<T: ReadWrite + IsSelfIndexed>(objs: Seq<T>, k: int)
    requires
        0 <= k <= objs.len(),
        spec_table_write(objs.take(k)) is Err,
    ensures
        spec_table_write(objs) == spec_table_write(objs.take(k)),
    decreases objs.len() - k,
{
    if k < objs.len() {
        assert(objs.take(k + 1).drop_last() =~= objs.take(k));
        lemma_table_write_err(objs, k + 1);
    } else {
        assert(objs.take(k) =~= objs);
    }
}

proof fn lemma_table_read_err<T: ReadWrite>(data: Seq<u8>, pos: int, k: nat, n: nat)
    requires
        k <= n,
        spec_table_read::<T>(data, pos, k) is Err,
    ensures
        spec_table_read::<T>(data, pos, n) == spec_table_read::<T>(data, pos, k),
    decreases n - k,
{
    if k < n {
        lemma_table_read_err::<T>(data, pos, k, (n - 1) as nat);
    }
}

/// Each object of a table that can be written can be written, and its bytes
/// are no longer than the table's.
pub proof fn lemma_table_write_parts<T: ReadWrite + IsSelfIndexed>(objs: Seq<T>, i: int)
    requires
        spec_table_write(objs) is Ok,
        0 <= i < objs.len(),
    ensures
        objs[i].spec_write() is Ok,
        objs[i].spec_write().unwrap().len() <= spec_table_write(objs).unwrap().len(),
    decreases objs.len(),
{
    if i < objs.len() - 1 {
        lemma_table_write_parts(objs.drop_last(), i);
        assert(objs.drop_last()[i] == objs[i]);
    }
}


/// The bytes of the first `k` objects of a table start the bytes of all.
pub proof fn lemma_table_write_prefix<T: ReadWrite + IsSelfIndexed>(objs: Seq<T>, k: int)
    requires
        0 <= k <= objs.len(),
        spec_table_write(objs) is Ok,
    ensures
        spec_table_write(objs.take(k)) is Ok,
        spec_table_write(objs.take(k)).unwrap().len() <= spec_table_write(objs).unwrap().len(),
        spec_table_write(objs).unwrap().subrange(0, spec_table_write(objs.take(k)).unwrap().len() as int)
            == spec_table_write(objs.take(k)).unwrap(),
    decreases objs.len() - k,
{
    let w = spec_table_write(objs).unwrap();
    if k == objs.len() {
        assert(objs.take(k) =~= objs);
        assert(w.subrange(0, w.len() as int) =~= w);
    } else {
        lemma_table_write_prefix(objs, (k + 1) as int);
        assert(objs.take((k + 1) as int).drop_last() =~= objs.take(k));
        let a = spec_table_write(objs.take(k)).unwrap();
        let a1 = spec_table_write(objs.take((k + 1) as int)).unwrap();
        assert(a1.subrange(0, a.len() as int) =~= a);
        assert(w.subrange(0, a.len() as int) =~= a1.subrange(0, a.len() as int));
    }
}

/// The bytes of the first `k + 1` objects of a table that can be written
/// are those of the first `k` followed by those of object `k`.
pub proof fn lemma_table_write_step<T: ReadWrite + IsSelfIndexed>(objs: Seq<T>, k: int)
    requires
        0 <= k < objs.len(),
        spec_table_write(objs) is Ok,
    ensures
        spec_table_write(objs.take(k)) is Ok,
        spec_table_write(objs.take(k + 1)) is Ok,
        objs[k].spec_write() is Ok,
        spec_table_write(objs.take(k + 1)).unwrap() == spec_table_write(objs.take(k)).unwrap() + objs[k].spec_write().unwrap(),
        spec_table_write(objs).unwrap().subrange(
            spec_table_write(objs.take(k)).unwrap().len() as int,
            spec_table_write(objs.take(k + 1)).unwrap().len() as int,
        ) == objs[k].spec_write().unwrap(),
{
    lemma_table_write_prefix(objs, k);
    lemma_table_write_prefix(objs, k + 1);
    assert(objs.take(k + 1).drop_last() =~= objs.take(k));
    assert(objs.take(k + 1).last() == objs[k]);
    let w = spec_table_write(objs).unwrap();
    let a = spec_table_write(objs.take(k)).unwrap();
    let a1 = spec_table_write(objs.take(k + 1)).unwrap();
    let c = objs[k].spec_write().unwrap();
    assert(w.subrange(a.len() as int, a1.len() as int) =~= c) by {
        assert forall|i: int| 0 <= i < c.len() implies #[trigger] w.subrange(a.len() as int, a1.len() as int)[i] == c[i] by {
            assert(w.subrange(0, a1.len() as int)[a.len() + i] == a1[a.len() + i]);
        }
    }
}

/// Whether reading the bytes that `o` writes, wherever they stand, into a
/// fresh value gives `r` and moves past them.
pub open spec fn spec_reads_back_as<T: ReadWrite>(o: T, r: T::V) -> bool {
    &&& o.spec_write() is Ok
    &&& forall|data: Seq<u8>, pos: int|
        #![trigger T::spec_read(T::spec_fresh(), data, pos)]
        0 <= pos && pos + o.spec_write().unwrap().len() <= data.len() && data.subrange(
            pos,
            pos + o.spec_write().unwrap().len(),
        ) == o.spec_write().unwrap() ==> T::spec_read(T::spec_fresh(), data, pos) == Ok::<(T::V, int), DSEError>(
            (r, pos + o.spec_write().unwrap().len()),
        )
}

/// Reading a written record, wherever its bytes stand, gives it back.
pub proof fn lemma_record_roundtrip<T: AutoReadWrite>(x: T, data: Seq<u8>, pos: int)
    requires
        0 <= pos,
        pos + x.spec_encode().len() <= data.len(),
        data.subrange(pos, pos + x.spec_encode().len()) == x.spec_encode(),
    ensures
        x.spec_encode().len() == T::spec_size(),
        spec_record_read::<T>(data, pos) == Ok::<(T, int), DSEError>((x, pos + T::spec_size())),
{
    x.lemma_parse_encode();
}

/// Reading back the first `k` objects of a written table, each of which is
/// read back as `f` says, gives them as `f` says.
pub proof fn lemma_table_roundtrip<T: ReadWrite + IsSelfIndexed>(objs: Seq<T>, f: spec_fn(T) -> T::V, data: Seq<u8>, pos: int, k: nat)
    requires
        k <= objs.len(),
        forall|i: int| 0 <= i < objs.len() ==> spec_reads_back_as(#[trigger] objs[i], f(objs[i])),
        spec_table_write(objs) is Ok,
        0 <= pos,
        pos + spec_table_write(objs).unwrap().len() <= data.len(),
        data.subrange(pos, pos + spec_table_write(objs).unwrap().len()) == spec_table_write(objs).unwrap(),
    ensures
        spec_table_write(objs.take(k as int)) is Ok,
        spec_table_read::<T>(data, pos, k) == Ok::<(Seq<T::V>, int), DSEError>(
            (objs.take(k as int).map_values(f), pos + spec_table_write(objs.take(k as int)).unwrap().len()),
        ),
    decreases k,
{
    lemma_table_write_prefix(objs, k as int);
    if k == 0 {
        assert(objs.take(0).map_values(f) =~= Seq::<T::V>::empty());
    } else {
        let j = (k - 1) as int;
        lemma_table_roundtrip(objs, f, data, pos, (k - 1) as nat);
        lemma_table_write_step(objs, j);
        let w = spec_table_write(objs).unwrap();
        let a = spec_table_write(objs.take(j)).unwrap();
        let c = objs[j].spec_write().unwrap();
        let p = pos + a.len();
        assert(data.subrange(p, p + c.len()) =~= c) by {
            assert forall|i: int| 0 <= i < c.len() implies #[trigger] data.subrange(p, p + c.len())[i] == c[i] by {
                assert(data.subrange(pos, pos + w.len())[a.len() + i] == w[a.len() + i]);
                assert(w.subrange(a.len() as int, (a.len() + c.len()) as int)[i] == w[a.len() + i]);
            }
        }
        assert(spec_reads_back_as(objs[j], f(objs[j])));
        assert(T::spec_read(T::spec_fresh(), data, p) == Ok::<(T::V, int), DSEError>((f(objs[j]), p + c.len())));
        assert(objs.take(k as int).map_values(f) =~= objs.take(j).map_values(f).push(f(objs[j])));
    }
}

impl<T: ReadWrite + IsSelfIndexed> ReadWrite for Table<T> {
    open spec fn spec_write(&self) -> Result<Seq<u8>, DSEError> {
        spec_table_write(self.objects@)
    }

    open spec fn spec_read(v: TableView<T::V>, data: Seq<u8>, pos: int) -> Result<(TableView<T::V>, int), DSEError> {
        match spec_table_read::<T>(data, pos, v.read_n as nat) {
            Ok((items, p)) => Ok((TableView { read_n: v.read_n, objects: v.objects + items }, p)),
            Err(e) => Err(e),
        }
    }

    open spec fn spec_fresh() -> TableView<T::V> {
        TableView { read_n: 0, objects: Seq::empty() }
    }

    fn fresh() -> (r: Self) {
        let r = Table::new(0);
        assert(r@.objects =~= Seq::<T::V>::empty());
        r
    }

    /// Writes the objects in order; stops with `TableNonMatchingSelfIndex`
    /// at the first object whose own index is not its position, the objects
    /// before it written (see `spec_table_write`).
    fn write_to_file(&self, writer: &mut Vec<u8>) -> (res: Result<usize, DSEError>) {
        let start = writer.len();
        let mut i: usize = 0;
        assert(self.objects@.take(0) =~= Seq::<T>::empty());
        while i < self.objects.len()
            invariant
                i <= self.objects@.len(),
                start == old(writer)@.len(),
                spec_table_write(self.objects@.take(i as int)) is Ok,
                writer@ == old(writer)@ + spec_table_write(self.objects@.take(i as int)).unwrap(),
            decreases self.objects@.len() - i,
        {
            let object = &self.objects[i];
            proof {
                assert(self.objects@.take(i + 1).drop_last() =~= self.objects@.take(i as int));
                assert(self.objects@.take(i + 1).last() == *object);
            }
            if let Some(self_index) = object.is_self_indexed() {
                if self_index != i {
                    proof { lemma_table_write_err(self.objects@, i + 1); }
                    return Err(DSEError::TableNonMatchingSelfIndex(i, self_index));
                }
            }
            let ghost before = writer@;
            match object.write_to_file(writer) {
                Ok(_) => {},
                Err(e) => {
                    proof { lemma_table_write_err(self.objects@, i + 1); }
                    return Err(e);
                },
            }
            proof {
                vstd::seq_lib::lemma_concat_associative(old(writer)@, spec_table_write(self.objects@.take(i as int)).unwrap(), object.spec_write().unwrap());
            }
            i = i + 1;
        }
        assert(self.objects@.take(i as int) =~= self.objects@);
        Ok(writer.len() - start)
    }

    fn read_from_file(&mut self, reader: &mut DataReader) -> (res: Result<(), DSEError>) {
        let n = self._read_n;
        let mut i: usize = 0;
        let ghost pos0 = reader.pos as int;
        let ghost objs0 = self@.objects;
        while i < n
            invariant
                i <= n,
                n == self._read_n,
                n == old(self)._read_n,
                reader.data@ == old(reader).data@,
                pos0 == old(reader).pos,
                objs0 == old(self)@.objects,
                spec_table_read::<T>(reader.data@, pos0, i as nat) is Ok,
                spec_table_read::<T>(reader.data@, pos0, i as nat).unwrap().1 == reader.pos,
                self@.objects == objs0 + spec_table_read::<T>(reader.data@, pos0, i as nat).unwrap().0,
            decreases n - i,
        {
            let mut object = T::fresh();
            match object.read_from_file(reader) {
                Ok(()) => {},
                Err(e) => {
                    proof { lemma_table_read_err::<T>(reader.data@, pos0, (i + 1) as nat, n as nat); }
                    return Err(e);
                },
            }
            let ghost prev = self.objects@;
            self.objects.push(object);
            proof {
                assert(self.objects@.map_values(|t: T| t@) =~= prev.map_values(|t: T| t@).push(object@));
            }
            i = i + 1;
        }
        Ok(())
    }
}

/// A pointer of a pointer table: an unsigned little-endian offset of 16 or
/// 32 bits.
pub trait Pointer: Sized + Copy {
    /// Number of bytes of a pointer.
    spec fn spec_size() -> nat;

    /// Largest offset a pointer holds.
    spec fn spec_max() -> nat;

    /// The value stored in the first slot of the table, if the table starts with one.
    spec fn spec_magic() -> Option<nat>;

    /// The offset that the pointer holds.
    spec fn spec_value(self) -> nat;

    /// The bytes of an offset.
    spec fn spec_encode_value(v: nat) -> Seq<u8>;

    /// The offset stored at the start of `s`.
    spec fn spec_value_of(s: Seq<u8>) -> nat;

    fn pointer_size() -> (n: usize)
        ensures
            n == Self::spec_size(),
    ;

    fn read_from_bytes(buf: &[u8]) -> (r: Self)
        requires
            Self::spec_size() <= buf@.len(),
        ensures
            r.spec_value() == Self::spec_value_of(buf@.subrange(0, Self::spec_size() as int)),
    ;

    fn write_as_bytes(self, out: &mut Vec<u8>)
        ensures
            final(out)@ == old(out)@ + Self::spec_encode_value(self.spec_value()),
    ;

    fn use_magic() -> (r: Option<Self>)
        ensures
            r is Some == Self::spec_magic() is Some,
            r matches Some(m) ==> m.spec_value() == Self::spec_magic().unwrap(),
    ;

    fn as_usize(self) -> (r: usize)
        ensures
            r == self.spec_value(),
    ;

    /// The pointer holding `v`, when `v` fits.
    fn try_from_usize(v: usize) -> (r: Option<Self>)
        ensures
            r is Some == (v <= Self::spec_max()),
            r matches Some(p) ==> p.spec_value() == v,
    ;

    proof fn lemma_pointer_facts()
        ensures
            (Self::spec_size() == 2 && Self::spec_max() == 0xFFFF && Self::spec_magic() is None) || (
            Self::spec_size() == 4 && Self::spec_max() == 0xFFFF_FFFF && Self::spec_magic()
                == Some(0xFFFF_FFFFnat)),
            forall|v: nat| #[trigger] Self::spec_encode_value(v).len() == Self::spec_size(),
    ;

    proof fn lemma_value_roundtrip(v: nat)
        requires
            v <= Self::spec_max(),
        ensures
            Self::spec_value_of(Self::spec_encode_value(v)) == v,
    ;
}

impl Pointer for u16 {
    open spec fn spec_size() -> nat {
        2
    }

    open spec fn spec_max() -> nat {
        0xFFFF
    }

    open spec fn spec_magic() -> Option<nat> {
        None
    }

    open spec fn spec_value(self) -> nat {
        self as nat
    }

    open spec fn spec_encode_value(v: nat) -> Seq<u8> {
        le_u16(v as u16)
    }

    open spec fn spec_value_of(s: Seq<u8>) -> nat {
        u16_of(s) as nat
    }

    fn pointer_size() -> (n: usize) {
        2
    }

    fn read_from_bytes(buf: &[u8]) -> (r: Self) {
        get_u16(buf, 0)
    }

    fn write_as_bytes(self, out: &mut Vec<u8>) {
        push_u16(out, self);
    }

    fn use_magic() -> (r: Option<Self>) {
        None
    }

    fn as_usize(self) -> (r: usize) {
        self as usize
    }

    fn try_from_usize(v: usize) -> (r: Option<Self>) {
        if v <= 0xFFFF {
            Some(v as u16)
        } else {
            None
        }
    }

    proof fn lemma_pointer_facts() {
    }

    proof fn lemma_value_roundtrip(v: nat) {
        lemma_u16_roundtrip(v as u16);
    }
}

impl Pointer for u32 {
    open spec fn spec_size() -> nat {
        4
    }

    open spec fn spec_max() -> nat {
        0xFFFF_FFFF
    }

    open spec fn spec_magic() -> Option<nat> {
        Some(0xFFFF_FFFF)
    }

    open spec fn spec_value(self) -> nat {
        self as nat
    }

    open spec fn spec_encode_value(v: nat) -> Seq<u8> {
        le_u32(v as u32)
    }

    open spec fn spec_value_of(s: Seq<u8>) -> nat {
        u32_of(s) as nat
    }

    fn pointer_size() -> (n: usize) {
        4
    }

    fn read_from_bytes(buf: &[u8]) -> (r: Self) {
        get_u32(buf, 0)
    }

    fn write_as_bytes(self, out: &mut Vec<u8>) {
        push_u32(out, self);
    }

    fn use_magic() -> (r: Option<Self>) {
        Some(0xFFFF_FFFF)
    }

    fn as_usize(self) -> (r: usize) {
        self as usize
    }

    fn try_from_usize(v: usize) -> (r: Option<Self>) {
        if v as u64 <= 0xFFFF_FFFFu64 {
            Some(v as u32)
        } else {
            None
        }
    }

    proof fn lemma_pointer_facts() {
    }

    proof fn lemma_value_roundtrip(v: nat) {
        lemma_u32_roundtrip(v as u32);
    }
}

/// The model of a pointer table: the number of pointers and the chunk
/// length the next read uses, and the models of the objects.
pub struct PointerTableView<V> {
    pub read_n: usize,
    pub chunk_len: u32,
    pub objects: Seq<V>,
}

/// A table of pointers to objects, followed by the objects. An object that
/// carries its own index is pointed to from that slot; the others from their
/// position.
#[derive(Debug, Clone)]
pub struct PointerTable<T> {
    /// The number of pointers that `read_from_file` reads.
    pub _read_n: usize,
    /// The length of the chunk, where `read_from_file` leaves the reader.
    pub _chunk_len: u32,
    pub objects: Vec<T>,
}

impl<T: View> View for PointerTable<T> {
    type V = PointerTableView<T::V>;

    open spec fn view(&self) -> PointerTableView<T::V> {
        PointerTableView {
            read_n: self._read_n,
            chunk_len: self._chunk_len,
            objects: self.objects@.map_values(|t: T| t@),
        }
    }
}

/// The largest own index of the objects (0 when there is none).
pub open spec fn spec_max_self_index<T: IsSelfIndexed>(objs: Seq<T>) -> nat
    decreases objs.len(),
{
    if objs.len() == 0 {
        0
    } else {
        let m = spec_max_self_index(objs.drop_last());
        let x = objs.last().spec_self_index().unwrap() as nat;
        if x > m {
            x
        } else {
            m
        }
    }
}

/// Either every object carries its own index or none does, and no index is
/// the largest `usize`.
pub open spec fn spec_slots_defined<T: IsSelfIndexed>(objs: Seq<T>) -> bool {
    forall|i: int|
        0 <= i < objs.len() ==> ((#[trigger] objs[i].spec_self_index()) is Some == objs[0].spec_self_index() is Some)
            && (objs[i].spec_self_index() is Some ==> objs[i].spec_self_index().unwrap() < usize::MAX)
}

/// The slot that the `i`th object of a pointer table takes: its own index,
/// or its position when it carries none.
pub open spec fn spec_own_slot<T: IsSelfIndexed>(o: T, i: int) -> int {
    match o.spec_self_index() {
        Some(x) => x as int,
        None => i,
    }
}

/// Whether no two objects of a pointer table take the same slot (a table
/// where two do is not written).
pub open spec fn spec_slots_distinct<T: IsSelfIndexed>(objs: Seq<T>) -> bool {
    forall|a: int, b: int| 0 <= a < b < objs.len() ==> spec_own_slot(#[trigger] objs[a], a) != spec_own_slot(#[trigger] objs[b], b)
}

/// The largest own index is at least every object's own index and is one
/// of them (0 without objects).
pub proof fn lemma_max_self_index_is_largest<T: IsSelfIndexed>(objs: Seq<T>)
    requires
        forall|i: int| 0 <= i < objs.len() ==> (#[trigger] objs[i]).spec_self_index() is Some,
    ensures
        forall|i: int| 0 <= i < objs.len() ==> spec_max_self_index(objs) >= (#[trigger] objs[i]).spec_self_index().unwrap(),
        objs.len() == 0 ==> spec_max_self_index(objs) == 0,
        objs.len() > 0 ==> exists|i: int| 0 <= i < objs.len() && spec_max_self_index(objs) == (#[trigger] objs[i]).spec_self_index().unwrap(),
    decreases objs.len(),
{
    if objs.len() > 0 {
        let d = objs.drop_last();
        assert forall|i: int| 0 <= i < d.len() implies (#[trigger] d[i]).spec_self_index() is Some by {
            assert(d[i] == objs[i]);
        }
        lemma_max_self_index_is_largest(d);
        assert forall|i: int| 0 <= i < objs.len() implies spec_max_self_index(objs) >= (#[trigger] objs[i]).spec_self_index().unwrap() by {
            if i < objs.len() - 1 {
                assert(objs[i] == d[i]);
            }
        }
        if d.len() == 0 || objs.last().spec_self_index().unwrap() as nat > spec_max_self_index(d) {
            assert(spec_max_self_index(objs) == objs[objs.len() - 1].spec_self_index().unwrap());
        } else {
            let i = choose|i: int| 0 <= i < d.len() && spec_max_self_index(d) == (#[trigger] d[i]).spec_self_index().unwrap();
            assert(objs[i] == d[i]);
        }
    }
}

/// Number of slots of the table: one more than the largest own index when
/// the objects carry indices, else the number of objects.
pub open spec fn spec_slots<T: IsSelfIndexed>(objs: Seq<T>) -> nat {
    if objs.len() == 0 {
        0
    } else if objs[0].spec_self_index() is Some {
        spec_max_self_index(objs) + 1
    } else {
        objs.len()
    }
}

/// A table's slots hold every object: where the objects carry own indices,
/// there is one slot more than the largest, so each index has its slot;
/// where they carry none, there is one slot per object.
pub proof fn lemma_slots_hold_every_index<T: IsSelfIndexed>(objs: Seq<T>)
    requires
        spec_slots_defined(objs),
    ensures
        forall|i: int| 0 <= i < objs.len() && (#[trigger] objs[i]).spec_self_index() is Some ==> objs[i].spec_self_index().unwrap() < spec_slots(objs),
        objs.len() > 0 && objs[0].spec_self_index() is Some ==> exists|i: int| 0 <= i < objs.len() && spec_slots(objs) == (#[trigger] objs[i]).spec_self_index().unwrap() + 1,
        objs.len() > 0 && objs[0].spec_self_index() is None ==> spec_slots(objs) == objs.len(),
        objs.len() == 0 ==> spec_slots(objs) == 0,
{
    if objs.len() > 0 && objs[0].spec_self_index() is Some {
        assert forall|i: int| 0 <= i < objs.len() implies (#[trigger] objs[i]).spec_self_index() is Some by {}
        lemma_max_self_index_is_largest(objs);
    }
}

/// Position of the last object with the largest own index.
pub open spec fn spec_last_max_pos<T: IsSelfIndexed>(objs: Seq<T>) -> int
    decreases objs.len(),
{
    if objs.len() <= 1 {
        0
    } else {
        let j = spec_last_max_pos(objs.drop_last());
        if objs.last().spec_self_index().unwrap() >= objs[j].spec_self_index().unwrap() {
            objs.len() - 1
        } else {
            j
        }
    }
}

/// `n` rounded up to a multiple of 16.
pub open spec fn spec_round16(n: nat) -> nat {
    ((n + 15) / 16) * 16
}

/// `a + b`, or the largest `usize` when the sum exceeds it.
pub open spec fn spec_sat_add(a: int, b: int) -> int {
    if a + b > usize::MAX {
        usize::MAX as int
    } else {
        a + b
    }
}

/// What writing the objects of a pointer table has produced so far: the
/// pointers set in each slot, and the objects' bytes.
pub struct PtrWriteState {
    pub slots: Map<int, nat>,
    pub data: Seq<u8>,
}

/// Number of pointers of the table, including the magic one.
pub open spec fn spec_ptable_entries<T: IsSelfIndexed, P: Pointer>(objs: Seq<T>) -> nat {
    spec_slots(objs) + if P::spec_magic() is Some {
        1nat
    } else {
        0nat
    }
}

/// The slot of the `i`th object.
pub open spec fn spec_ptable_slot<T: IsSelfIndexed, P: Pointer>(o: T, i: int) -> int {
    (match o.spec_self_index() {
        Some(x) => x as int,
        None => i,
    }) + if P::spec_magic() is Some {
        1int
    } else {
        0int
    }
}

/// Writing the objects in order, each pointed to from its slot with an
/// offset counted from `first`; or the first error: a slot taken twice, an
/// offset too large for the pointer, or an object that cannot be written.
pub open spec fn spec_ptable_state<T: ReadWrite + IsSelfIndexed, P: Pointer>(objs: Seq<T>, first: nat) -> Result<PtrWriteState, DSEError>
    decreases objs.len(),
{
    if objs.len() == 0 {
        Ok(
            PtrWriteState {
                slots: if P::spec_magic() is Some {
                    Map::<int, nat>::empty().insert(0int, P::spec_magic().unwrap())
                } else {
                    Map::<int, nat>::empty()
                },
                data: Seq::empty(),
            },
        )
    } else {
        match spec_ptable_state::<T, P>(objs.drop_last(), first) {
            Err(e) => Err(e),
            Ok(st) => {
                let idx = spec_ptable_slot::<T, P>(objs.last(), objs.len() - 1);
                if st.slots.contains_key(idx) {
                    Err(DSEError::PointerTableDuplicateSelfIndex())
                } else if first + st.data.len() > P::spec_max() {
                    Err(DSEError::Placeholder())
                } else {
                    match objs.last().spec_write() {
                        Err(e) => Err(e),
                        Ok(b) => Ok(
                            PtrWriteState {
                                slots: st.slots.insert(idx, first + st.data.len()),
                                data: st.data + b,
                            },
                        ),
                    }
                }
            },
        }
    }
}

/// The bytes of the first `n` pointers; an empty slot holds 0.
pub open spec fn spec_ptr_entries<P: Pointer>(slots: Map<int, nat>, n: nat) -> Seq<u8>
    decreases n,
{
    if n == 0 {
        Seq::empty()
    } else {
        spec_ptr_entries::<P>(slots, (n - 1) as nat) + P::spec_encode_value(
            if slots.contains_key(n - 1) {
                slots[n - 1]
            } else {
                0
            },
        )
    }
}

/// The bytes of a pointer table: the pointers, padding of 0xAA bytes up to a
/// multiple of 16, then the objects.
pub open spec fn spec_ptable_write<T: ReadWrite + IsSelfIndexed, P: Pointer>(objs: Seq<T>) -> Result<Seq<u8>, DSEError> {
    let n = spec_ptable_entries::<T, P>(objs);
    let tlen = n * P::spec_size();
    let aligned = spec_round16(tlen);
    match spec_ptable_state::<T, P>(objs, aligned) {
        Err(e) => Err(e),
        Ok(st) => Ok(spec_ptr_entries::<P>(st.slots, n) + Seq::new((aligned - tlen) as nat, |_i: int| 0xAAu8) + st.data),
    }
}

/// The objects read through the first `k` pointers of the table at `start`;
/// a pointer of 0 is skipped.
pub open spec fn spec_ptable_read<T: ReadWrite, P: Pointer>(data: Seq<u8>, start: int, k: nat) -> Result<Seq<T::V>, DSEError>
    decreases k,
{
    if k == 0 {
        Ok(Seq::empty())
    } else {
        match spec_ptable_read::<T, P>(data, start, (k - 1) as nat) {
            Err(e) => Err(e),
            Ok(items) => {
                let m: int = if P::spec_magic() is Some {
                    1
                } else {
                    0
                };
                let ppos = start + (k - 1 + m) * P::spec_size();
                if ppos + P::spec_size() > data.len() {
                    Err(DSEError::UnexpectedEof())
                } else {
                    let p = P::spec_value_of(data.subrange(ppos, ppos + P::spec_size()));
                    if p == 0 {
                        Ok(items)
                    } else {
                        match T::spec_read(T::spec_fresh(), data, spec_sat_add(start, p as int)) {
                            Err(e) => Err(e),
                            Ok((v, _p)) => Ok(items.push(v)),
                        }
                    }
                }
            },
        }
    }
}

proof fn lemma_ptable_state_err<T: ReadWrite + IsSelfIndexed, P: Pointer>(objs: Seq<T>, first: nat, k: int)
    requires
        0 <= k <= objs.len(),
        spec_ptable_state::<T, P>(objs.take(k), first) is Err,
    ensures
        spec_ptable_state::<T, P>(objs, first) == spec_ptable_state::<T, P>(objs.take(k), first),
    decreases objs.len() - k,
{
    if k < objs.len() {
        assert(objs.take(k + 1).drop_last() =~= objs.take(k));
        lemma_ptable_state_err::<T, P>(objs, first, k + 1);
    } else {
        assert(objs.take(k) =~= objs);
    }
}

proof fn lemma_ptable_read_err<T: ReadWrite, P: Pointer>(data: Seq<u8>, start: int, k: nat, n: nat)
    requires
        k <= n,
        spec_ptable_read::<T, P>(data, start, k) is Err,
    ensures
        spec_ptable_read::<T, P>(data, start, n) == spec_ptable_read::<T, P>(data, start, k),
    decreases n - k,
{
    if k < n {
        lemma_ptable_read_err::<T, P>(data, start, k, (n - 1) as nat);
    }
}

proof fn lemma_max_self_index<T: IsSelfIndexed>(objs: Seq<T>, i: int)
    requires
        0 <= i < objs.len(),
    ensures
        objs[i].spec_self_index().unwrap() <= spec_max_self_index(objs),
    decreases objs.len(),
{
    if i < objs.len() - 1 {
        lemma_max_self_index(objs.drop_last(), i);
    }
}

proof fn lemma_ptr_entries_len<P: Pointer>(slots: Map<int, nat>, n: nat)
    ensures
        spec_ptr_entries::<P>(slots, n).len() == n * P::spec_size(),
    decreases n,
{
    P::lemma_pointer_facts();
    if n > 0 {
        lemma_ptr_entries_len::<P>(slots, (n - 1) as nat);
        assert(n * P::spec_size() == (n - 1) * P::spec_size() + P::spec_size()) by (nonlinear_arith);
    }
}

// ---------------------------------------------------------------------------
// Reading back a written pointer table
// ---------------------------------------------------------------------------

/// Whether every object carries its own index and the indices increase.
pub open spec fn spec_ids_increasing<T: IsSelfIndexed>(objs: Seq<T>) -> bool {
    &&& forall|i: int| 0 <= i < objs.len() ==> (#[trigger] objs[i].spec_self_index()) is Some
    &&& forall|i: int, j: int|
        0 <= i < j < objs.len() ==> (#[trigger] objs[i].spec_self_index()).unwrap() < (#[trigger] objs[j].spec_self_index()).unwrap()
}

proof fn lemma_ids_increasing_drop_last<T: IsSelfIndexed>(objs: Seq<T>)
    requires
        spec_ids_increasing(objs),
        objs.len() > 0,
    ensures
        spec_ids_increasing(objs.drop_last()),
{
    let d = objs.drop_last();
    assert forall|i: int| 0 <= i < d.len() implies (#[trigger] d[i].spec_self_index()) is Some by {
        assert(d[i] == objs[i]);
    }
    assert forall|i: int, j: int| 0 <= i < j < d.len() implies (#[trigger] d[i].spec_self_index()).unwrap() < (#[trigger] d[j].spec_self_index()).unwrap() by {
        assert(d[i] == objs[i]);
        assert(d[j] == objs[j]);
    }
}

/// With increasing indices, the largest index is the last object's.
pub proof fn lemma_max_index_increasing<T: IsSelfIndexed>(objs: Seq<T>)
    requires
        spec_ids_increasing(objs),
        objs.len() > 0,
    ensures
        spec_max_self_index(objs) == objs.last().spec_self_index().unwrap(),
    decreases objs.len(),
{
    if objs.len() > 1 {
        lemma_ids_increasing_drop_last(objs);
        lemma_max_index_increasing(objs.drop_last());
        assert(objs.drop_last().last() == objs[objs.len() - 2]);
        assert(objs[objs.len() - 2].spec_self_index().unwrap() < objs[objs.len() - 1].spec_self_index().unwrap());
    } else {
        assert(objs.drop_last().len() == 0);
        assert(spec_max_self_index(objs.drop_last()) == 0);
    }
    assert(objs.last() == objs[objs.len() - 1]);
    assert(objs[objs.len() - 1].spec_self_index() is Some);
}

/// What writing a pointer table records of object `j`: the objects before it
/// can be written, it can be written, its bytes stand in the data after
/// theirs, and its slot points there.
pub open spec fn spec_ptr_object_at<T: ReadWrite + IsSelfIndexed, P: Pointer>(objs: Seq<T>, first: nat, j: int) -> bool {
    let st = spec_ptable_state::<T, P>(objs, first).unwrap();
    let stj = spec_ptable_state::<T, P>(objs.take(j), first);
    let m: int = if P::spec_magic() is Some { 1 } else { 0 };
    &&& stj is Ok
    &&& objs[j].spec_write() is Ok
    &&& stj.unwrap().data.len() + objs[j].spec_write().unwrap().len() <= st.data.len()
    &&& st.data.subrange(stj.unwrap().data.len() as int, (stj.unwrap().data.len() + objs[j].spec_write().unwrap().len()) as int)
        == objs[j].spec_write().unwrap()
    &&& st.slots.contains_key(objs[j].spec_self_index().unwrap() + m)
    &&& st.slots[objs[j].spec_self_index().unwrap() + m] == first + stj.unwrap().data.len()
    &&& first + stj.unwrap().data.len() <= P::spec_max()
}

/// The slots that writing a pointer table fills: the magic one, and those of
/// the objects.
proof fn lemma_ptable_state_shape<T: ReadWrite + IsSelfIndexed, P: Pointer>(objs: Seq<T>, first: nat)
    requires
        spec_ids_increasing(objs),
        spec_ptable_state::<T, P>(objs, first) is Ok,
    ensures
        forall|j: int| 0 <= j < objs.len() ==> #[trigger] spec_ptr_object_at::<T, P>(objs, first, j),
        forall|s: int|
            #[trigger] spec_ptable_state::<T, P>(objs, first).unwrap().slots.contains_key(s) ==> (P::spec_magic() is Some && s == 0)
                || exists|j: int|
                0 <= j < objs.len() && s == (#[trigger] objs[j].spec_self_index()).unwrap() + (if P::spec_magic() is Some {
                    1int
                } else {
                    0int
                }),
    decreases objs.len(),
{
    let m: int = if P::spec_magic() is Some { 1 } else { 0 };
    if objs.len() > 0 {
        let d = objs.drop_last();
        let l = objs.len() - 1;
        lemma_ids_increasing_drop_last(objs);
        lemma_ptable_state_shape::<T, P>(d, first);
        let st1 = spec_ptable_state::<T, P>(d, first).unwrap();
        let st = spec_ptable_state::<T, P>(objs, first).unwrap();
        let idx = objs[l].spec_self_index().unwrap() + m;
        let wl = objs[l].spec_write().unwrap();
        assert(objs.last() == objs[l]);
        assert(st.slots == st1.slots.insert(idx, first + st1.data.len()));
        assert(st.data == st1.data + wl);
        assert forall|j: int| 0 <= j < objs.len() implies #[trigger] spec_ptr_object_at::<T, P>(objs, first, j) by {
            if j < l {
                assert(spec_ptr_object_at::<T, P>(d, first, j));
                assert(d.take(j) =~= objs.take(j));
                assert(d[j] == objs[j]);
                let stj = spec_ptable_state::<T, P>(objs.take(j), first).unwrap();
                let wj = objs[j].spec_write().unwrap();
                assert(st.data.subrange(stj.data.len() as int, (stj.data.len() + wj.len()) as int) =~= st1.data.subrange(
                    stj.data.len() as int,
                    (stj.data.len() + wj.len()) as int,
                ));
                assert(objs[j].spec_self_index().unwrap() < objs[l].spec_self_index().unwrap());
            } else {
                assert(objs.take(j) =~= d);
                assert(st.data.subrange(st1.data.len() as int, (st1.data.len() + wl.len()) as int) =~= wl);
            }
        }
        assert forall|s: int| #[trigger] st.slots.contains_key(s) implies (P::spec_magic() is Some && s == 0) || exists|j: int|
            0 <= j < objs.len() && s == (#[trigger] objs[j].spec_self_index()).unwrap() + m by {
            if s == idx {
                assert(s == objs[l].spec_self_index().unwrap() + m);
            } else {
                assert(st1.slots.contains_key(s));
                if !(P::spec_magic() is Some && s == 0) {
                    let j = choose|j: int| 0 <= j < d.len() && s == (#[trigger] d[j].spec_self_index()).unwrap() + m;
                    assert(d[j] == objs[j]);
                }
            }
        }
    }
}

/// The bytes of the pointer in slot `s`.
proof fn lemma_ptr_entries_at<P: Pointer>(slots: Map<int, nat>, n: nat, s: int)
    requires
        0 <= s < n,
    ensures
        spec_ptr_entries::<P>(slots, n).len() == n * P::spec_size(),
        spec_ptr_entries::<P>(slots, n).subrange(s * P::spec_size(), (s + 1) * P::spec_size()) == P::spec_encode_value(
            if slots.contains_key(s) {
                slots[s]
            } else {
                0
            },
        ),
    decreases n,
{
    P::lemma_pointer_facts();
    lemma_ptr_entries_len::<P>(slots, n);
    lemma_ptr_entries_len::<P>(slots, (n - 1) as nat);
    let sz = P::spec_size();
    let e = spec_ptr_entries::<P>(slots, (n - 1) as nat);
    let v = P::spec_encode_value(if slots.contains_key(n - 1) { slots[n - 1] } else { 0 });
    assert(spec_ptr_entries::<P>(slots, n) == e + v);
    assert((s + 1) * sz == s * sz + sz) by (nonlinear_arith);
    if s < n - 1 {
        lemma_ptr_entries_at::<P>(slots, (n - 1) as nat, s);
        assert((s + 1) * sz <= (n - 1) * sz) by (nonlinear_arith)
            requires
                s + 1 <= n - 1,
                sz >= 0,
        ;
        assert((e + v).subrange(s * sz, (s + 1) * sz) =~= e.subrange(s * sz, (s + 1) * sz));
    } else {
        assert(s * sz == (n - 1) * sz);
        assert((e + v).subrange(s * sz, (s + 1) * sz) =~= v);
    }
}

/// The bytes of the pointers and of their padding, before the objects.
pub open spec fn spec_ptable_first<T: IsSelfIndexed, P: Pointer>(objs: Seq<T>) -> nat {
    spec_round16(spec_ptable_entries::<T, P>(objs) * P::spec_size())
}

/// A written pointer table is its pointers, their padding up to
/// `spec_ptable_first`, then the objects' bytes.
proof fn lemma_ptable_layout<T: ReadWrite + IsSelfIndexed, P: Pointer>(objs: Seq<T>)
    requires
        spec_ptable_write::<T, P>(objs) is Ok,
    ensures
        spec_ptable_state::<T, P>(objs, spec_ptable_first::<T, P>(objs)) is Ok,
        spec_ptable_write::<T, P>(objs).unwrap().subrange(0, spec_ptr_entries::<P>(
            spec_ptable_state::<T, P>(objs, spec_ptable_first::<T, P>(objs)).unwrap().slots,
            spec_ptable_entries::<T, P>(objs),
        ).len() as int) == spec_ptr_entries::<P>(
            spec_ptable_state::<T, P>(objs, spec_ptable_first::<T, P>(objs)).unwrap().slots,
            spec_ptable_entries::<T, P>(objs),
        ),
        spec_ptr_entries::<P>(
            spec_ptable_state::<T, P>(objs, spec_ptable_first::<T, P>(objs)).unwrap().slots,
            spec_ptable_entries::<T, P>(objs),
        ).len() <= spec_ptable_first::<T, P>(objs),
        spec_ptable_write::<T, P>(objs).unwrap().len() == spec_ptable_first::<T, P>(objs) + spec_ptable_state::<T, P>(
            objs,
            spec_ptable_first::<T, P>(objs),
        ).unwrap().data.len(),
        spec_ptable_write::<T, P>(objs).unwrap().subrange(
            spec_ptable_first::<T, P>(objs) as int,
            spec_ptable_write::<T, P>(objs).unwrap().len() as int,
        ) == spec_ptable_state::<T, P>(objs, spec_ptable_first::<T, P>(objs)).unwrap().data,
        objs.len() > 0 ==> spec_ptable_first::<T, P>(objs) >= 16,
{
    P::lemma_pointer_facts();
    let n = spec_ptable_entries::<T, P>(objs);
    let sz = P::spec_size();
    let tlen = n * sz;
    let first = spec_ptable_first::<T, P>(objs);
    let st = spec_ptable_state::<T, P>(objs, first).unwrap();
    let ent = spec_ptr_entries::<P>(st.slots, n);
    lemma_ptr_entries_len::<P>(st.slots, n);
    assert(first >= tlen) by (nonlinear_arith)
        requires
            first == ((tlen + 15) / 16) * 16,
            tlen >= 0,
    ;
    let pad = Seq::new((first - tlen) as nat, |_i: int| 0xAAu8);
    let w = spec_ptable_write::<T, P>(objs).unwrap();
    assert(w == ent + pad + st.data);
    assert(w.subrange(0, ent.len() as int) =~= ent);
    assert(w.subrange(first as int, w.len() as int) =~= st.data);
    if objs.len() > 0 {
        assert(n >= 1);
        assert(tlen >= 1) by (nonlinear_arith)
            requires
                tlen == n * sz,
                n >= 1,
                sz >= 2,
        ;
        assert(first >= 16) by (nonlinear_arith)
            requires
                first == ((tlen + 15) / 16) * 16,
                tlen >= 1,
        ;
    }
}

/// Reading the first `k` pointers of a written table whose objects carry
/// increasing indices, each read back as `f` says, gives the first `c`
/// objects as `f` says: those whose index is below `k`.
proof fn lemma_ptable_read_prefix<T: ReadWrite + IsSelfIndexed, P: Pointer>(
    objs: Seq<T>,
    f: spec_fn(T) -> T::V,
    data: Seq<u8>,
    start: int,
    k: nat,
    c: int,
)
    requires
        spec_ids_increasing(objs),
        forall|i: int| 0 <= i < objs.len() ==> spec_reads_back_as(#[trigger] objs[i], f(objs[i])),
        spec_ptable_write::<T, P>(objs) is Ok,
        forall|j: int| 0 <= j < objs.len() ==> #[trigger] spec_ptr_object_at::<T, P>(objs, spec_ptable_first::<T, P>(objs), j),
        forall|s: int|
            #[trigger] spec_ptable_state::<T, P>(objs, spec_ptable_first::<T, P>(objs)).unwrap().slots.contains_key(s) ==> (
            P::spec_magic() is Some && s == 0) || exists|j: int|
                0 <= j < objs.len() && s == (#[trigger] objs[j].spec_self_index()).unwrap() + (if P::spec_magic() is Some {
                    1int
                } else {
                    0int
                }),
        0 <= start,
        start + spec_ptable_write::<T, P>(objs).unwrap().len() <= data.len(),
        start + spec_ptable_write::<T, P>(objs).unwrap().len() <= usize::MAX,
        data.subrange(start, start + spec_ptable_write::<T, P>(objs).unwrap().len()) == spec_ptable_write::<T, P>(objs).unwrap(),
        k <= spec_slots(objs),
        0 <= c <= objs.len(),
        forall|j: int| 0 <= j < c ==> (#[trigger] objs[j].spec_self_index()).unwrap() < k,
        forall|j: int| c <= j < objs.len() ==> (#[trigger] objs[j].spec_self_index()).unwrap() >= k,
    ensures
        spec_ptable_read::<T, P>(data, start, k) == Ok::<Seq<T::V>, DSEError>(objs.take(c).map_values(f)),
    decreases k,
{
    if k == 0 {
        if c > 0 {
            assert(objs[0].spec_self_index().unwrap() < 0);
        }
        assert(objs.take(0).map_values(f) =~= Seq::<T::V>::empty());
    } else {
        let s = k - 1;
        let hit = c > 0 && objs[c - 1].spec_self_index().unwrap() == s;
        let c2 = if hit { c - 1 } else { c };
        assert forall|j: int| 0 <= j < c2 implies (#[trigger] objs[j].spec_self_index()).unwrap() < s by {
            assert(objs[c - 1].spec_self_index().unwrap() < k);
            if j < c - 1 {
                assert(objs[j].spec_self_index().unwrap() < objs[c - 1].spec_self_index().unwrap());
            }
        }
        assert forall|j: int| c2 <= j < objs.len() implies (#[trigger] objs[j].spec_self_index()).unwrap() >= s by {
            if j >= c {
                assert(objs[j].spec_self_index().unwrap() >= k);
            }
        }
        lemma_ptable_read_prefix::<T, P>(objs, f, data, start, (k - 1) as nat, c2);
        P::lemma_pointer_facts();
        lemma_ptable_layout::<T, P>(objs);
        let m: int = if P::spec_magic() is Some { 1 } else { 0 };
        let n = spec_ptable_entries::<T, P>(objs);
        let sz = P::spec_size();
        let first = spec_ptable_first::<T, P>(objs);
        let st = spec_ptable_state::<T, P>(objs, first).unwrap();
        let w = spec_ptable_write::<T, P>(objs).unwrap();
        let ent = spec_ptr_entries::<P>(st.slots, n);
        lemma_ptr_entries_at::<P>(st.slots, n, s + m);
        let x = (s + m) * sz;
        assert(x + sz <= ent.len()) by (nonlinear_arith)
            requires
                x == (s + m) * sz,
                ent.len() == n * sz,
                s + m + 1 <= n,
                sz >= 0,
        ;
        assert((s + m + 1) * sz == x + sz) by (nonlinear_arith)
            requires
                x == (s + m) * sz,
        ;
        let ppos = start + x;
        assert(ppos == start + (k - 1 + m) * P::spec_size());
        assert(data.subrange(ppos, ppos + sz) =~= ent.subrange(x, x + sz)) by {
            assert forall|i: int| 0 <= i < sz implies #[trigger] data.subrange(ppos, ppos + sz)[i] == ent.subrange(x, x + sz)[i] by {
                assert(data.subrange(start, start + w.len())[x + i] == w[x + i]);
                assert(w.subrange(0, ent.len() as int)[x + i] == ent[x + i]);
            }
        }
        if hit {
            let j = c - 1;
            assert(spec_ptr_object_at::<T, P>(objs, first, j));
            let off = spec_ptable_state::<T, P>(objs.take(j), first).unwrap().data.len();
            let wj = objs[j].spec_write().unwrap();
            let p = first + off;
            assert(st.slots[s + m] == p);
            P::lemma_value_roundtrip(p);
            assert(P::spec_value_of(data.subrange(ppos, ppos + sz)) == p);
            assert(p != 0);
            assert(spec_sat_add(start, p as int) == start + p);
            assert(data.subrange(start + p, start + p + wj.len()) =~= wj) by {
                assert forall|i: int| 0 <= i < wj.len() implies #[trigger] data.subrange(start + p, start + p + wj.len())[i] == wj[i] by {
                    assert(data.subrange(start, start + w.len())[first + off + i] == w[first + off + i]);
                    assert(w.subrange(first as int, w.len() as int)[off + i] == w[first + off + i]);
                    assert(st.data.subrange(off as int, (off + wj.len()) as int)[i] == st.data[off + i]);
                }
            }
            assert(spec_reads_back_as(objs[j], f(objs[j])));
            assert(T::spec_read(T::spec_fresh(), data, start + p) == Ok::<(T::V, int), DSEError>(
                (f(objs[j]), start + p + wj.len()),
            ));
            assert(objs.take(c).map_values(f) =~= objs.take(c2).map_values(f).push(f(objs[j])));
        } else {
            assert(!st.slots.contains_key(s + m)) by {
                if st.slots.contains_key(s + m) {
                    if !(P::spec_magic() is Some && s + m == 0) {
                        let j = choose|j: int| 0 <= j < objs.len() && s + m == (#[trigger] objs[j].spec_self_index()).unwrap() + m;
                        if j < c {
                            assert(objs[c - 1].spec_self_index().unwrap() < k);
                            if j < c - 1 {
                                assert(objs[j].spec_self_index().unwrap() < objs[c - 1].spec_self_index().unwrap());
                            }
                        } else {
                            assert(objs[j].spec_self_index().unwrap() >= k);
                        }
                    }
                }
            }
            P::lemma_value_roundtrip(0);
            assert(P::spec_value_of(data.subrange(ppos, ppos + sz)) == 0);
        }
    }
}

/// Whether two sequences of objects carry the same own indices and can be
/// written alike, into as many bytes.
pub open spec fn spec_same_shape<T: ReadWrite + IsSelfIndexed>(a: Seq<T>, b: Seq<T>) -> bool {
    &&& a.len() == b.len()
    &&& forall|i: int|
        0 <= i < a.len() ==> (#[trigger] a[i].spec_self_index()) == b[i].spec_self_index() && (a[i].spec_write() is Ok
            <==> b[i].spec_write() is Ok) && (a[i].spec_write() is Ok ==> a[i].spec_write().unwrap().len()
            == b[i].spec_write().unwrap().len())
}

proof fn lemma_same_shape_drop_last<T: ReadWrite + IsSelfIndexed>(a: Seq<T>, b: Seq<T>)
    requires
        spec_same_shape(a, b),
        a.len() > 0,
    ensures
        spec_same_shape(a.drop_last(), b.drop_last()),
{
    assert forall|i: int| 0 <= i < a.drop_last().len() implies (#[trigger] a.drop_last()[i].spec_self_index())
        == b.drop_last()[i].spec_self_index() && (a.drop_last()[i].spec_write() is Ok <==> b.drop_last()[i].spec_write() is Ok)
        && (a.drop_last()[i].spec_write() is Ok ==> a.drop_last()[i].spec_write().unwrap().len()
        == b.drop_last()[i].spec_write().unwrap().len()) by {
        assert(a.drop_last()[i] == a[i]);
        assert(b.drop_last()[i] == b[i]);
        assert(a[i].spec_self_index() == b[i].spec_self_index());
    }
}

proof fn lemma_same_shape_slots<T: ReadWrite + IsSelfIndexed>(a: Seq<T>, b: Seq<T>)
    requires
        spec_same_shape(a, b),
    ensures
        spec_max_self_index(a) == spec_max_self_index(b),
        spec_slots(a) == spec_slots(b),
    decreases a.len(),
{
    if a.len() > 0 {
        lemma_same_shape_drop_last(a, b);
        lemma_same_shape_slots(a.drop_last(), b.drop_last());
        assert(a.last() == a[a.len() - 1]);
        assert(b.last() == b[b.len() - 1]);
        assert(a[0].spec_self_index() == b[0].spec_self_index());
        assert(a[a.len() - 1].spec_self_index() == b[b.len() - 1].spec_self_index());
    }
}

proof fn lemma_same_shape_state<T: ReadWrite + IsSelfIndexed, P: Pointer>(a: Seq<T>, b: Seq<T>, first: nat)
    requires
        spec_same_shape(a, b),
    ensures
        spec_ptable_state::<T, P>(a, first) is Ok <==> spec_ptable_state::<T, P>(b, first) is Ok,
        spec_ptable_state::<T, P>(a, first) is Ok ==> spec_ptable_state::<T, P>(a, first).unwrap().slots
            == spec_ptable_state::<T, P>(b, first).unwrap().slots && spec_ptable_state::<T, P>(a, first).unwrap().data.len()
            == spec_ptable_state::<T, P>(b, first).unwrap().data.len(),
    decreases a.len(),
{
    if a.len() > 0 {
        lemma_same_shape_drop_last(a, b);
        lemma_same_shape_state::<T, P>(a.drop_last(), b.drop_last(), first);
        let l = a.len() - 1;
        assert(a.last() == a[l]);
        assert(b.last() == b[l]);
        assert(a[l].spec_self_index() == b[l].spec_self_index());
    }
}

/// Pointer tables whose objects carry the same own indices and can be
/// written alike, into as many bytes, are written alike, into as many bytes.
pub proof fn lemma_ptable_same_shape<T: ReadWrite + IsSelfIndexed, P: Pointer>(a: Seq<T>, b: Seq<T>)
    requires
        spec_same_shape(a, b),
    ensures
        spec_slots(a) == spec_slots(b),
        spec_ptable_write::<T, P>(a) is Ok <==> spec_ptable_write::<T, P>(b) is Ok,
        spec_ptable_write::<T, P>(a) is Ok ==> spec_ptable_write::<T, P>(a).unwrap().len() == spec_ptable_write::<T, P>(
            b,
        ).unwrap().len(),
{
    lemma_same_shape_slots(a, b);
    let first = spec_ptable_first::<T, P>(a);
    assert(spec_ptable_entries::<T, P>(a) == spec_ptable_entries::<T, P>(b));
    lemma_same_shape_state::<T, P>(a, b, first);
    if spec_ptable_write::<T, P>(a) is Ok {
        let sa = spec_ptable_state::<T, P>(a, first).unwrap();
        let sb = spec_ptable_state::<T, P>(b, first).unwrap();
        let n = spec_ptable_entries::<T, P>(a);
        lemma_ptr_entries_len::<P>(sa.slots, n);
    }
}

/// Whether two sequences of objects carry the same own indices and are
/// written into the same bytes, one by one.
pub open spec fn spec_same_bytes<T: ReadWrite + IsSelfIndexed>(a: Seq<T>, b: Seq<T>) -> bool {
    &&& a.len() == b.len()
    &&& forall|i: int|
        0 <= i < a.len() ==> (#[trigger] a[i].spec_self_index()) == b[i].spec_self_index() && a[i].spec_write()
            == b[i].spec_write()
}

proof fn lemma_same_bytes_state<T: ReadWrite + IsSelfIndexed, P: Pointer>(a: Seq<T>, b: Seq<T>, first: nat)
    requires
        spec_same_bytes(a, b),
    ensures
        spec_ptable_state::<T, P>(a, first) == spec_ptable_state::<T, P>(b, first),
    decreases a.len(),
{
    if a.len() > 0 {
        assert(spec_same_bytes(a.drop_last(), b.drop_last())) by {
            assert forall|i: int| 0 <= i < a.drop_last().len() implies (#[trigger] a.drop_last()[i].spec_self_index())
                == b.drop_last()[i].spec_self_index() && a.drop_last()[i].spec_write() == b.drop_last()[i].spec_write() by {
                assert(a.drop_last()[i] == a[i]);
                assert(b.drop_last()[i] == b[i]);
                assert(a[i].spec_self_index() == b[i].spec_self_index());
            }
        }
        lemma_same_bytes_state::<T, P>(a.drop_last(), b.drop_last(), first);
        let l = a.len() - 1;
        assert(a.last() == a[l]);
        assert(b.last() == b[l]);
        assert(a[l].spec_self_index() == b[l].spec_self_index());
    }
}

/// Pointer tables whose objects carry the same own indices and are written
/// into the same bytes, one by one, are written into the same bytes.
pub proof fn lemma_ptable_same_bytes<T: ReadWrite + IsSelfIndexed, P: Pointer>(a: Seq<T>, b: Seq<T>)
    requires
        spec_same_bytes(a, b),
    ensures
        spec_ptable_write::<T, P>(a) == spec_ptable_write::<T, P>(b),
{
    assert(spec_same_shape(a, b)) by {
        assert forall|i: int| 0 <= i < a.len() implies (#[trigger] a[i].spec_self_index()) == b[i].spec_self_index() && (
        a[i].spec_write() is Ok <==> b[i].spec_write() is Ok) && (a[i].spec_write() is Ok ==> a[i].spec_write().unwrap().len()
            == b[i].spec_write().unwrap().len()) by {
            assert(a[i].spec_self_index() == b[i].spec_self_index());
        }
    }
    lemma_same_shape_slots(a, b);
    assert(spec_ptable_entries::<T, P>(a) == spec_ptable_entries::<T, P>(b));
    lemma_same_bytes_state::<T, P>(a, b, spec_ptable_first::<T, P>(a));
}

/// Each object of a pointer table that can be written can be written.
pub proof fn lemma_ptable_write_parts<T: ReadWrite + IsSelfIndexed, P: Pointer>(objs: Seq<T>, i: int)
    requires
        spec_ptable_write::<T, P>(objs) is Ok,
        0 <= i < objs.len(),
    ensures
        objs[i].spec_write() is Ok,
{
    lemma_ptable_state_parts::<T, P>(objs, spec_ptable_first::<T, P>(objs), i);
}

proof fn lemma_ptable_state_parts<T: ReadWrite + IsSelfIndexed, P: Pointer>(objs: Seq<T>, first: nat, i: int)
    requires
        spec_ptable_state::<T, P>(objs, first) is Ok,
        0 <= i < objs.len(),
    ensures
        objs[i].spec_write() is Ok,
    decreases objs.len(),
{
    if i < objs.len() - 1 {
        lemma_ptable_state_parts::<T, P>(objs.drop_last(), first, i);
        assert(objs.drop_last()[i] == objs[i]);
    } else {
        assert(objs.last() == objs[i]);
    }
}

/// Reading back the pointers of a written table whose objects carry
/// increasing indices, each read back as `f` says, gives the objects in
/// order as `f` says.
pub proof fn lemma_ptable_roundtrip<T: ReadWrite + IsSelfIndexed, P: Pointer>(
    objs: Seq<T>,
    f: spec_fn(T) -> T::V,
    data: Seq<u8>,
    start: int,
)
    requires
        spec_ids_increasing(objs),
        forall|i: int| 0 <= i < objs.len() ==> spec_reads_back_as(#[trigger] objs[i], f(objs[i])),
        spec_ptable_write::<T, P>(objs) is Ok,
        0 <= start,
        start + spec_ptable_write::<T, P>(objs).unwrap().len() <= data.len(),
        start + spec_ptable_write::<T, P>(objs).unwrap().len() <= usize::MAX,
        data.subrange(start, start + spec_ptable_write::<T, P>(objs).unwrap().len()) == spec_ptable_write::<T, P>(objs).unwrap(),
    ensures
        spec_ptable_read::<T, P>(data, start, spec_slots(objs)) == Ok::<Seq<T::V>, DSEError>(objs.map_values(f)),
{
    let first = spec_ptable_first::<T, P>(objs);
    lemma_ptable_layout::<T, P>(objs);
    lemma_ptable_state_shape::<T, P>(objs, first);
    let n = objs.len();
    if n > 0 {
        lemma_max_index_increasing(objs);
        assert forall|j: int| 0 <= j < n implies (#[trigger] objs[j].spec_self_index()).unwrap() < spec_slots(objs) by {
            if j < n - 1 {
                assert(objs[j].spec_self_index().unwrap() < objs[n - 1].spec_self_index().unwrap());
            }
        }
    }
    lemma_ptable_read_prefix::<T, P>(objs, f, data, start, spec_slots(objs), n as int);
    assert(objs.take(n as int) =~= objs);
}

impl<T: ReadWrite + IsSelfIndexed> PointerTable<T> {
    /// An empty table that reads `n` pointers of a chunk of length `chunk_len`.
    pub fn new(n: usize, chunk_len: u32) -> (r: PointerTable<T>)
        ensures
            r._read_n == n,
            r._chunk_len == chunk_len,
            r.objects@.len() == 0,
    {
        PointerTable { _read_n: n, _chunk_len: chunk_len, objects: Vec::new() }
    }

    pub fn set_read_params(&mut self, n: usize, chunk_len: u32)
        ensures
            final(self)._read_n == n,
            final(self)._chunk_len == chunk_len,
            final(self).objects@ == old(self).objects@,
    {
        self._read_n = n;
        self._chunk_len = chunk_len;
    }

    /// Number of slots the table needs.
    pub fn slots(&self) -> (r: usize)
        requires
            spec_slots_defined(self.objects@),
        ensures
            r == spec_slots(self.objects@),
    {
        let len = self.objects.len();
        if len == 0 {
            return 0;
        }
        if self.objects[0].is_self_indexed().is_some() {
            let mut m: usize = 0;
            let mut i: usize = 0;
            while i < len
                invariant
                    i <= len,
                    len == self.objects@.len(),
                    spec_slots_defined(self.objects@),
                    self.objects@[0].spec_self_index() is Some,
                    m == spec_max_self_index(self.objects@.take(i as int)),
                    m < usize::MAX,
                decreases len - i,
            {
                proof {
                    assert(self.objects@.take(i + 1).drop_last() =~= self.objects@.take(i as int));
                }
                let x = self.objects[i].is_self_indexed().unwrap();
                if x > m {
                    m = x;
                }
                i = i + 1;
            }
            assert(self.objects@.take(len as int) =~= self.objects@);
            m + 1
        } else {
            len
        }
    }

    /// The object in the last slot.
    pub fn last(&self) -> (r: Option<&T>)
        requires
            self.objects@.len() > 0,
            spec_slots_defined(self.objects@),
        ensures
            r matches Some(x) && *x == (if self.objects@[0].spec_self_index() is Some {
                self.objects@[spec_last_max_pos(self.objects@)]
            } else {
                self.objects@.last()
            }),
    {
        let len = self.objects.len();
        if self.objects[0].is_self_indexed().is_some() {
            let mut j: usize = 0;
            let mut i: usize = 1;
            assert(self.objects@.take(1).len() == 1);
            while i < len
                invariant
                    1 <= i <= len,
                    len == self.objects@.len(),
                    spec_slots_defined(self.objects@),
                    self.objects@[0].spec_self_index() is Some,
                    j < i,
                    j == spec_last_max_pos(self.objects@.take(i as int)),
                    forall|k: int| 0 <= k < i ==> self.objects@.take(i as int)[k] == self.objects@[k],
                decreases len - i,
            {
                proof {
                    assert(self.objects@.take(i + 1).drop_last() =~= self.objects@.take(i as int));
                }
                let x = self.objects[i].is_self_indexed().unwrap();
                let y = self.objects[j].is_self_indexed().unwrap();
                if x >= y {
                    j = i;
                }
                i = i + 1;
            }
            assert(self.objects@.take(len as int) =~= self.objects@);
            Some(&self.objects[j])
        } else {
            Some(&self.objects[len - 1])
        }
    }

    /// Whether no two objects take the same slot.
    pub fn slots_distinct(&self) -> (r: bool)
        ensures
            r == spec_slots_distinct(self.objects@),
    {
        let n = self.objects.len();
        let mut b: usize = 0;
        while b < n
            invariant
                b <= n,
                n == self.objects@.len(),
                forall|x: int, y: int| 0 <= x < y < b ==> spec_own_slot(#[trigger] self.objects@[x], x) != spec_own_slot(#[trigger] self.objects@[y], y),
            decreases n - b,
        {
            let sb = match self.objects[b].is_self_indexed() {
                Some(x) => x,
                None => b,
            };
            let mut a: usize = 0;
            while a < b
                invariant
                    a <= b,
                    b < n,
                    n == self.objects@.len(),
                    sb as int == spec_own_slot(self.objects@[b as int], b as int),
                    forall|x: int, y: int| 0 <= x < y < b ==> spec_own_slot(#[trigger] self.objects@[x], x) != spec_own_slot(#[trigger] self.objects@[y], y),
                    forall|x: int| 0 <= x < a ==> spec_own_slot(#[trigger] self.objects@[x], x) != sb as int,
                decreases b - a,
            {
                let sa = match self.objects[a].is_self_indexed() {
                    Some(x) => x,
                    None => a,
                };
                if sa == sb {
                    assert(spec_own_slot(self.objects@[a as int], a as int) == spec_own_slot(self.objects@[b as int], b as int));
                    return false;
                }
                a = a + 1;
            }
            b = b + 1;
        }
        true
    }

    /// Writes the pointers, the padding and the objects, with pointers of
    /// type `P`. A table where two objects claim one slot is left out by
    /// `requires`: it is not written.
    pub fn write_to_file<P: Pointer>(&self, writer: &mut Vec<u8>) -> (res: Result<usize, DSEError>)
        requires
            spec_slots_defined(self.objects@),
            spec_slots_distinct(self.objects@),
            spec_ptable_entries::<T, P>(self.objects@) * P::spec_size() + 15 <= usize::MAX,
        ensures
            match spec_ptable_write::<T, P>(self.objects@) {
                Ok(b) => res == Ok::<usize, DSEError>(b.len() as usize) && final(writer)@ == old(writer)@ + b,
                Err(e) => res == Err::<usize, DSEError>(e),
            },
    {
        proof { P::lemma_pointer_facts(); }
        let ghost objs = self.objects@;
        let bpp = P::pointer_size();
        let slots = self.slots();
        let magic = P::use_magic();
        let nentries = if magic.is_some() { slots + 1 } else { slots };
        let tlen = nentries * bpp;
        let aligned = (tlen + 15) / 16 * 16;
        assert(aligned == spec_round16(tlen as nat));
        assert(nentries >= 1 ==> tlen >= 2) by (nonlinear_arith)
            requires
                tlen == nentries * bpp,
                bpp >= 2,
        ;
        assert(self.objects@.len() > 0 ==> nentries >= 1);
        assert(self.objects@.len() > 0 ==> aligned >= 16);
        let mut table: Vec<usize> = Vec::new();
        while table.len() < nentries
            invariant
                table@.len() <= nentries,
                forall|k: int| 0 <= k < table@.len() ==> table@[k] == 0,
            decreases nentries - table@.len(),
        {
            table.push(0);
        }
        let magic_off: usize = if magic.is_some() { 1 } else { 0 };
        if let Some(m) = magic {
            table.set(0, m.as_usize());
        }
        let mut data: Vec<u8> = Vec::new();
        let mut i: usize = 0;
        let len = self.objects.len();
        assert(objs.take(0) =~= Seq::<T>::empty());
        while i < len
            invariant
                i <= len,
                len == objs.len(),
                objs == self.objects@,
                spec_slots_defined(objs),
                slots == spec_slots(objs),
                nentries == spec_ptable_entries::<T, P>(objs),
                magic_off == (if P::spec_magic() is Some { 1usize } else { 0usize }),
                table@.len() == nentries,
                aligned == spec_round16(tlen as nat),
                len > 0 ==> aligned >= 16,
                tlen == nentries * P::spec_size(),
                P::spec_max() <= 0xFFFF_FFFF,
                P::spec_size() == bpp,
                spec_ptable_state::<T, P>(objs.take(i as int), aligned as nat) is Ok,
                data@ == spec_ptable_state::<T, P>(objs.take(i as int), aligned as nat).unwrap().data,
                forall|k: int| 0 <= k < nentries ==> #[trigger] table@[k] == (if spec_ptable_state::<T, P>(objs.take(i as int), aligned as nat).unwrap().slots.contains_key(k) {
                    spec_ptable_state::<T, P>(objs.take(i as int), aligned as nat).unwrap().slots[k]
                } else {
                    0
                }),
                forall|k: int| #[trigger] spec_ptable_state::<T, P>(objs.take(i as int), aligned as nat).unwrap().slots.contains_key(k) ==> 0 <= k < nentries
                    && spec_ptable_state::<T, P>(objs.take(i as int), aligned as nat).unwrap().slots[k] > 0
                    && spec_ptable_state::<T, P>(objs.take(i as int), aligned as nat).unwrap().slots[k] <= P::spec_max(),
            decreases len - i,
        {
            let ghost st = spec_ptable_state::<T, P>(objs.take(i as int), aligned as nat).unwrap();
            let object = &self.objects[i];
            proof {
                assert(objs.take(i + 1).drop_last() =~= objs.take(i as int));
                assert(objs.take(i + 1).last() == *object);
                if objs[0].spec_self_index() is Some {
                    lemma_max_self_index(objs, i as int);
                }
            }
            let base = match object.is_self_indexed() {
                Some(x) => x,
                None => i,
            };
            assert(base < slots);
            let idx = base + magic_off;
            assert(idx == spec_ptable_slot::<T, P>(*object, i as int));
            if table[idx] != 0 {
                proof { lemma_ptable_state_err::<T, P>(objs, aligned as nat, i + 1); }
                return Err(DSEError::PointerTableDuplicateSelfIndex());
            }
            let ptr = match aligned.checked_add(data.len()) {
                Some(v) => v,
                None => {
                    proof { lemma_ptable_state_err::<T, P>(objs, aligned as nat, i + 1); }
                    return Err(DSEError::Placeholder());
                },
            };
            if P::try_from_usize(ptr).is_none() {
                proof { lemma_ptable_state_err::<T, P>(objs, aligned as nat, i + 1); }
                return Err(DSEError::Placeholder());
            }
            match object.write_to_file(&mut data) {
                Ok(_) => {},
                Err(e) => {
                    proof { lemma_ptable_state_err::<T, P>(objs, aligned as nat, i + 1); }
                    return Err(e);
                },
            }
            table.set(idx, ptr);
            i = i + 1;
        }
        assert(objs.take(len as int) =~= objs);
        let ghost st = spec_ptable_state::<T, P>(objs, aligned as nat).unwrap();
        let start = writer.len();
        let mut k: usize = 0;
        while k < nentries
            invariant
                k <= nentries,
                table@.len() == nentries,
                start == old(writer)@.len(),
                writer@ == old(writer)@ + spec_ptr_entries::<P>(st.slots, k as nat),
                forall|j: int| 0 <= j < nentries ==> #[trigger] table@[j] == (if st.slots.contains_key(j) {
                    st.slots[j]
                } else {
                    0
                }),
                forall|j: int| #[trigger] st.slots.contains_key(j) ==> st.slots[j] <= P::spec_max(),
            decreases nentries - k,
        {
            let v = table[k];
            let p = P::try_from_usize(v).unwrap();
            let ghost before = writer@;
            p.write_as_bytes(writer);
            proof {
                vstd::seq_lib::lemma_concat_associative(old(writer)@, spec_ptr_entries::<P>(st.slots, k as nat), P::spec_encode_value(v as nat));
            }
            k = k + 1;
        }
        proof { lemma_ptr_entries_len::<P>(st.slots, nentries as nat); }
        let ghost w1 = writer@;
        push_repeated(writer, 0xAA, aligned - tlen);
        let ghost w2 = writer@;
        push_bytes(writer, data.as_slice());
        proof {
            let pad = Seq::new((aligned - tlen) as nat, |_i: int| 0xAAu8);
            vstd::seq_lib::lemma_concat_associative(old(writer)@, spec_ptr_entries::<P>(st.slots, nentries as nat), pad);
            vstd::seq_lib::lemma_concat_associative(old(writer)@, spec_ptr_entries::<P>(st.slots, nentries as nat) + pad, data@);
        }
        Ok(writer.len() - start)
    }

    /// Reads the objects that the pointers point to, with pointers of type
    /// `P`, then moves the reader to the end of the chunk.
    pub fn read_from_file<P: Pointer>(&mut self, reader: &mut DataReader) -> (res: Result<(), DSEError>)
        ensures
            final(reader).data@ == old(reader).data@,
            match spec_ptable_read::<T, P>(old(reader).data@, old(reader).pos as int, old(self)._read_n as nat) {
                Ok(items) => res is Ok && final(self)@ == (PointerTableView {
                    read_n: old(self)._read_n,
                    chunk_len: old(self)._chunk_len,
                    objects: old(self)@.objects + items,
                }) && final(reader).pos == spec_sat_add(old(reader).pos as int, old(self)._chunk_len as int),
                Err(e) => res == Err::<(), DSEError>(e),
            },
    {
        proof { P::lemma_pointer_facts(); }
        let bpp = P::pointer_size();
        let start = reader.pos;
        let dlen = reader.data.len();
        let magic_off: usize = if P::use_magic().is_some() { 1 } else { 0 };
        let mut ptr_pos: usize = start.saturating_add(magic_off * bpp);
        let n = self._read_n;
        let ghost objs0 = self@.objects;
        let mut i: usize = 0;
        while i < n
            invariant
                i <= n,
                n == self._read_n,
                n == old(self)._read_n,
                self._chunk_len == old(self)._chunk_len,
                bpp == P::spec_size(),
                bpp >= 2,
                dlen == reader.data@.len(),
                reader.data@ == old(reader).data@,
                start == old(reader).pos,
                objs0 == old(self)@.objects,
                magic_off == (if P::spec_magic() is Some { 1usize } else { 0usize }),
                ptr_pos == spec_sat_add(start as int, (i + magic_off) * bpp),
                spec_ptable_read::<T, P>(reader.data@, start as int, i as nat) is Ok,
                self@.objects == objs0 + spec_ptable_read::<T, P>(reader.data@, start as int, i as nat).unwrap(),
            decreases n - i,
        {
            if ptr_pos > dlen || dlen - ptr_pos < bpp {
                proof { lemma_ptable_read_err::<T, P>(reader.data@, start as int, (i + 1) as nat, n as nat); }
                return Err(DSEError::UnexpectedEof());
            }
            let ghost ppos: int = start + (i + magic_off) * bpp;
            assert(ptr_pos as int == ppos);
            let slot = &reader.data[ptr_pos..ptr_pos + bpp];
            let p = P::read_from_bytes(slot);
            let pv = p.as_usize();
            let ghost items = spec_ptable_read::<T, P>(reader.data@, start as int, i as nat).unwrap();
            proof {
                assert(slot@.subrange(0, bpp as int) =~= reader.data@.subrange(ptr_pos as int, ptr_pos + bpp));
                assert(pv == P::spec_value_of(reader.data@.subrange(ppos, ppos + P::spec_size())));
                assert(((i + 1) as nat - 1 + (if P::spec_magic() is Some { 1int } else { 0int })) * P::spec_size() == (i + magic_off) * bpp);
            }
            if pv != 0 {
                reader.pos = start.saturating_add(pv);
                let mut object = T::fresh();
                match object.read_from_file(reader) {
                    Ok(()) => {},
                    Err(e) => {
                        proof { lemma_ptable_read_err::<T, P>(reader.data@, start as int, (i + 1) as nat, n as nat); }
                        return Err(e);
                    },
                }
                let ghost prev = self.objects@;
                self.objects.push(object);
                proof {
                    assert(self.objects@.map_values(|t: T| t@) =~= prev.map_values(|t: T| t@).push(object@));
                    assert(spec_ptable_read::<T, P>(reader.data@, start as int, (i + 1) as nat) == Ok::<Seq<T::V>, DSEError>(items.push(object@)));
                }
            } else {
                assert(spec_ptable_read::<T, P>(reader.data@, start as int, (i + 1) as nat) == Ok::<Seq<T::V>, DSEError>(items));
            }
            proof {
                assert((i + 1 + magic_off) * bpp == (i + magic_off) * bpp + bpp) by (nonlinear_arith);
            }
            ptr_pos = ptr_pos + bpp;
            i = i + 1;
        }
        reader.pos = start.saturating_add(self._chunk_len as usize);
        Ok(())
    }
}

/// Whether the four bytes at `pos` are `label`, or the error of reading
/// them when fewer than four remain.
pub open spec fn spec_peek_is(data: Seq<u8>, pos: int, label: Seq<u8>) -> Result<bool, DSEError> {
    if 0 <= pos && pos + 4 <= data.len() {
        Ok(data.subrange(pos, pos + 4) == label)
    } else {
        Err(DSEError::UnexpectedEof())
    }
}

/// Looks at the next four bytes without moving the reader.
pub fn peek_is(reader: &DataReader, label: [u8; 4]) -> (r: Result<bool, DSEError>)
    ensures
        r == spec_peek_is(reader.data@, reader.pos as int, label@),
{
    let d = reader.data;
    let p = reader.pos;
    if p > d.len() || d.len() - p < 4 {
        return Err(DSEError::UnexpectedEof());
    }
    let same = d[p] == label[0] && d[p + 1] == label[1] && d[p + 2] == label[2] && d[p + 3] == label[3];
    proof {
        let w = d@.subrange(p as int, p + 4);
        if same {
            assert(w =~= label@);
        } else if w == label@ {
            assert(w[0] == d@[p as int] && w[1] == d@[p + 1] && w[2] == d@[p + 2] && w[3] == d@[p + 3]);
        }
    }
    Ok(same)
}

} // verus!
