//! Pitch tuning in cents, the default volume envelope of the game's banks,
//! and the tables that turn envelope durations into indices.
use vstd::prelude::*;
use super::{ADSRVolumeEnvelope, Tuning};

verus! {

/// The tuning of `cents` cents: the coarse tune is the number of whole
/// semitones rounded down, the fine tune the remaining cents scaled to
/// 0..=255 and rounded to the nearest step (half steps away from zero). The
/// coarse tune keeps the low 8 bits of its value.
pub open spec fn spec_from_cents(cents: int) -> Tuning {
    let f = cents % 100;
    Tuning { ftune: ((f * 255 + 50) / 100) as u8, ctune: (cents / 100) as i8 }
}

/// The cents of a tuning: 100 per semitone plus the fine tune scaled back to
/// 0..=100 and rounded to the nearest cent.
pub open spec fn spec_to_cents(t: Tuning) -> int {
    t.ctune * 100 + (200 * t.ftune + 255) / 510
}

/// The tuning of `cents` cents (within the coarse tune's range) has the
/// whole semitones at or below `cents` as coarse tune, and as fine tune the
/// step of 1/255 semitone nearest to the remaining cents.
pub proof fn lemma_from_cents_nearest(cents: int)
    requires
        -12800 <= cents < 12800,
    ensures
        100 * spec_from_cents(cents).ctune <= cents < 100 * spec_from_cents(cents).ctune + 100,
        -50 <= spec_from_cents(cents).ftune * 100 - (cents - 100 * spec_from_cents(cents).ctune) * 255 <= 50,
{
    let q = cents / 100;
    let f = cents % 100;
    assert(cents == 100 * q + f && 0 <= f < 100) by {
        vstd::arithmetic::div_mod::lemma_fundamental_div_mod(cents, 100);
    }
    assert(-128 <= q < 128);
    assert(spec_from_cents(cents).ctune == q);
    let t = (f * 255 + 50) / 100;
    assert(t * 100 <= f * 255 + 50 < t * 100 + 100) by {
        vstd::arithmetic::div_mod::lemma_fundamental_div_mod(f * 255 + 50, 100);
    }
    assert(0 <= t <= 255);
    assert(spec_from_cents(cents).ftune == t);
}

/// The cents of a tuning are 100 per semitone of its coarse tune plus the
/// whole cents nearest to its fine tune's share of a semitone.
pub proof fn lemma_to_cents_nearest(t: Tuning)
    ensures
        -255 <= (spec_to_cents(t) - 100 * t.ctune) * 510 - 200 * t.ftune <= 255,
        0 <= spec_to_cents(t) - 100 * t.ctune <= 100,
{
    let x = 200 * t.ftune + 255;
    let c = x / 510;
    assert(c * 510 <= x < c * 510 + 510) by {
        vstd::arithmetic::div_mod::lemma_fundamental_div_mod(x, 510);
    }
    assert(spec_to_cents(t) - 100 * t.ctune == c);
}

impl Tuning {
    pub fn new(ftune: u8, ctune: i8) -> (r: Tuning)
        ensures
            r == (Tuning { ftune, ctune }),
    {
        Tuning { ftune, ctune }
    }

    /// The tuning closest to `cents` cents.
    pub fn from_cents(cents: i64) -> (r: Tuning)
        requires
            cents != i64::MIN,
        ensures
            r == spec_from_cents(cents as int),
    {
        if cents == 0 {
            return Tuning::new(0, 0);
        }
        let a: u64 = if cents < 0 { (-cents) as u64 } else { cents as u64 };
        let q: u64 = a / 100;
        let f: u64 = a % 100;
        let (ctune, ftune): (i64, u64) = if cents > 0 || f == 0 {
            if cents > 0 { (q as i64, f) } else { (-(q as i64), 0) }
        } else {
            (-(q as i64) - 1, 100 - f)
        };
        proof {
            assert(a == 100 * q + f);
            assert(cents == 100 * ctune + ftune);
            assert(0 <= ftune < 100);
            assert(ctune == (cents as int) / 100 && ftune == (cents as int) % 100) by {
                vstd::arithmetic::div_mod::lemma_fundamental_div_mod_converse(cents as int, 100, ctune as int, ftune as int);
            }
        }
        let fine: u64 = (ftune * 255 + 50) / 100;
        Tuning::new(fine as u8, ctune as i8)
    }

    pub fn ftune(&self) -> (r: u8)
        ensures
            r == self.ftune,
    {
        self.ftune
    }

    pub fn ctune(&self) -> (r: i8)
        ensures
            r == self.ctune,
    {
        self.ctune
    }

    /// The tuning in cents.
    pub fn to_cents(&self) -> (r: i64)
        ensures
            r == spec_to_cents(*self),
    {
        self.ctune as i64 * 100 + (200 * self.ftune as i64 + 255) / 510
    }

    /// Moves the tuning by `semitones` semitones.
    pub fn add_semitones(&mut self, semitones: i64)
        requires
            i64::MIN < semitones * 100 <= i64::MAX,
            i64::MIN < spec_to_cents(*old(self)) + semitones * 100 <= i64::MAX,
        ensures
            *final(self) == spec_from_cents(spec_to_cents(*old(self)) + semitones * 100),
    {
        self.add_cents(semitones * 100);
    }

    /// Moves the tuning by `cents` cents.
    pub fn add_cents(&mut self, cents: i64)
        requires
            i64::MIN < spec_to_cents(*old(self)) + cents <= i64::MAX,
        ensures
            *final(self) == spec_from_cents(spec_to_cents(*old(self)) + cents),
    {
        *self = Self::from_cents(self.to_cents() + cents);
    }
}

/// Cents of a coarse tune between -128 and 127 semitones survive the trip
/// through a tuning.
pub proof fn lemma_cents_roundtrip(cents: int)
    requires
        -12800 <= cents < 12800,
    ensures
        spec_to_cents(spec_from_cents(cents)) == cents,
{
    let f = cents % 100;
    let q = cents / 100;
    let t = (f * 255 + 50) / 100;
    assert(cents == 100 * q + f && 0 <= f < 100);
    assert(-128 <= q < 128);
    assert(100 * t <= f * 255 + 50 < 100 * t + 100);
    assert(0 <= t <= 252);
    let g = (200 * t + 255) / 510;
    assert(510 * g <= 200 * t + 255 < 510 * g + 510);
    assert(g == f);
    assert(spec_from_cents(cents).ctune == q);
    assert(spec_from_cents(cents).ftune == t);
}

impl ADSRVolumeEnvelope {
    /// The envelope that the samples of the game's banks use: on, multiplier
    /// 1, full sustain, slowest fade, release 40.
    pub open spec fn spec_default2() -> ADSRVolumeEnvelope {
        ADSRVolumeEnvelope {
            envon: true,
            envmult: 1,
            atkvol: 0,
            attack: 0,
            decay: 0,
            sustain: 127,
            hold: 0,
            decay2: 127,
            release: 40,
            ..ADSRVolumeEnvelope::spec_default()
        }
    }

    pub fn default2() -> (r: ADSRVolumeEnvelope)
        ensures
            r == ADSRVolumeEnvelope::spec_default2(),
    {
        let mut default = Self::default();
        default.envon = true;
        default.envmult = 1;
        default.atkvol = 0;
        default.attack = 0;
        default.decay = 0;
        default.sustain = 127;
        default.hold = 0;
        default.decay2 = 127;
        default.release = 40;
        default
    }
}

/// Envelope durations in milliseconds of the 16-bit table, by index.
pub const LOOKUP_TABLE_20_B0_F50: [i16; 128] = [
    0x0000i16, 0x0001i16, 0x0002i16, 0x0003i16, 0x0004i16, 0x0005i16, 0x0006i16, 0x0007i16,
    0x0008i16, 0x0009i16, 0x000Ai16, 0x000Bi16, 0x000Ci16, 0x000Di16, 0x000Ei16, 0x000Fi16,
    0x0010i16, 0x0011i16, 0x0012i16, 0x0013i16, 0x0014i16, 0x0015i16, 0x0016i16, 0x0017i16,
    0x0018i16, 0x0019i16, 0x001Ai16, 0x001Bi16, 0x001Ci16, 0x001Di16, 0x001Ei16, 0x001Fi16,
    0x0020i16, 0x0023i16, 0x0028i16, 0x002Di16, 0x0033i16, 0x0039i16, 0x0040i16, 0x0048i16,
    0x0050i16, 0x0058i16, 0x0062i16, 0x006Di16, 0x0078i16, 0x0083i16, 0x0090i16, 0x009Ei16,
    0x00ACi16, 0x00BCi16, 0x00CCi16, 0x00DEi16, 0x00F0i16, 0x0104i16, 0x0119i16, 0x012Fi16,
    0x0147i16, 0x0160i16, 0x017Ai16, 0x0196i16, 0x01B3i16, 0x01D2i16, 0x01F2i16, 0x0214i16,
    0x0238i16, 0x025Ei16, 0x0285i16, 0x02AEi16, 0x02D9i16, 0x0307i16, 0x0336i16, 0x0367i16,
    0x039Bi16, 0x03D1i16, 0x0406i16, 0x0442i16, 0x047Ei16, 0x04C4i16, 0x0500i16, 0x0546i16,
    0x058Ci16, 0x0622i16, 0x0672i16, 0x06CCi16, 0x071Ci16, 0x0776i16, 0x07DAi16, 0x0834i16,
    0x0898i16, 0x0906i16, 0x096Ai16, 0x09D8i16, 0x0A50i16, 0x0ABEi16, 0x0B40i16, 0x0BB8i16,
    0x0C3Ai16, 0x0CBCi16, 0x0D48i16, 0x0DDEi16, 0x0E6Ai16, 0x0F00i16, 0x0FA0i16, 0x1040i16,
    0x10EAi16, 0x1194i16, 0x123Ei16, 0x12F2i16, 0x13B0i16, 0x146Ei16, 0x1536i16, 0x15FEi16,
    0x16D0i16, 0x17A2i16, 0x187Ei16, 0x195Ai16, 0x1A40i16, 0x1B30i16, 0x1C20i16, 0x1D1Ai16,
    0x1E1Ei16, 0x1F22i16, 0x2030i16, 0x2148i16, 0x2260i16, 0x2382i16, 0x2710i16, 0x7FFFi16,
];

/// Envelope durations in milliseconds of the 32-bit table, by index.
pub const LOOKUP_TABLE_20_B1050: [i32; 128] = [
    0x00000000i32, 0x00000004i32, 0x00000007i32, 0x0000000Ai32, 0x0000000Fi32, 0x00000015i32, 0x0000001Ci32, 0x00000024i32,
    0x0000002Ei32, 0x0000003Ai32, 0x00000048i32, 0x00000057i32, 0x00000068i32, 0x0000007Bi32, 0x00000091i32, 0x000000A8i32,
    0x00000185i32, 0x000001BEi32, 0x000001FCi32, 0x0000023Fi32, 0x00000288i32, 0x000002D6i32, 0x0000032Ai32, 0x00000385i32,
    0x000003E5i32, 0x0000044Ci32, 0x000004BAi32, 0x0000052Ei32, 0x000005A9i32, 0x0000062Ci32, 0x000006B5i32, 0x00000746i32,
    0x00000BCFi32, 0x00000CC0i32, 0x00000DBDi32, 0x00000EC6i32, 0x00000FDCi32, 0x000010FFi32, 0x0000122Fi32, 0x0000136Ci32,
    0x000014B6i32, 0x0000160Fi32, 0x00001775i32, 0x000018EAi32, 0x00001A6Di32, 0x00001BFFi32, 0x00001DA0i32, 0x00001F51i32,
    0x00002C16i32, 0x00002E80i32, 0x00003100i32, 0x00003395i32, 0x00003641i32, 0x00003902i32, 0x00003BDBi32, 0x00003ECAi32,
    0x000041D0i32, 0x000044EEi32, 0x00004824i32, 0x00004B73i32, 0x00004ED9i32, 0x00005259i32, 0x000055F2i32, 0x000059A4i32,
    0x000074CCi32, 0x000079ABi32, 0x00007EACi32, 0x000083CEi32, 0x00008911i32, 0x00008E77i32, 0x000093FFi32, 0x000099AAi32,
    0x00009F78i32, 0x0000A56Ai32, 0x0000AB80i32, 0x0000B1BBi32, 0x0000B81Ai32, 0x0000BE9Ei32, 0x0000C547i32, 0x0000CC17i32,
    0x0000FD42i32, 0x000105CBi32, 0x00010E82i32, 0x00011768i32, 0x0001207Ei32, 0x000129C4i32, 0x0001333Bi32, 0x00013CE2i32,
    0x000146BBi32, 0x000150C5i32, 0x00015B02i32, 0x00016572i32, 0x00017015i32, 0x00017AEBi32, 0x000185F5i32, 0x00019133i32,
    0x0001E16Di32, 0x0001EF07i32, 0x0001FCE0i32, 0x00020AF7i32, 0x0002194Fi32, 0x000227E6i32, 0x000236BEi32, 0x000245D7i32,
    0x00025532i32, 0x000264CFi32, 0x000274AEi32, 0x000284D0i32, 0x00029536i32, 0x0002A5E0i32, 0x0002B6CEi32, 0x0002C802i32,
    0x000341B0i32, 0x000355F8i32, 0x00036A90i32, 0x00037F79i32, 0x000394B4i32, 0x0003AA41i32, 0x0003C021i32, 0x0003D654i32,
    0x0003ECDAi32, 0x000403B5i32, 0x00041AE5i32, 0x0004326Ai32, 0x00044A45i32, 0x00046277i32, 0x00047B00i32, 0x7FFFFFFFi32,
];

/// The first index from `i` on whose entry is at least `x`, or the length.
pub open spec fn spec_first_at_least(t: Seq<int>, x: int, i: nat) -> int
    decreases t.len() - i,
{
    if i >= t.len() {
        t.len() as int
    } else if t[i as int] >= x {
        i as int
    } else {
        spec_first_at_least(t, x, i + 1)
    }
}

/// The index of the entry of the ascending table `t` nearest to `x`: the
/// index of `x` itself when the table holds it, 0 below the first entry, 127
/// above the last, and between two entries the closer one (the upper one on
/// a tie).
pub open spec fn spec_nearest_index(t: Seq<int>, x: int) -> int {
    let k = spec_first_at_least(t, x, 0);
    if k < t.len() && t[k] == x {
        k
    } else if k == 0 {
        0
    } else if k == t.len() {
        127
    } else if t[k] - x > x - t[k - 1] {
        k - 1
    } else {
        k
    }
}

/// How far `a` is from `x`.
pub open spec fn spec_dist(a: int, x: int) -> int {
    if a >= x {
        a - x
    } else {
        x - a
    }
}

proof fn lemma_first_at_least(t: Seq<int>, x: int, i: nat)
    requires
        i <= t.len(),
    ensures
        i <= spec_first_at_least(t, x, i) <= t.len(),
        forall|j: int| i <= j < spec_first_at_least(t, x, i) ==> t[j] < x,
        spec_first_at_least(t, x, i) < t.len() ==> t[spec_first_at_least(t, x, i)] >= x,
    decreases t.len() - i,
{
    if i < t.len() && t[i as int] < x {
        lemma_first_at_least(t, x, i + 1);
    }
}

/// In a strictly ascending table of 128 durations, the index that the
/// lookups give is that of an entry nearest to the duration looked up, and
/// of the last such entry: every entry after it is farther.
pub proof fn lemma_nearest_index(t: Seq<int>, x: int)
    requires
        t.len() == 128,
        forall|a: int, b: int| 0 <= a < b < 128 ==> t[a] < t[b],
    ensures
        0 <= spec_nearest_index(t, x) < 128,
        forall|i: int| 0 <= i < 128 ==> spec_dist(t[spec_nearest_index(t, x)], x) <= spec_dist(#[trigger] t[i], x),
        forall|i: int| spec_nearest_index(t, x) < i < 128 ==> spec_dist(t[spec_nearest_index(t, x)], x) < spec_dist(#[trigger] t[i], x),
{
    lemma_first_at_least(t, x, 0);
    let k = spec_first_at_least(t, x, 0);
    let r = spec_nearest_index(t, x);
    assert forall|i: int| 0 <= i < 128 implies spec_dist(t[r], x) <= spec_dist(#[trigger] t[i], x) by {
        if i < k {
            assert(t[i] < x);
        }
        if k < 128 && i > k {
            assert(t[i] > t[k]);
        }
        if 0 < k && i < k - 1 {
            assert(t[i] < t[k - 1]);
        }
    }
    assert forall|i: int| r < i < 128 implies spec_dist(t[r], x) < spec_dist(#[trigger] t[i], x) by {
        if k < 128 && i > k {
            assert(t[i] > t[k]);
        }
        if i < k {
            assert(t[i] < x);
            assert(t[r] < t[i]);
        }
    }
}

/// The 16-bit table as integers.
pub open spec fn spec_table16() -> Seq<int> {
    LOOKUP_TABLE_20_B0_F50@.map_values(|v: i16| v as int)
}

/// The 32-bit table as integers.
pub open spec fn spec_table32() -> Seq<int> {
    LOOKUP_TABLE_20_B1050@.map_values(|v: i32| v as int)
}

/// The index of the 16-bit table's duration nearest to `msec`.
pub fn lookup_env_time_value_i16(msec: i16) -> (r: i8)
    ensures
        r == spec_nearest_index(spec_table16(), msec as int),
{
    let table = LOOKUP_TABLE_20_B0_F50;
    let ghost t = spec_table16();
    assert(t.len() == 128);
    let mut k: usize = 0;
    while k < 128 && table[k] < msec
        invariant
            k <= 128,
            t == table@.map_values(|v: i16| v as int),
            forall|j: int| 0 <= j < k ==> #[trigger] table@[j] < msec,
            spec_first_at_least(t, msec as int, 0) == spec_first_at_least(t, msec as int, k as nat),
        decreases 128 - k,
    {
        k = k + 1;
    }
    if k < 128 && table[k] == msec {
        return k as i8;
    }
    if k == 0 {
        return 0;
    }
    if k == 128 {
        return 127;
    }
    assert(table[k as int] > msec);
    assert(table[k - 1] < msec);
    if (table[k] as i32 - msec as i32) > (msec as i32 - table[k - 1] as i32) {
        (k - 1) as i8
    } else {
        k as i8
    }
}

/// The index of the 32-bit table's duration nearest to `msec`.
pub fn lookup_env_time_value_i32(msec: i32) -> (r: i8)
    ensures
        r == spec_nearest_index(spec_table32(), msec as int),
{
    let table = LOOKUP_TABLE_20_B1050;
    let ghost t = spec_table32();
    assert(t.len() == 128);
    let mut k: usize = 0;
    while k < 128 && table[k] < msec
        invariant
            k <= 128,
            t == table@.map_values(|v: i32| v as int),
            forall|j: int| 0 <= j < k ==> #[trigger] table@[j] < msec,
            spec_first_at_least(t, msec as int, 0) == spec_first_at_least(t, msec as int, k as nat),
        decreases 128 - k,
    {
        k = k + 1;
    }
    if k < 128 && table[k] == msec {
        return k as i8;
    }
    if k == 0 {
        return 0;
    }
    if k == 128 {
        return 127;
    }
    assert(table[k as int] > msec);
    assert(table[k - 1] < msec);
    if (table[k] as i64 - msec as i64) > (msec as i64 - table[k - 1] as i64) {
        (k - 1) as i8
    } else {
        k as i8
    }
}

/// The envelope duration index of `msec` milliseconds: with the 16-bit
/// table (and 1 as the envelope multiplier) up to 0x7FFF ms, else with the
/// 32-bit table (and multiplier 0). The 16-bit lookup takes the low 16 bits
/// of `msec`.
pub fn msec_to_index(msec: i32) -> (r: (u8, i8))
    ensures
        msec <= 0x7FFF ==> r == (1u8, spec_nearest_index(spec_table16(), (msec as i16) as int) as i8),
        msec > 0x7FFF ==> r == (0u8, spec_nearest_index(spec_table32(), msec as int) as i8),
{
    if msec <= 0x7FFF {
        (1, lookup_env_time_value_i16(msec as i16))
    } else {
        (0, lookup_env_time_value_i32(msec))
    }
}

/// An entry below the next one, all along, makes the whole table rise.
proof fn lemma_rise(t: Seq<int>, a: int, b: int)
    requires
        forall|i: int| 0 <= i < t.len() - 1 ==> #[trigger] t[i] < t[i + 1],
        0 <= a < b < t.len(),
    ensures
        t[a] < t[b],
    decreases b - a,
{
    if b > a + 1 {
        lemma_rise(t, a, b - 1);
        assert(t[b - 1] < t[b]);
    }
}

/// The durations of the 16-bit table rise strictly.
pub proof fn lemma_table16_ascending()
    ensures
        spec_table16().len() == 128,
        forall|a: int, b: int| 0 <= a < b < 128 ==> spec_table16()[a] < spec_table16()[b],
{
    let t = spec_table16();
    assert(t.len() == 128);
    assert(t[0] < t[1]);
    assert(t[1] < t[2]);
    assert(t[2] < t[3]);
    assert(t[3] < t[4]);
    assert(t[4] < t[5]);
    assert(t[5] < t[6]);
    assert(t[6] < t[7]);
    assert(t[7] < t[8]);
    assert(t[8] < t[9]);
    assert(t[9] < t[10]);
    assert(t[10] < t[11]);
    assert(t[11] < t[12]);
    assert(t[12] < t[13]);
    assert(t[13] < t[14]);
    assert(t[14] < t[15]);
    assert(t[15] < t[16]);
    assert(t[16] < t[17]);
    assert(t[17] < t[18]);
    assert(t[18] < t[19]);
    assert(t[19] < t[20]);
    assert(t[20] < t[21]);
    assert(t[21] < t[22]);
    assert(t[22] < t[23]);
    assert(t[23] < t[24]);
    assert(t[24] < t[25]);
    assert(t[25] < t[26]);
    assert(t[26] < t[27]);
    assert(t[27] < t[28]);
    assert(t[28] < t[29]);
    assert(t[29] < t[30]);
    assert(t[30] < t[31]);
    assert(t[31] < t[32]);
    assert(t[32] < t[33]);
    assert(t[33] < t[34]);
    assert(t[34] < t[35]);
    assert(t[35] < t[36]);
    assert(t[36] < t[37]);
    assert(t[37] < t[38]);
    assert(t[38] < t[39]);
    assert(t[39] < t[40]);
    assert(t[40] < t[41]);
    assert(t[41] < t[42]);
    assert(t[42] < t[43]);
    assert(t[43] < t[44]);
    assert(t[44] < t[45]);
    assert(t[45] < t[46]);
    assert(t[46] < t[47]);
    assert(t[47] < t[48]);
    assert(t[48] < t[49]);
    assert(t[49] < t[50]);
    assert(t[50] < t[51]);
    assert(t[51] < t[52]);
    assert(t[52] < t[53]);
    assert(t[53] < t[54]);
    assert(t[54] < t[55]);
    assert(t[55] < t[56]);
    assert(t[56] < t[57]);
    assert(t[57] < t[58]);
    assert(t[58] < t[59]);
    assert(t[59] < t[60]);
    assert(t[60] < t[61]);
    assert(t[61] < t[62]);
    assert(t[62] < t[63]);
    assert(t[63] < t[64]);
    assert(t[64] < t[65]);
    assert(t[65] < t[66]);
    assert(t[66] < t[67]);
    assert(t[67] < t[68]);
    assert(t[68] < t[69]);
    assert(t[69] < t[70]);
    assert(t[70] < t[71]);
    assert(t[71] < t[72]);
    assert(t[72] < t[73]);
    assert(t[73] < t[74]);
    assert(t[74] < t[75]);
    assert(t[75] < t[76]);
    assert(t[76] < t[77]);
    assert(t[77] < t[78]);
    assert(t[78] < t[79]);
    assert(t[79] < t[80]);
    assert(t[80] < t[81]);
    assert(t[81] < t[82]);
    assert(t[82] < t[83]);
    assert(t[83] < t[84]);
    assert(t[84] < t[85]);
    assert(t[85] < t[86]);
    assert(t[86] < t[87]);
    assert(t[87] < t[88]);
    assert(t[88] < t[89]);
    assert(t[89] < t[90]);
    assert(t[90] < t[91]);
    assert(t[91] < t[92]);
    assert(t[92] < t[93]);
    assert(t[93] < t[94]);
    assert(t[94] < t[95]);
    assert(t[95] < t[96]);
    assert(t[96] < t[97]);
    assert(t[97] < t[98]);
    assert(t[98] < t[99]);
    assert(t[99] < t[100]);
    assert(t[100] < t[101]);
    assert(t[101] < t[102]);
    assert(t[102] < t[103]);
    assert(t[103] < t[104]);
    assert(t[104] < t[105]);
    assert(t[105] < t[106]);
    assert(t[106] < t[107]);
    assert(t[107] < t[108]);
    assert(t[108] < t[109]);
    assert(t[109] < t[110]);
    assert(t[110] < t[111]);
    assert(t[111] < t[112]);
    assert(t[112] < t[113]);
    assert(t[113] < t[114]);
    assert(t[114] < t[115]);
    assert(t[115] < t[116]);
    assert(t[116] < t[117]);
    assert(t[117] < t[118]);
    assert(t[118] < t[119]);
    assert(t[119] < t[120]);
    assert(t[120] < t[121]);
    assert(t[121] < t[122]);
    assert(t[122] < t[123]);
    assert(t[123] < t[124]);
    assert(t[124] < t[125]);
    assert(t[125] < t[126]);
    assert(t[126] < t[127]);
    assert forall|a: int, b: int| 0 <= a < b < 128 implies t[a] < t[b] by {
        lemma_rise(t, a, b);
    }
}

/// The durations of the 32-bit table rise strictly.
pub proof fn lemma_table32_ascending()
    ensures
        spec_table32().len() == 128,
        forall|a: int, b: int| 0 <= a < b < 128 ==> spec_table32()[a] < spec_table32()[b],
{
    let t = spec_table32();
    assert(t.len() == 128);
    assert(t[0] < t[1]);
    assert(t[1] < t[2]);
    assert(t[2] < t[3]);
    assert(t[3] < t[4]);
    assert(t[4] < t[5]);
    assert(t[5] < t[6]);
    assert(t[6] < t[7]);
    assert(t[7] < t[8]);
    assert(t[8] < t[9]);
    assert(t[9] < t[10]);
    assert(t[10] < t[11]);
    assert(t[11] < t[12]);
    assert(t[12] < t[13]);
    assert(t[13] < t[14]);
    assert(t[14] < t[15]);
    assert(t[15] < t[16]);
    assert(t[16] < t[17]);
    assert(t[17] < t[18]);
    assert(t[18] < t[19]);
    assert(t[19] < t[20]);
    assert(t[20] < t[21]);
    assert(t[21] < t[22]);
    assert(t[22] < t[23]);
    assert(t[23] < t[24]);
    assert(t[24] < t[25]);
    assert(t[25] < t[26]);
    assert(t[26] < t[27]);
    assert(t[27] < t[28]);
    assert(t[28] < t[29]);
    assert(t[29] < t[30]);
    assert(t[30] < t[31]);
    assert(t[31] < t[32]);
    assert(t[32] < t[33]);
    assert(t[33] < t[34]);
    assert(t[34] < t[35]);
    assert(t[35] < t[36]);
    assert(t[36] < t[37]);
    assert(t[37] < t[38]);
    assert(t[38] < t[39]);
    assert(t[39] < t[40]);
    assert(t[40] < t[41]);
    assert(t[41] < t[42]);
    assert(t[42] < t[43]);
    assert(t[43] < t[44]);
    assert(t[44] < t[45]);
    assert(t[45] < t[46]);
    assert(t[46] < t[47]);
    assert(t[47] < t[48]);
    assert(t[48] < t[49]);
    assert(t[49] < t[50]);
    assert(t[50] < t[51]);
    assert(t[51] < t[52]);
    assert(t[52] < t[53]);
    assert(t[53] < t[54]);
    assert(t[54] < t[55]);
    assert(t[55] < t[56]);
    assert(t[56] < t[57]);
    assert(t[57] < t[58]);
    assert(t[58] < t[59]);
    assert(t[59] < t[60]);
    assert(t[60] < t[61]);
    assert(t[61] < t[62]);
    assert(t[62] < t[63]);
    assert(t[63] < t[64]);
    assert(t[64] < t[65]);
    assert(t[65] < t[66]);
    assert(t[66] < t[67]);
    assert(t[67] < t[68]);
    assert(t[68] < t[69]);
    assert(t[69] < t[70]);
    assert(t[70] < t[71]);
    assert(t[71] < t[72]);
    assert(t[72] < t[73]);
    assert(t[73] < t[74]);
    assert(t[74] < t[75]);
    assert(t[75] < t[76]);
    assert(t[76] < t[77]);
    assert(t[77] < t[78]);
    assert(t[78] < t[79]);
    assert(t[79] < t[80]);
    assert(t[80] < t[81]);
    assert(t[81] < t[82]);
    assert(t[82] < t[83]);
    assert(t[83] < t[84]);
    assert(t[84] < t[85]);
    assert(t[85] < t[86]);
    assert(t[86] < t[87]);
    assert(t[87] < t[88]);
    assert(t[88] < t[89]);
    assert(t[89] < t[90]);
    assert(t[90] < t[91]);
    assert(t[91] < t[92]);
    assert(t[92] < t[93]);
    assert(t[93] < t[94]);
    assert(t[94] < t[95]);
    assert(t[95] < t[96]);
    assert(t[96] < t[97]);
    assert(t[97] < t[98]);
    assert(t[98] < t[99]);
    assert(t[99] < t[100]);
    assert(t[100] < t[101]);
    assert(t[101] < t[102]);
    assert(t[102] < t[103]);
    assert(t[103] < t[104]);
    assert(t[104] < t[105]);
    assert(t[105] < t[106]);
    assert(t[106] < t[107]);
    assert(t[107] < t[108]);
    assert(t[108] < t[109]);
    assert(t[109] < t[110]);
    assert(t[110] < t[111]);
    assert(t[111] < t[112]);
    assert(t[112] < t[113]);
    assert(t[113] < t[114]);
    assert(t[114] < t[115]);
    assert(t[115] < t[116]);
    assert(t[116] < t[117]);
    assert(t[117] < t[118]);
    assert(t[118] < t[119]);
    assert(t[119] < t[120]);
    assert(t[120] < t[121]);
    assert(t[121] < t[122]);
    assert(t[122] < t[123]);
    assert(t[123] < t[124]);
    assert(t[124] < t[125]);
    assert(t[125] < t[126]);
    assert(t[126] < t[127]);
    assert forall|a: int, b: int| 0 <= a < b < 128 implies t[a] < t[b] by {
        lemma_rise(t, a, b);
    }
}

/// The 16-bit lookup of `x` gives an entry of the table nearest to `x`, and
/// every later entry is farther: of two entries as near, the later one.
pub proof fn lemma_lookup16_nearest(x: int)
    ensures
        0 <= spec_nearest_index(spec_table16(), x) < 128,
        forall|i: int| 0 <= i < 128 ==> spec_dist(spec_table16()[spec_nearest_index(spec_table16(), x)], x) <= spec_dist(#[trigger] spec_table16()[i], x),
        forall|i: int| spec_nearest_index(spec_table16(), x) < i < 128 ==> spec_dist(spec_table16()[spec_nearest_index(spec_table16(), x)], x) < spec_dist(#[trigger] spec_table16()[i], x),
{
    lemma_table16_ascending();
    lemma_nearest_index(spec_table16(), x);
}

/// The 32-bit lookup of `x` gives an entry of the table nearest to `x`, and
/// every later entry is farther: of two entries as near, the later one.
pub proof fn lemma_lookup32_nearest(x: int)
    ensures
        0 <= spec_nearest_index(spec_table32(), x) < 128,
        forall|i: int| 0 <= i < 128 ==> spec_dist(spec_table32()[spec_nearest_index(spec_table32(), x)], x) <= spec_dist(#[trigger] spec_table32()[i], x),
        forall|i: int| spec_nearest_index(spec_table32(), x) < i < 128 ==> spec_dist(spec_table32()[spec_nearest_index(spec_table32(), x)], x) < spec_dist(#[trigger] spec_table32()[i], x),
{
    lemma_table32_ascending();
    lemma_nearest_index(spec_table32(), x);
}

} // verus!
