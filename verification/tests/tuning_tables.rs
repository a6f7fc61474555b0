use dse::codec::{get_i16, get_i32, get_u16, get_u32, get_u32_be, push_i16, push_i16_be, push_i32, push_u16, push_u16_be, push_u32, push_u32_be};
use dse::swdl::{lookup_env_time_value_i16, lookup_env_time_value_i32, msec_to_index, ADSRVolumeEnvelope, Tuning};
use dse::dtype::ReadWrite;

fn float_from_cents(cents: i64) -> (u8, i8) {
    // the conversion as floating-point arithmetic writes it
    if cents == 0 {
        return (0, 0);
    }
    let sign = if cents < 0 { -1 } else { 1 };
    let mut ctune = cents.abs() / 100;
    let mut ftune = cents.abs() % 100;
    ctune *= sign;
    ftune *= sign;
    if ftune < 0 {
        ftune += 100;
        ctune -= 1;
    }
    (((ftune as f64 / 100.0) * 255.0).round() as u8, ctune as i8)
}

fn float_to_cents(ftune: u8, ctune: i8) -> i64 {
    ctune as i64 * 100 + ((ftune as f64 / 255.0) * 100.0).round() as i64
}

#[test]
fn tuning_from_cents_matches_float_formula() {
    for cents in -12800i64..12800 {
        let t = Tuning::from_cents(cents);
        assert_eq!((t.ftune(), t.ctune()), float_from_cents(cents), "cents {}", cents);
    }
}

#[test]
fn tuning_to_cents_matches_float_formula() {
    for ctune in [-128i8, -3, -1, 0, 1, 5, 127] {
        for ftune in 0u8..=255 {
            let t = Tuning::new(ftune, ctune);
            assert_eq!(t.to_cents(), float_to_cents(ftune, ctune));
        }
    }
}

#[test]
fn tuning_examples() {
    let t = Tuning::from_cents(150);
    assert_eq!((t.ftune(), t.ctune()), (128, 1));
    let t = Tuning::from_cents(-150);
    assert_eq!((t.ftune(), t.ctune()), (128, -2));
    assert_eq!(t.to_cents(), -150);
    let t = Tuning::from_cents(0);
    assert_eq!((t.ftune(), t.ctune()), (0, 0));
    let t = Tuning::from_cents(-1);
    assert_eq!((t.ftune(), t.ctune()), (252, -1));
}

#[test]
fn tuning_cents_roundtrip() {
    for cents in -12800i64..12800 {
        assert_eq!(Tuning::from_cents(cents).to_cents(), cents);
    }
}

#[test]
fn tuning_add_cents_and_semitones() {
    let mut t = Tuning::from_cents(250);
    t.add_cents(-300);
    assert_eq!(t.to_cents(), -50);
    assert_eq!((t.ftune(), t.ctune()), (128, -1));
    t.add_semitones(2);
    assert_eq!(t.to_cents(), 150);
    assert_eq!((t.ftune(), t.ctune()), (128, 1));
}

#[test]
fn envelope_default2() {
    let e = ADSRVolumeEnvelope::default2();
    assert_eq!(e.envon, true);
    assert_eq!(e.envmult, 1);
    assert_eq!(e.atkvol, 0);
    assert_eq!(e.attack, 0);
    assert_eq!(e.decay, 0);
    assert_eq!(e.sustain, 127);
    assert_eq!(e.hold, 0);
    assert_eq!(e.decay2, 127);
    assert_eq!(e.release, 40);
}

#[test]
fn lookup_i16_examples() {
    assert_eq!(lookup_env_time_value_i16(0), 0);
    assert_eq!(lookup_env_time_value_i16(-5), 0);
    assert_eq!(lookup_env_time_value_i16(0x1F), 31);
    assert_eq!(lookup_env_time_value_i16(0x20), 32);
    // between 0x20 (32) and 0x23 (33): nearer to 0x20
    assert_eq!(lookup_env_time_value_i16(0x21), 32);
    // as near to both: the later one
    assert_eq!(lookup_env_time_value_i16(0x22), 33);
    assert_eq!(lookup_env_time_value_i16(0x7FFF), 127);
}

#[test]
fn lookup_i32_examples() {
    assert_eq!(lookup_env_time_value_i32(0), 0);
    assert_eq!(lookup_env_time_value_i32(-1), 0);
    assert_eq!(lookup_env_time_value_i32(4), 1);
    assert_eq!(lookup_env_time_value_i32(5), 1);
    assert_eq!(lookup_env_time_value_i32(6), 2);
    assert_eq!(lookup_env_time_value_i32(i32::MAX), 127);
}

#[test]
fn msec_to_index_examples() {
    assert_eq!(msec_to_index(0x21), (1, 32));
    assert_eq!(msec_to_index(0x7FFF), (1, 127));
    assert_eq!(msec_to_index(0x8000), (0, lookup_env_time_value_i32(0x8000)));
}

#[test]
fn byte_helpers_roundtrip() {
    let mut out = Vec::new();
    push_u16(&mut out, 0x1234);
    push_u32(&mut out, 0x89AB_CDEF);
    push_i16(&mut out, -2);
    push_i32(&mut out, -70000);
    push_u16_be(&mut out, 0x1234);
    push_i16_be(&mut out, -2);
    push_u32_be(&mut out, 0x0102_0304);
    assert_eq!(
        out,
        vec![0x34, 0x12, 0xEF, 0xCD, 0xAB, 0x89, 0xFE, 0xFF, 0x90, 0xEE, 0xFE, 0xFF, 0x12, 0x34, 0xFF, 0xFE, 1, 2, 3, 4]
    );
    assert_eq!(get_u16(&out, 0), 0x1234);
    assert_eq!(get_u32(&out, 2), 0x89AB_CDEF);
    assert_eq!(get_i16(&out, 6), -2);
    assert_eq!(get_i32(&out, 8), -70000);
    assert_eq!(get_u32_be(&out, 16), 0x0102_0304);
}

#[test]
fn default_envelope_writes_its_fields_in_order() {
    let env = ADSRVolumeEnvelope::default();
    let mut w = Vec::new();
    assert_eq!(env.write_to_file(&mut w).unwrap(), 16);
    assert_eq!(w, vec![0x00, 0x00, 0x01, 0x03, 0x03, 0xFF, 0xFF, 0xFF, 0x00, 0x00, 0x00, 0x00, 0x00, 0x00, 0x00, 0xFF]);
}
