use number_viewer::literal::parse_number;
use number_viewer::meter::meter_index;
use number_viewer::text::{binary_text, decimal_text, hex_text, octal_text};
use number_viewer::value::DomainValue;

fn integer(raw: &str) -> i64 {
    match parse_number(raw, None) {
        Ok(DomainValue::Integer(n)) => n,
        other => panic!("{:?} is no integer: {:?}", raw, other),
    }
}

#[test]
fn prefixed_literal_is_written_back_without_leading_zeros() {
    assert_eq!(binary_text(integer("0b1010")), "1010");
    assert_eq!(binary_text(integer("0b0001010")), "1010");
    assert_eq!(octal_text(integer("0o52")), "52");
    assert_eq!(octal_text(integer("0o00052")), "52");
    assert_eq!(hex_text(integer("0x2a")), "2a");
    assert_eq!(hex_text(integer("0x00_2a")), "2a");
    assert_eq!(hex_text(integer("0x0")), "0");
    assert_eq!(hex_text(integer("0x000")), "0");
    assert_eq!(binary_text(integer("0b0")), "0");
    assert_eq!(hex_text(integer("0x7fffffffffffffff")), "7fffffffffffffff");
    assert_eq!(
        binary_text(integer("0b111111111111111111111111111111111111111111111111111111111111111")),
        "111111111111111111111111111111111111111111111111111111111111111"
    );
    assert_eq!(octal_text(integer("0o777777777777777777777")), "777777777777777777777");
}

#[test]
fn written_integer_is_read_back() {
    let mut state: u64 = 0x0123_4567_89ab_cdef;
    let mut samples = vec![0i64, 1, -1, 10, -10, 1337, i64::MAX, i64::MIN, i64::MIN + 1];
    for _ in 0..500 {
        state = state.wrapping_mul(6364136223846793005).wrapping_add(1442695040888963407);
        samples.push((state as i64) >> (state % 64));
    }
    for n in samples {
        assert_eq!(integer(&decimal_text(n)), n);
        if n >= 0 {
            assert_eq!(integer(&format!("0x{}", hex_text(n))), n);
            assert_eq!(integer(&format!("0o{}", octal_text(n))), n);
            assert_eq!(integer(&format!("0b{}", binary_text(n))), n);
        }
    }
}

#[test]
fn larger_integer_never_stands_on_an_earlier_cell() {
    let mut samples: Vec<i64> = vec![i64::MIN, -1, 0, 1, i64::MAX];
    let mut state: u64 = 0xfeed_face_cafe_beef;
    for _ in 0..20_000 {
        state = state.wrapping_mul(6364136223846793005).wrapping_add(1442695040888963407);
        samples.push(state as i64);
    }
    samples.sort();
    let mut last = 0usize;
    for n in samples {
        let cell = meter_index(n);
        assert!(cell >= last && cell <= 48, "n = {}", n);
        last = cell;
    }
}
