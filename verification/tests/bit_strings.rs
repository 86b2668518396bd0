use number_viewer::bits::{float_bits, integer_bits, BitCell};
use number_viewer::value::Binary64;

fn drawn(cells: &[BitCell]) -> String {
    cells
        .iter()
        .map(|cell| match cell {
            BitCell::One => '1',
            BitCell::Zero => '0',
            BitCell::Gap => ' ',
            BitCell::FieldBreak => '|',
        })
        .collect()
}

fn grouped(bits: u32) -> String {
    let plain = format!("{:032b}", bits);
    let mut out = String::new();
    for (i, c) in plain.chars().enumerate() {
        if i > 0 && i % 4 == 0 {
            out.push(' ');
        }
        out.push(c);
    }
    out
}

#[test]
fn bits_of_minus_ten_are_those_of_the_32_bit_pattern() {
    let cells = integer_bits(-10);
    assert_eq!(drawn(&cells), "1111 1111 1111 1111 1111 1111 1111 0110");
    let bits: Vec<bool> = cells
        .iter()
        .filter(|cell| **cell != BitCell::Gap)
        .map(|cell| *cell == BitCell::One)
        .collect();
    assert_eq!(bits.len(), 32);
    let pattern = (-10i32) as u32;
    for (i, bit) in bits.iter().enumerate() {
        assert_eq!(*bit, (pattern >> (31 - i)) & 1 == 1, "bit {}", 31 - i);
    }
}

#[test]
fn integer_bits_are_the_low_32_bits_in_groups_of_four() {
    for n in [0i64, 1, -1, 10, 1337, i64::MAX, i64::MIN, 0x1_2345_6789, -0x1_2345_6789, 1 << 31, 1 << 32] {
        let cells = integer_bits(n);
        assert_eq!(cells.len(), 39);
        assert_eq!(drawn(&cells), grouped(n as u32), "n = {}", n);
    }
    assert_eq!(drawn(&integer_bits(1 << 32)), grouped(0));
}

#[test]
fn float_bits_set_the_fields_apart() {
    let one = float_bits(Binary64 { bits: 1.0f64.to_bits() });
    assert_eq!(
        drawn(&one),
        "0|011 1111 1111|0000 0000 0000 0000 0000 0000 0000 0000 0000 0000 0000 0000 0000"
    );
    let value = float_bits(Binary64 { bits: (-5e-324f64).to_bits() });
    assert_eq!(
        drawn(&value),
        "1|000 0000 0000|0000 0000 0000 0000 0000 0000 0000 0000 0000 0000 0000 0000 0001"
    );
    assert_eq!(one.len(), 64 + 2 + 14);
    assert_eq!(one.iter().filter(|cell| **cell == BitCell::FieldBreak).count(), 2);
    assert_eq!(one[1], BitCell::FieldBreak);
}

#[test]
fn float_bits_are_all_64_bits_in_order() {
    for bits in [0u64, u64::MAX, 0x0123_4567_89ab_cdef, 0x8000_0000_0000_0001, 0x7ff0_0000_0000_0000] {
        let cells = float_bits(Binary64 { bits });
        let plain: String = drawn(&cells).chars().filter(|c| *c == '0' || *c == '1').collect();
        assert_eq!(plain, format!("{:064b}", bits));
    }
}
