use number_viewer::meter::{meter, meter_index, meter_track, round_53, MeterCell};

fn by_floats(n: i64) -> usize {
    let ratio = (n as f64) / (i64::MAX as f64);
    let pos = (((ratio + 1.0) / 2.0) * 48.0).clamp(0.0, 48.0);
    pos.round() as usize
}

#[test]
fn zero_stands_on_the_zero_cell() {
    assert_eq!(meter_index(0), 24);
}

#[test]
fn largest_integer_stands_on_the_last_cell() {
    assert_eq!(meter_index(i64::MAX), 48);
}

#[test]
fn smallest_integer_stands_on_the_first_cell() {
    assert_eq!(meter_index(i64::MIN), 0);
    assert_eq!(meter_index(i64::MIN + 1), 0);
}

#[test]
fn rounding_to_53_bits() {
    assert_eq!(round_53(0), 0);
    assert_eq!(round_53((1 << 53) - 1), (1 << 53) - 1);
    assert_eq!(round_53(1 << 53), 1 << 53);
    // a tie goes to the even neighbour
    assert_eq!(round_53((1 << 53) + 1), 1 << 53);
    assert_eq!(round_53((1 << 53) + 3), (1 << 53) + 4);
    assert_eq!(round_53((1 << 54) + 2), 1 << 54);
    assert_eq!(round_53((1 << 54) + 3), (1 << 54) + 4);
    assert_eq!(round_53((1 << 54) + 6), (1 << 54) + 8);
    assert_eq!(round_53(u64::MAX as u128), 1u128 << 64);
    assert_eq!(round_53(i64::MAX as u128), 1u128 << 63);
    for x in [1u64 << 60, (1 << 60) + 127, (1 << 60) + 128, (1 << 60) + 129, (1 << 60) + 384, u64::MAX - 1024, u64::MAX - 1023] {
        assert_eq!(round_53(x as u128), (x as f64) as u128, "x = {}", x);
    }
}

#[test]
fn index_is_what_binary64_arithmetic_gives_near_every_boundary() {
    for k in 0..48u128 {
        // the position k + 1/2 is at n = (2k + 1) * 2^64 / 96 - 2^63
        let middle = (((2 * k + 1) << 64) / 96) as i128 - (1i128 << 63);
        for offset in -3000i128..=3000 {
            let n = middle + offset;
            if n >= i64::MIN as i128 && n <= i64::MAX as i128 {
                assert_eq!(meter_index(n as i64), by_floats(n as i64), "n = {}", n);
            }
        }
    }
}

#[test]
fn index_is_what_binary64_arithmetic_gives_across_the_range() {
    let mut state: u64 = 0x9e37_79b9_7f4a_7c15;
    for _ in 0..200_000 {
        state = state.wrapping_mul(6364136223846793005).wrapping_add(1442695040888963407);
        let n = state as i64;
        assert_eq!(meter_index(n), by_floats(n), "n = {}", n);
        let small = n >> (state % 64);
        assert_eq!(meter_index(small), by_floats(small), "n = {}", small);
    }
    for n in -5000i64..=5000 {
        assert_eq!(meter_index(n), by_floats(n));
        assert_eq!(meter_index(i64::MAX - (n + 5000)), by_floats(i64::MAX - (n + 5000)));
        assert_eq!(meter_index(i64::MIN + (n + 5000)), by_floats(i64::MIN + (n + 5000)));
    }
}

#[test]
fn track_has_edges_zero_mark_and_pointer() {
    let cells = meter_track(3);
    assert_eq!(cells.len(), 51);
    assert_eq!(cells[0], MeterCell::Edge);
    assert_eq!(cells[50], MeterCell::Edge);
    for i in 0..=48usize {
        let expected = if i == 3 {
            MeterCell::Pointer
        } else if i == 24 {
            MeterCell::ZeroMark
        } else {
            MeterCell::Track
        };
        assert_eq!(cells[i + 1], expected, "cell {}", i);
    }
}

#[test]
fn pointer_covers_the_zero_mark() {
    let cells = meter(0);
    assert_eq!(cells[25], MeterCell::Pointer);
    assert!(!cells.contains(&MeterCell::ZeroMark));
}

#[test]
fn pointer_beyond_the_track_is_not_drawn() {
    let cells = meter_track(49);
    assert_eq!(cells.len(), 51);
    assert!(!cells.contains(&MeterCell::Pointer));
    assert_eq!(cells[25], MeterCell::ZeroMark);
}
