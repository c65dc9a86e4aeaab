use qsim::double_slit::slits_to_matrix_size;
use qsim::util::{
    binary_string_to_int, index_to_binary_string, min_bit_size, mod_power, power_of_two,
};

#[test]
fn test_bit_size() {
    assert_eq!(min_bit_size(1), 1);
    assert_eq!(min_bit_size(15), 4);
    assert_eq!(min_bit_size(2), 2);
    assert_eq!(min_bit_size(100), 7);
}

#[test]
fn test_binary_to_int() {
    assert_eq!(binary_string_to_int("101".to_string()), 5);
    assert_eq!(binary_string_to_int("10101".to_string()), 21);
    assert_eq!(binary_string_to_int("00000".to_string()), 0);
    assert_eq!(binary_string_to_int("0001".to_string()), 1);
}

#[test]
fn bit_size_edges() {
    assert_eq!(min_bit_size(0), 0);
    assert_eq!(min_bit_size(3), 2);
    assert_eq!(min_bit_size(4), 3);
    assert_eq!(min_bit_size(u32::MAX), 32);
}

#[test]
fn mod_power_values() {
    assert_eq!(mod_power(2, 4, 15), 1);
    assert_eq!(mod_power(2, 2, 15), 4);
    assert_eq!(mod_power(24, 39, 371), 160);
    assert_eq!(mod_power(7, 0, 5), 1);
    assert_eq!(mod_power(7, 0, 1), 1);
    assert_eq!(mod_power(7, 1, 1), 0);
    assert_eq!(mod_power(4_000_000_000, 2, 4_294_967_291), 3_430_488_118);
}

#[test]
fn binary_to_int_other_characters_count_as_zero() {
    assert_eq!(binary_string_to_int("1x1".to_string()), 5);
    assert_eq!(binary_string_to_int(String::new()), 0);
}

#[test]
fn binary_to_int_drops_digits_above_the_word() {
    let mut s = String::from("1");
    for _ in 0..(usize::BITS as usize) {
        s.push('0');
    }
    assert_eq!(binary_string_to_int(s), 0);
    let mut t = String::from("1");
    for _ in 0..(usize::BITS as usize - 1) {
        t.push('1');
    }
    assert_eq!(binary_string_to_int(t), usize::MAX);
}

#[test]
fn index_to_binary_digits() {
    assert_eq!(index_to_binary_string(5, 3), "101");
    assert_eq!(index_to_binary_string(5, 5), "00101");
    assert_eq!(index_to_binary_string(5, 2), "01");
    assert_eq!(index_to_binary_string(0, 0), "");
    assert_eq!(index_to_binary_string(3, 2), "11");
    assert_eq!(
        index_to_binary_string(usize::MAX, usize::BITS as usize).len(),
        usize::BITS as usize
    );
}

#[test]
fn binary_round_trip() {
    for index in 0..64usize {
        assert_eq!(binary_string_to_int(index_to_binary_string(index, 6)), index);
        assert_eq!(binary_string_to_int(index_to_binary_string(index, 4)), index % 16);
    }
}

#[test]
fn slit_experiment_sizes() {
    assert_eq!(slits_to_matrix_size(0), 2);
    assert_eq!(slits_to_matrix_size(1), 5);
    assert_eq!(slits_to_matrix_size(2), 8);
}

#[test]
fn powers_of_two() {
    assert_eq!(power_of_two(0), 1);
    assert_eq!(power_of_two(1), 2);
    assert_eq!(power_of_two(12), 4096);
    assert_eq!(power_of_two(usize::BITS as usize - 1), 1 << (usize::BITS - 1));
}
