use notesock::base36::{b36_to, b36_to_usize, decode_bounded};
use radix_fmt::radix_36;

#[test]
fn decodes_the_default_bounds() {
    assert_eq!(b36_to("1000"), Some(46656));
    assert_eq!(b36_to("zzzz"), Some(1679615));
    assert_eq!(b36_to("aa"), Some(370));
}

#[test]
fn weighs_each_place_by_a_power_of_36() {
    assert_eq!(b36_to("10"), Some(36));
    assert_eq!(b36_to("100"), Some(1296));
    assert_eq!(b36_to("11"), Some(37));
    assert_eq!(b36_to("z0"), Some(35 * 36));
}

#[test]
fn reads_letters_in_either_case() {
    assert_eq!(b36_to("z"), Some(35));
    assert_eq!(b36_to("Z"), Some(35));
    assert_eq!(b36_to("aB"), b36_to("Ab"));
    assert_eq!(b36_to("ZZZZ"), Some(1679615));
}

#[test]
fn reads_the_empty_string_as_zero() {
    assert_eq!(b36_to(""), Some(0));
    assert_eq!(b36_to("0"), Some(0));
}

#[test]
fn passes_over_leading_zeros() {
    assert_eq!(b36_to("0001"), Some(1));
    assert_eq!(b36_to("000000000000000z"), Some(35));
}

#[test]
fn refuses_what_is_no_symbol() {
    assert_eq!(b36_to("a-b"), None);
    assert_eq!(b36_to("/var/lib/notesock/abcd"), None);
    assert_eq!(b36_to(" 1"), None);
    assert_eq!(b36_to("é"), None);
    assert_eq!(b36_to("1_"), None);
}

#[test]
fn refuses_what_does_not_fit() {
    assert_eq!(b36_to("1z141z3"), Some(u32::MAX));
    assert_eq!(b36_to("1z141z4"), None);
    assert_eq!(b36_to("zzzzzzz"), None);
    assert_eq!(b36_to_usize("zzzzzzz"), Some(78364164095));
    assert_eq!(b36_to_usize("zzzzzzzzzzzzzzzzzzzzzzzzzz"), None);
}

#[test]
fn decodes_up_to_a_given_bound() {
    assert_eq!(decode_bounded("z", 35), Some(35));
    assert_eq!(decode_bounded("10", 35), None);
    assert_eq!(decode_bounded("3w5e11264sgsf", u64::MAX), Some(u64::MAX));
    assert_eq!(decode_bounded("3w5e11264sgsg", u64::MAX), None);
}

#[test]
fn decoding_undoes_encoding() {
    let samples: [u32; 9] = [0, 1, 35, 36, 1295, 1296, 46656, 1679615, u32::MAX];
    for i in samples {
        assert_eq!(b36_to(&radix_36(i).to_string()), Some(i));
    }
    let wide: [usize; 4] = [0, 46656, 78364164095, usize::MAX];
    for i in wide {
        assert_eq!(b36_to_usize(&radix_36(i).to_string()), Some(i));
    }
}
