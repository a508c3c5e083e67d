use notesock::base36::b36_to;
use notesock::id_gen::{IdGenerator, IdRangeError, PartitionIdGenerator, RandomIdGenerator};
use radix_fmt::radix_36;
use std::collections::HashSet;

#[test]
fn test_b36_conversion() {
    for i in 0..1000 {
        assert_eq!(i, b36_to(&radix_36(i).to_string()).unwrap())
    }
}

#[test]
fn test_random_generator() {
    let mut generator = PartitionIdGenerator::new(
        &radix_36(u32::MIN).to_string(),
        &radix_36(u32::MAX).to_string(),
        true,
        128,
        None,
    )
    .unwrap();
    let ids: Vec<_> = (0..=10000).map(|_| generator.get()).collect();
    let mut set = HashSet::<String>::new();
    for id in ids {
        let id = id.unwrap();
        assert!(set.insert(id.clone()), "{}", id)
    }
}

#[test]
fn test_mean_generator() {
    let mut generator = PartitionIdGenerator::new(
        &radix_36(u32::MIN).to_string(),
        &radix_36(u32::MAX).to_string(),
        false,
        128,
        None,
    )
    .unwrap();
    let ids: Vec<_> = (0..=10000).map(|_| generator.get()).collect();
    let mut set = HashSet::<String>::new();
    for id in ids {
        let id = id.unwrap();
        assert!(set.insert(id.clone()), "{}", id)
    }
}

fn names(list: &[&str]) -> Option<Vec<String>> {
    Some(list.iter().map(|s| String::from(*s)).collect())
}

fn drain(generator: &mut PartitionIdGenerator) -> Vec<String> {
    let mut ids = Vec::new();
    while let Some(id) = generator.get() {
        ids.push(id);
        assert!(ids.len() <= 100000);
    }
    ids
}

#[test]
fn a_range_needs_two_identifiers_in_order() {
    assert!(matches!(
        PartitionIdGenerator::new("a!", "zz", false, 0, None),
        Err(IdRangeError::InvalidMin)
    ));
    assert!(matches!(
        PartitionIdGenerator::new("aa", "z z", false, 0, None),
        Err(IdRangeError::InvalidMax)
    ));
    assert!(matches!(
        PartitionIdGenerator::new("?", "?", false, 0, None),
        Err(IdRangeError::InvalidMin)
    ));
    assert!(matches!(
        PartitionIdGenerator::new("aa", "aa", false, 0, None),
        Err(IdRangeError::EmptyRange)
    ));
    assert!(matches!(
        PartitionIdGenerator::new("ab", "aa", false, 0, None),
        Err(IdRangeError::EmptyRange)
    ));
    assert!(PartitionIdGenerator::new("aa", "ab", false, 0, None).is_ok());
}

#[test]
fn a_bound_beyond_the_integer_is_invalid() {
    assert!(matches!(
        PartitionIdGenerator::new("zzzzzzz", "zzzzzzzz", false, 0, None),
        Err(IdRangeError::InvalidMin)
    ));
    assert!(matches!(
        PartitionIdGenerator::new("0", "1z141z4", false, 0, None),
        Err(IdRangeError::InvalidMax)
    ));
    assert!(PartitionIdGenerator::new("0", "1z141z3", false, 0, None).is_ok());
    assert!(RandomIdGenerator::new("0", "zzzzzzz", None, None).is_ok());
    assert!(matches!(
        RandomIdGenerator::new("0", "zzzzzzzzzzzzzzzzzzzzzzzzzz", None, None),
        Err(IdRangeError::InvalidMax)
    ));
}

#[test]
fn a_random_range_needs_two_identifiers_in_order() {
    assert!(matches!(
        RandomIdGenerator::new("-", "zz", None, None),
        Err(IdRangeError::InvalidMin)
    ));
    assert!(matches!(
        RandomIdGenerator::new("aa", "z/", None, None),
        Err(IdRangeError::InvalidMax)
    ));
    assert!(matches!(
        RandomIdGenerator::new("aa", "aa", None, None),
        Err(IdRangeError::EmptyRange)
    ));
    assert!(matches!(
        RandomIdGenerator::new("zz", "aa", Some(5), None),
        Err(IdRangeError::EmptyRange)
    ));
}

#[test]
fn midpoints_split_the_widest_gap_first() {
    let mut generator = PartitionIdGenerator::new("0", "10", false, 0, names(&["c"])).unwrap();
    assert_eq!(generator.get(), Some(String::from("o")));
    assert_eq!(generator.get(), Some(String::from("6")));
    let mut third = vec![generator.get().unwrap(), generator.get().unwrap()];
    third.sort();
    assert_eq!(third, vec![String::from("i"), String::from("u")]);
    let mut fourth = vec![generator.get().unwrap(), generator.get().unwrap()];
    fourth.sort();
    assert_eq!(fourth, vec![String::from("3"), String::from("9")]);
}

#[test]
fn a_midpoint_is_rounded_down() {
    let mut generator = PartitionIdGenerator::new("0", "5", false, 0, names(&["5"])).unwrap();
    assert_eq!(generator.get(), Some(String::from("2")));
    assert_eq!(generator.get(), Some(String::from("3")));
    assert_eq!(generator.get(), Some(String::from("1")));
    assert_eq!(generator.get(), Some(String::from("4")));
    assert_eq!(generator.get(), None);
    assert_eq!(generator.get(), None);
}

#[test]
fn a_midpoint_near_the_largest_number_does_not_overflow() {
    let mut generator =
        PartitionIdGenerator::new("1z141z1", "1z141z3", false, 0, names(&["0"])).unwrap();
    assert_eq!(generator.get(), Some(String::from("1z141z2")));
    assert_eq!(generator.get(), None);
    let mut wide = PartitionIdGenerator::new("0", "1z141z3", false, 1, names(&["1z141z3"]))
        .unwrap();
    assert_eq!(wide.get(), Some(radix_36(u32::MAX / 2).to_string()));
}

#[test]
fn a_cap_of_one_takes_the_widest_gap_alone() {
    let mut generator = PartitionIdGenerator::new("0", "10", false, 1, names(&["c"])).unwrap();
    assert_eq!(generator.get(), Some(String::from("o")));
    let second = generator.get().unwrap();
    assert!(["6", "i", "u"].contains(&second.as_str()), "{}", second);
}

#[test]
fn a_refill_hands_out_the_widest_gaps_in_falling_order() {
    let present = names(&["1", "3", "7", "f", "v"]);
    let mut generator = PartitionIdGenerator::new("0", "1r", false, 3, present).unwrap();
    assert_eq!(generator.get(), Some(String::from("1b")));
    assert_eq!(generator.get(), Some(String::from("n")));
    assert_eq!(generator.get(), Some(String::from("b")));
    let mut random = PartitionIdGenerator::new("0", "1r", true, 3, names(&["1", "3", "7", "f", "v"]))
        .unwrap();
    let first = b36_to(&random.get().unwrap()).unwrap();
    let second = b36_to(&random.get().unwrap()).unwrap();
    let third = b36_to(&random.get().unwrap()).unwrap();
    assert!(31 < first && first < 63, "{}", first);
    assert!(15 < second && second < 31, "{}", second);
    assert!(7 < third && third < 15, "{}", third);
}

#[test]
fn a_gap_of_two_has_one_pick() {
    let mut generator = PartitionIdGenerator::new("0", "2", true, 0, names(&["zz"])).unwrap();
    assert_eq!(generator.get(), Some(String::from("1")));
    assert_eq!(generator.get(), None);
}

#[test]
fn a_full_range_is_exhausted() {
    let mut generator = PartitionIdGenerator::new("0", "2", false, 0, names(&["1"])).unwrap();
    assert_eq!(generator.get(), None);
    let mut narrow = PartitionIdGenerator::new("aa", "ab", false, 0, names(&["q"])).unwrap();
    assert_eq!(narrow.get(), None);
}

#[test]
fn every_free_number_inside_the_range_comes_once() {
    for is_random in [false, true] {
        for cap in [0, 1, 2, 5, 128] {
            let mut generator =
                PartitionIdGenerator::new("0", "10", is_random, cap, names(&["c"])).unwrap();
            let ids = drain(&mut generator);
            assert_eq!(ids.len(), 34);
            let set: HashSet<String> = ids.iter().cloned().collect();
            assert_eq!(set.len(), 34);
            assert!(!set.contains("c"));
            assert!(!set.contains("0"));
            assert!(!set.contains("10"));
            for id in &ids {
                let n = b36_to(id).unwrap();
                assert!(0 < n && n < 36);
                assert_eq!(*id, radix_36(n).to_string());
            }
        }
    }
}

#[test]
fn a_generator_without_names_starts_from_a_seed() {
    for _ in 0..50 {
        let mut generator = PartitionIdGenerator::new("aa", "ac", true, 0, None).unwrap();
        let seed = generator.get().unwrap();
        assert!(seed == "aa" || seed == "ab", "{}", seed);
        assert!(!generator.remove("zz"));
        assert!(generator.remove(&seed));
    }
    let mut only = PartitionIdGenerator::new("aa", "ab", false, 0, Some(Vec::new())).unwrap();
    assert_eq!(only.get(), Some(String::from("aa")));
    assert_eq!(only.get(), None);
}

#[test]
fn names_beyond_the_range_are_live_and_split_nothing() {
    let mut generator =
        PartitionIdGenerator::new("10", "14", false, 0, names(&["5", "zz", "not an id"])).unwrap();
    assert_eq!(generator.get(), Some(String::from("12")));
    assert!(generator.remove("5"));
    assert!(generator.remove("zz"));
    assert!(!generator.remove("not an id"));
    let mut rest = vec![generator.get().unwrap(), generator.get().unwrap()];
    rest.sort();
    assert_eq!(rest, vec![String::from("11"), String::from("13")]);
    assert_eq!(generator.get(), None);
}

#[test]
fn a_release_frees_a_partition_identifier() {
    let mut generator = PartitionIdGenerator::new("0", "2", false, 0, names(&["2"])).unwrap();
    assert_eq!(generator.get(), Some(String::from("1")));
    assert_eq!(generator.get(), None);
    assert!(generator.remove("1"));
    assert!(!generator.remove("1"));
    assert_eq!(generator.get(), Some(String::from("1")));
}

#[test]
fn a_release_of_no_identifier_changes_nothing() {
    let mut generator = PartitionIdGenerator::new("0", "2", false, 0, names(&["1"])).unwrap();
    assert!(!generator.remove(""));
    assert!(!generator.remove("0"));
    assert!(!generator.remove("1!"));
    assert!(!generator.remove("zzzzzzzzz"));
    assert_eq!(generator.get(), None);
    let mut random = RandomIdGenerator::new("aa", "ab", Some(3), names(&["aa"])).unwrap();
    assert!(!random.remove("a a"));
    assert!(!random.remove("ab"));
    assert_eq!(random.get(), None);
    assert!(random.remove("AA"));
    assert_eq!(random.get(), Some(String::from("aa")));
}

#[test]
fn a_small_range_is_handed_out_and_then_exhausted() {
    let mut generator = RandomIdGenerator::new("aa", "ac", Some(256), None).unwrap();
    let mut ids = vec![generator.get().unwrap(), generator.get().unwrap()];
    ids.sort();
    assert_eq!(ids, vec![String::from("aa"), String::from("ab")]);
    assert_eq!(generator.get(), None);
}

#[test]
fn random_identifiers_lie_in_the_range_and_differ() {
    let mut generator = RandomIdGenerator::new("1000", "zzzz", Some(256), None).unwrap();
    let mut seen = HashSet::new();
    for _ in 0..5000 {
        let id = generator.get().unwrap();
        let n = b36_to(&id).unwrap();
        assert!(46656 <= n && n < 1679615, "{}", id);
        assert_eq!(id, radix_36(n).to_string());
        assert!(seen.insert(id));
    }
}

#[test]
fn a_registered_name_is_never_handed_out() {
    let mut generator =
        RandomIdGenerator::new("abcd", "abcf", Some(256), names(&["abcd", "x y"])).unwrap();
    assert_eq!(generator.get(), Some(String::from("abce")));
    assert_eq!(generator.get(), None);
    assert!(generator.remove("abcd"));
    assert_eq!(generator.get(), Some(String::from("abcd")));
}

#[test]
fn a_cap_of_nothing_still_tries_once() {
    let mut open = RandomIdGenerator::new("aa", "ab", Some(0), None).unwrap();
    assert_eq!(open.get(), Some(String::from("aa")));
    assert_eq!(open.get(), None);
    let mut one = RandomIdGenerator::new("aa", "ab", Some(1), None).unwrap();
    assert_eq!(one.get(), Some(String::from("aa")));
    assert_eq!(one.get(), None);
}

#[test]
fn a_claim_takes_what_is_not_live() {
    let mut generator = RandomIdGenerator::new("aa", "zz", None, names(&["ab"])).unwrap();
    assert_eq!(generator.try_claim(370), Some(String::from("aa")));
    assert_eq!(generator.try_claim(370), None);
    assert_eq!(generator.try_claim(371), None);
    assert_eq!(generator.try_claim(46656), Some(String::from("1000")));
    assert!(generator.remove("aa"));
    assert_eq!(generator.try_claim(370), Some(String::from("aa")));
}

#[test]
fn a_release_after_a_failed_write_leaves_no_trace() {
    let mut generator = RandomIdGenerator::new("aa", "ab", Some(8), None).unwrap();
    for _ in 0..10 {
        let id = generator.get().unwrap();
        assert_eq!(id, "aa");
        assert!(generator.remove(&id));
    }
    assert_eq!(generator.get(), Some(String::from("aa")));
    assert_eq!(generator.get(), None);
}

#[test]
fn zero_is_spelled_with_one_digit() {
    let mut generator = PartitionIdGenerator::new("0", "1", false, 0, None).unwrap();
    assert_eq!(generator.get(), Some(String::from("0")));
    assert_eq!(generator.get(), None);
    let mut random = RandomIdGenerator::new("", "1", None, None).unwrap();
    assert_eq!(random.get(), Some(String::from("0")));
}

#[test]
fn identifiers_are_spelled_in_lower_case_without_leading_zeros() {
    let mut generator = RandomIdGenerator::new("00ZZ", "0100", Some(2), None).unwrap();
    assert_eq!(generator.get(), Some(String::from("zz")));
    let mut split = PartitionIdGenerator::new("00A", "00C", false, 0, Some(vec![String::from("z")]))
        .unwrap();
    assert_eq!(split.get(), Some(String::from("b")));
}

#[test]
fn seeds_are_drawn_from_the_whole_range() {
    let mut seeds = HashSet::new();
    for _ in 0..200 {
        let mut generator = PartitionIdGenerator::new("1000", "zzzz", false, 1, None).unwrap();
        let seed = b36_to(&generator.get().unwrap()).unwrap();
        assert!(46656 <= seed && seed < 1679615);
        seeds.insert(seed);
    }
    assert!(seeds.len() > 1);
}

#[test]
fn without_a_cap_a_sparse_range_always_serves() {
    let mut generator = RandomIdGenerator::new("0", "zzzzzz", None, None).unwrap();
    let mut seen = HashSet::new();
    for _ in 0..2000 {
        assert!(seen.insert(generator.get().unwrap()));
    }
}

#[test]
fn random_picks_lie_strictly_inside_their_gaps() {
    for _ in 0..200 {
        let mut generator =
            PartitionIdGenerator::new("a", "k", true, 0, Some(vec![String::from("f")])).unwrap();
        let mut first = vec![
            b36_to(&generator.get().unwrap()).unwrap(),
            b36_to(&generator.get().unwrap()).unwrap(),
        ];
        first.sort();
        assert!(10 < first[0] && first[0] < 15, "{:?}", first);
        assert!(15 < first[1] && first[1] < 20, "{:?}", first);
    }
}
