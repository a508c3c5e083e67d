use notesock::startup::{
    is_paste_dir_name, leftover_pastes, listen_backlog, reconcile, Entry,
};

fn entry(name: &str, is_dir: bool) -> Entry {
    Entry { name: String::from(name), is_dir }
}

#[test]
fn a_name_of_enough_symbols_is_a_paste() {
    assert!(is_paste_dir_name("abcd", 4));
    assert!(is_paste_dir_name("1000", 4));
    assert!(is_paste_dir_name("zzzzz", 4));
    assert!(is_paste_dir_name("a1b2c3", 6));
}

#[test]
fn a_name_of_too_few_symbols_is_none() {
    assert!(!is_paste_dir_name("abc", 4));
    assert!(!is_paste_dir_name("", 1));
    assert!(!is_paste_dir_name("ab-cd", 4));
    assert!(!is_paste_dir_name("a.b.c.d", 2));
}

#[test]
fn upper_case_is_no_symbol_of_a_stored_name() {
    assert!(!is_paste_dir_name("ABCD", 4));
    assert!(!is_paste_dir_name("abCd", 3));
    assert!(is_paste_dir_name("abCd", 2));
}

#[test]
fn a_run_anywhere_in_the_name_counts() {
    assert!(is_paste_dir_name("ab-cdef", 4));
    assert!(is_paste_dir_name("lost+found1234", 4));
    assert!(is_paste_dir_name(".abcd", 4));
    assert!(!is_paste_dir_name("lost+found", 6));
}

#[test]
fn a_run_of_no_symbols_is_in_every_name() {
    assert!(is_paste_dir_name("", 0));
    assert!(is_paste_dir_name("---", 0));
}

#[test]
fn leftovers_are_the_directories_that_look_like_pastes() {
    let entries = vec![
        entry("abcd", true),
        entry("efgh", false),
        entry("ab", true),
        entry("zz99", true),
        entry("note.sock", false),
        entry("UPPER", true),
    ];
    assert_eq!(leftover_pastes(&entries, 4), vec![String::from("abcd"), String::from("zz99")]);
    assert_eq!(
        leftover_pastes(&entries, 2),
        vec![String::from("abcd"), String::from("ab"), String::from("zz99")]
    );
    assert_eq!(leftover_pastes(&Vec::new(), 4), Vec::<String>::new());
}

#[test]
fn without_the_flag_every_leftover_is_purged() {
    let entries = vec![entry("abcd", true), entry("x", true), entry("efgh", true)];
    let plan = reconcile(&entries, 4, false);
    assert_eq!(plan.purge, vec![String::from("abcd"), String::from("efgh")]);
    assert_eq!(plan.present, None);
}

#[test]
fn with_the_flag_every_leftover_is_kept_and_registered() {
    let entries = vec![entry("abcd", true), entry("x", true), entry("efgh", true)];
    let plan = reconcile(&entries, 4, true);
    assert_eq!(plan.purge, Vec::<String>::new());
    assert_eq!(plan.present, Some(vec![String::from("abcd"), String::from("efgh")]));
}

#[test]
fn nothing_left_over_registers_nothing() {
    let entries = vec![entry("x", true), entry("abcd", false)];
    let kept = reconcile(&entries, 4, true);
    assert_eq!(kept.purge, Vec::<String>::new());
    assert_eq!(kept.present, None);
    let purged = reconcile(&entries, 4, false);
    assert_eq!(purged.purge, Vec::<String>::new());
    assert_eq!(purged.present, None);
}

#[test]
fn the_backlog_is_twice_the_workers() {
    assert_eq!(listen_backlog(0), 0);
    assert_eq!(listen_backlog(2), 4);
    assert_eq!(listen_backlog(1073741823), 2147483646);
}
