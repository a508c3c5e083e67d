//! What the server settles before it listens: which directories of the
//! paste directory are pastes of an earlier run, and what becomes of them.

use vstd::prelude::*;

verus! {

/// One entry of the paste directory.
#[derive(Debug, PartialEq, Eq)]
pub struct Entry {
    /// The name of the entry.
    pub name: String,
    /// The entry is a directory.
    pub is_dir: bool,
}

/// What to do with the pastes of an earlier run.
#[derive(Debug, PartialEq, Eq)]
pub struct Reconciliation {
    /// The directories to delete.
    pub purge: Vec<String>,
    /// The names to register with the generator, where there are any.
    pub present: Option<Vec<String>>,
}

/// A symbol of a stored identifier: a digit or a lower-case letter.
pub open spec fn is_id_symbol(c: char) -> bool {
    let u = c as int;
    ('0' as int <= u <= '9' as int) || ('a' as int <= u <= 'z' as int)
}

/// From `start` on, `name` holds `len` identifier symbols in a row.
pub open spec fn is_id_run(name: Seq<char>, start: int, len: nat) -> bool {
    &&& 0 <= start
    &&& start + len <= name.len()
    &&& forall|i: int| start <= i < start + len ==> is_id_symbol(#[trigger] name[i])
}

/// Somewhere in `name` stand at least `min_len` identifier symbols in a
/// row.
pub open spec fn has_id_run(name: Seq<char>, min_len: nat) -> bool {
    exists|start: int| #[trigger] is_id_run(name, start, min_len)
}

/// The names of the directories among `entries` that look like pastes, in
/// their order.
pub open spec fn leftovers(entries: Seq<Entry>, min_len: nat) -> Seq<Seq<char>>
    decreases entries.len(),
{
    if entries.len() == 0 {
        Seq::empty()
    } else {
        let before = leftovers(entries.drop_last(), min_len);
        let last = entries.last();
        if last.is_dir && has_id_run(last.name@, min_len) {
            before.push(last.name@)
        } else {
            before
        }
    }
}

/// The names in `list`, as the characters they are made of.
pub open spec fn spelled(list: Seq<String>) -> Seq<Seq<char>> {
    list.map_values(|s: String| s@)
}

fn id_symbol(c: char) -> (yes: bool)
    ensures
        yes == is_id_symbol(c),
{
    let u: u32 = c as u32;
    ('0' as u32 <= u && u <= '9' as u32) || ('a' as u32 <= u && u <= 'z' as u32)
}

/// Whether `name` looks like the directory of a paste: somewhere in it
/// stand at least `min_len` identifier symbols in a row.
pub fn is_paste_dir_name(name: &str, min_len: usize) -> (yes: bool)
    ensures
        yes == has_id_run(name@, min_len as nat),
{
    if min_len == 0 {
        assert(is_id_run(name@, 0, 0));
        return true;
    }
    let mut run: usize = 0;
    for c in it: name.chars()
        invariant
            it.seq() == name@,
            min_len > 0,
            run < min_len,
            run <= it.index(),
            forall|i: int| it.index() - run <= i < it.index() ==> is_id_symbol(#[trigger] name@[i]),
            run < it.index() ==> !is_id_symbol(name@[it.index() - run - 1]),
            forall|start: int|
                start + min_len <= it.index() ==> !#[trigger] is_id_run(name@, start, min_len as nat),
    {
        let ghost at = it.index() as int;
        let ghost before = run;
        if id_symbol(c) {
            run = run + 1;
            if run >= min_len {
                assert(is_id_run(name@, at + 1 - min_len, min_len as nat));
                return true;
            }
        } else {
            run = 0;
        }
        proof {
            assert forall|start: int| start + min_len <= at + 1 implies !#[trigger] is_id_run(
                name@,
                start,
                min_len as nat,
            ) by {
                if start + min_len == at + 1 && 0 <= start {
                    assert(!is_id_symbol(name@[at - run]));
                }
            }
        }
    }
    proof {
        assert forall|start: int| !#[trigger] is_id_run(name@, start, min_len as nat) by {}
    }
    false
}

/// The names of the directories among `entries` that look like pastes of
/// an earlier run.
pub fn leftover_pastes(entries: &Vec<Entry>, min_len: usize) -> (names: Vec<String>)
    ensures
        spelled(names@) == leftovers(entries@, min_len as nat),
{
    let mut names: Vec<String> = Vec::new();
    assert(spelled(names@) =~= leftovers(entries@.take(0), min_len as nat));
    for i in 0..entries.len()
        invariant
            spelled(names@) == leftovers(entries@.take(i as int), min_len as nat),
    {
        let ghost before = names@;
        assert(entries@.take(i + 1).drop_last() =~= entries@.take(i as int));
        assert(entries@.take(i + 1).last() == entries@[i as int]);
        if entries[i].is_dir && is_paste_dir_name(entries[i].name.as_str(), min_len) {
            names.push(entries[i].name.clone());
            assert(spelled(names@) =~= spelled(before).push(entries@[i as int].name@));
        }
    }
    assert(entries@.take(entries.len() as int) =~= entries@);
    names
}

/// Settles what becomes of the pastes of an earlier run. Unless they are to
/// be kept they are all purged and the generator starts with nothing; kept
/// pastes are registered with the generator and are not touched.
pub fn reconcile(entries: &Vec<Entry>, min_len: usize, no_cleanup: bool) -> (plan: Reconciliation)
    ensures
        spelled(plan.purge@) == if no_cleanup {
            Seq::<Seq<char>>::empty()
        } else {
            leftovers(entries@, min_len as nat)
        },
        match plan.present {
            Some(names) => no_cleanup && names.len() > 0 && spelled(names@) == leftovers(
                entries@,
                min_len as nat,
            ),
            None => !no_cleanup || leftovers(entries@, min_len as nat).len() == 0,
        },
{
    let names = leftover_pastes(entries, min_len);
    if !no_cleanup {
        Reconciliation { purge: names, present: None }
    } else if names.len() == 0 {
        let purge: Vec<String> = Vec::new();
        assert(spelled(purge@) =~= Seq::<Seq<char>>::empty());
        Reconciliation { purge, present: None }
    } else {
        let purge: Vec<String> = Vec::new();
        assert(spelled(purge@) =~= Seq::<Seq<char>>::empty());
        Reconciliation { purge, present: Some(names) }
    }
}

/// The backlog of the listening socket: two connections for each worker.
pub fn listen_backlog(workers: usize) -> (backlog: i32)
    requires
        2 * workers <= i32::MAX,
    ensures
        backlog == 2 * workers,
{
    (workers * 2) as i32
}

} // verus!
