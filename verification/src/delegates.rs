//! The set of approved delegates that the representative and liquid contracts keep.
use vstd::prelude::*;
use crate::bytes::{lemma_take_to_set_step, views};
use crate::table::Table;

verus! {

/// The most delegates a contract approves at once.
pub const MAX_DELEGATES_NUMBER: u32 = 10;

/// Approved delegates, by address.
pub type DelegateSet = Table<Vec<u8>, ()>;

/// The set of addresses of a list.
pub open spec fn name_set(list: Seq<Vec<u8>>) -> Set<Seq<u8>> {
    views(list).to_set()
}

/// Adds every address of `list` to `set`.
pub fn add_all(set: &mut DelegateSet, list: &Vec<Vec<u8>>)
    requires
        old(set).wf(),
    ensures
        final(set).wf(),
        final(set)@.dom() == old(set)@.dom() + name_set(list@),
{
    let ghost start = set@.dom();
    let ghost names = views(list@);
    let n = list.len();
    let mut i: usize = 0;
    assert(names.take(0).to_set() =~= Set::<Seq<u8>>::empty());
    while i < n
        invariant
            set.wf(),
            n == list@.len(),
            names == views(list@),
            i <= n,
            set@.dom() == start + names.take(i as int).to_set(),
        decreases n - i,
    {
        if !set.contains_key(&list[i]) {
            set.insert(list[i].clone(), ());
        }
        proof {
            lemma_take_to_set_step(names, i as int);
            assert(set@.dom() =~= start + names.take(i + 1).to_set());
        }
        i = i + 1;
    }
    assert(names.take(n as int) =~= names);
}

/// Removes every address of `list` from `set`.
pub fn remove_all(set: &mut DelegateSet, list: &Vec<Vec<u8>>)
    requires
        old(set).wf(),
    ensures
        final(set).wf(),
        final(set)@.dom() == old(set)@.dom() - name_set(list@),
{
    let ghost start = set@.dom();
    let ghost names = views(list@);
    let n = list.len();
    let mut i: usize = 0;
    assert(names.take(0).to_set() =~= Set::<Seq<u8>>::empty());
    assert(start - names.take(0).to_set() =~= start);
    while i < n
        invariant
            set.wf(),
            n == list@.len(),
            names == views(list@),
            i <= n,
            set@.dom() == start - names.take(i as int).to_set(),
        decreases n - i,
    {
        set.remove(&list[i]);
        proof {
            lemma_take_to_set_step(names, i as int);
            assert(set@.dom() =~= start - names.take(i + 1).to_set());
        }
        i = i + 1;
    }
    assert(names.take(n as int) =~= names);
}

/// The set of the addresses of `list`.
pub fn set_of(list: &Vec<Vec<u8>>) -> (r: DelegateSet)
    ensures
        r.wf(),
        r@.dom() == name_set(list@),
{
    let mut set: DelegateSet = Table::new();
    add_all(&mut set, list);
    assert(set@.dom() =~= name_set(list@));
    set
}

} // verus!
