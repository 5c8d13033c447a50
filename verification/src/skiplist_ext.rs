use crate::order::{insert_sorted, rank, remove_entry, Entry};
use skiplist::OrderedSkipList;
use vstd::prelude::*;

verus! {

/// `skiplist::OrderedSkipList`, carried as an opaque value.
#[verifier::external_type_specification]
#[verifier::external_body]
#[verifier::reject_recursive_types(T)]
pub struct ExOrderedSkipList<T>(skiplist::OrderedSkipList<T>);

/// What a skip list of timetable entries holds, front to back.
pub uninterp spec fn timetable_entries(list: OrderedSkipList<(u64, String)>) -> Seq<Entry>;

/// Whether `v` is the entry that stands at its own rank in `s`.
pub open spec fn stands_at_rank(s: Seq<Entry>, v: Entry) -> bool {
    rank(s, v) < s.len() && s[rank(s, v)] == v
}

/// `OrderedSkipList::new`: a list that holds nothing. It orders its items with
/// `partial_cmp`, which on a pair of an integer and a string compares the integers
/// first and then the strings, byte by byte.
#[verifier::external_body]
pub(crate) fn skiplist_new() -> (list: OrderedSkipList<(u64, String)>)
    ensures
        timetable_entries(list) == Seq::<Entry>::empty(),
{
    OrderedSkipList::new()
}

/// `OrderedSkipList::with_capacity`: a list that holds nothing, whatever the
/// capacity it was sized for.
#[verifier::external_body]
pub(crate) fn skiplist_with_capacity(capacity: usize) -> (list: OrderedSkipList<(u64, String)>)
    ensures
        timetable_entries(list) == Seq::<Entry>::empty(),
{
    OrderedSkipList::with_capacity(capacity)
}

/// `OrderedSkipList::insert`: the list walks past every item that is smaller than
/// the new one and links the new one in there; the other items keep their places.
#[verifier::external_body]
pub(crate) fn skiplist_insert(list: &mut OrderedSkipList<(u64, String)>, value: (u64, String))
    ensures
        timetable_entries(*final(list)) == insert_sorted(timetable_entries(*old(list)), value@),
{
    list.insert(value)
}

/// `OrderedSkipList::front`: the first item, or nothing where the list is empty.
#[verifier::external_body]
pub(crate) fn skiplist_front(list: &OrderedSkipList<(u64, String)>) -> (first: Option<
    &(u64, String),
>)
    ensures
        match first {
            Some(item) => timetable_entries(*list).len() > 0 && item@ == timetable_entries(
                *list,
            )[0],
            None => timetable_entries(*list).len() == 0,
        },
{
    list.front()
}

/// `OrderedSkipList::pop_front`: takes the first item out and returns it; an empty
/// list stays as it is and gives nothing.
#[verifier::external_body]
pub(crate) fn skiplist_pop_front(list: &mut OrderedSkipList<(u64, String)>) -> (first: Option<
    (u64, String),
>)
    ensures
        match first {
            Some(item) => timetable_entries(*old(list)).len() > 0 && item@ == timetable_entries(
                *old(list),
            )[0] && timetable_entries(*final(list)) == timetable_entries(*old(list)).drop_first(),
            None => timetable_entries(*old(list)).len() == 0 && timetable_entries(*final(list))
                == timetable_entries(*old(list)),
        },
{
    list.pop_front()
}

/// `OrderedSkipList::remove`: the list walks past every item that is smaller than
/// `value`; where the next item equals `value`, an item equal to `value` is
/// unlinked and returned, and otherwise the list stays as it is and nothing is
/// returned. Equal items stand side by side, so whichever of them leaves, the
/// same sequence stays.
#[verifier::external_body]
pub(crate) fn skiplist_remove(
    list: &mut OrderedSkipList<(u64, String)>,
    value: &(u64, String),
) -> (removed: Option<(u64, String)>)
    ensures
        timetable_entries(*final(list)) == remove_entry(timetable_entries(*old(list)), value@),
        match removed {
            Some(item) => item@ == value@ && stands_at_rank(timetable_entries(*old(list)), value@),
            None => !stands_at_rank(timetable_entries(*old(list)), value@),
        },
{
    list.remove(value)
}

/// `OrderedSkipList::remove_first`: as `remove`, and of several equal items it is
/// the first that leaves.
#[verifier::external_body]
pub(crate) fn skiplist_remove_first(
    list: &mut OrderedSkipList<(u64, String)>,
    value: &(u64, String),
) -> (removed: Option<(u64, String)>)
    ensures
        timetable_entries(*final(list)) == remove_entry(timetable_entries(*old(list)), value@),
        match removed {
            Some(item) => item@ == value@ && stands_at_rank(timetable_entries(*old(list)), value@),
            None => !stands_at_rank(timetable_entries(*old(list)), value@),
        },
{
    list.remove_first(value)
}

/// `OrderedSkipList::iter`: walks the items front to back; each is copied out.
#[verifier::external_body]
pub(crate) fn skiplist_items(list: &OrderedSkipList<(u64, String)>) -> (items: Vec<(u64, String)>)
    ensures
        items.deep_view() == timetable_entries(*list),
{
    list.iter().cloned().collect()
}

/// The ascending sequence that holds the items of `items`, each put in at its
/// rank, the first item first.
pub open spec fn sorted_from(items: Seq<Entry>) -> Seq<Entry>
    decreases items.len(),
{
    if items.len() == 0 {
        Seq::empty()
    } else {
        insert_sorted(sorted_from(items.drop_last()), items.last())
    }
}

/// The items of a timetable, front to back, as plain values that a writer can
/// take one by one.
pub fn ser_skiplist(skiplist: &OrderedSkipList<(u64, String)>) -> (items: Vec<(u64, String)>)
    ensures
        items.deep_view() == timetable_entries(*skiplist),
{
    skiplist_items(skiplist)
}

/// The timetable that holds `items`, whatever the order they come in.
pub fn de_skiplist(items: &Vec<(u64, String)>) -> (skiplist: OrderedSkipList<(u64, String)>)
    ensures
        timetable_entries(skiplist) == sorted_from(items.deep_view()),
{
    let mut skiplist = skiplist_with_capacity(items.len());
    let mut i: usize = 0;
    while i < items.len()
        invariant
            i <= items.len(),
            timetable_entries(skiplist) == sorted_from(items.deep_view().take(i as int)),
        decreases items.len() - i,
    {
        let item = (items[i].0, items[i].1.clone());
        proof {
            let upto = items.deep_view().take(i + 1);
            assert(upto.drop_last() =~= items.deep_view().take(i as int));
            assert(upto.last() == item@);
        }
        skiplist_insert(&mut skiplist, item);
        i += 1;
    }
    assert(items.deep_view().take(items.len() as int) =~= items.deep_view());
    skiplist
}

} // verus!
