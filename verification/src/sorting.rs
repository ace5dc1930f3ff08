//! Sorting by name.
use crate::text::{lemma_text_order, str_lt, text_lt};
use vstd::prelude::*;

verus! {

/// What has a name to be sorted by.
pub trait Named: Sized {
    /// The name.
    spec fn key(self) -> Seq<char>;

    /// The name.
    fn name(&self) -> (name: &str)
        ensures
            name@ == self.key(),
    ;
}

impl Named for String {
    open spec fn key(self) -> Seq<char> {
        self@
    }

    fn name(&self) -> (name: &str) {
        self.as_str()
    }
}

/// Whether `list` stands in ascending order of the names.
pub open spec fn sorted_by_name<T: Named>(list: Seq<T>) -> bool {
    forall|i: int, j: int|
        #![trigger list[i], list[j]]
        0 <= i < j < list.len() ==> !text_lt(list[j].key(), list[i].key())
}

/// The items of `list` with the name `name`, in their order.
pub open spec fn under_name<T: Named>(list: Seq<T>, name: Seq<char>) -> Seq<T> {
    list.filter(|item: T| item.key() == name)
}

proof fn lemma_none_under_name<T: Named>(list: Seq<T>, name: Seq<char>)
    requires
        forall|i: int| 0 <= i < list.len() ==> (#[trigger] list[i]).key() != name,
    ensures
        under_name(list, name) == Seq::<T>::empty(),
    decreases list.len(),
{
    reveal(Seq::filter);
    if list.len() > 0 {
        assert forall|i: int| 0 <= i < list.drop_last().len() implies (#[trigger] list.drop_last()[i]).key()
            != name by {
            assert(list.drop_last()[i] == list[i]);
        }
        lemma_none_under_name(list.drop_last(), name);
    }
}

proof fn lemma_insert_under_name<T: Named>(list: Seq<T>, place: int, item: T, name: Seq<char>)
    requires
        0 <= place <= list.len(),
        forall|i: int| place <= i < list.len() ==> (#[trigger] list[i]).key() != item.key(),
    ensures
        under_name(list.insert(place, item), name) == under_name(list.push(item), name),
{
    let front = list.take(place);
    let back = list.skip(place);
    let one = seq![item];
    let is_it = |t: T| t.key() == name;
    assert(list.insert(place, item) =~= front + one + back);
    assert(list.push(item) =~= front + back + one);
    Seq::filter_distributes_over_add(front + one, back, is_it);
    Seq::filter_distributes_over_add(front, one, is_it);
    Seq::filter_distributes_over_add(front + back, one, is_it);
    Seq::filter_distributes_over_add(front, back, is_it);
    if item.key() == name {
        assert forall|i: int| 0 <= i < back.len() implies (#[trigger] back[i]).key() != name by {
            assert(back[i] == list[place + i]);
        }
        lemma_none_under_name(back, name);
        assert(under_name(front, name) + under_name(one, name) + Seq::<T>::empty() =~= under_name(
            front,
            name,
        ) + Seq::<T>::empty() + under_name(one, name));
    } else {
        assert(one[0].key() != name);
        lemma_none_under_name(one, name);
        assert(under_name(front, name) + Seq::<T>::empty() + under_name(back, name) =~= under_name(
            front,
            name,
        ) + under_name(back, name) + Seq::<T>::empty());
    }
}

proof fn lemma_push_under_name<T: Named>(a: Seq<T>, b: Seq<T>, item: T, name: Seq<char>)
    requires
        under_name(a, name) == under_name(b, name),
    ensures
        under_name(a.push(item), name) == under_name(b.push(item), name),
{
    reveal(Seq::filter);
    assert(a.push(item).drop_last() =~= a);
    assert(b.push(item).drop_last() =~= b);
}

/// Sorts `list` by name. Items with the same name keep their order.
pub fn sort_by_name<T: Named>(list: Vec<T>) -> (sorted: Vec<T>)
    ensures
        sorted_by_name(sorted@),
        sorted@.to_multiset() == list@.to_multiset(),
        forall|name: Seq<char>| #[trigger]
            under_name(sorted@, name) == under_name(list@, name),
{
    let ghost all = list@;
    let mut rest = list;
    let mut sorted: Vec<T> = Vec::new();
    let ghost mut done: int = 0;
    proof {
        assert(all.skip(0) =~= all);
        assert(all.take(0) =~= sorted@);
    }
    while rest.len() > 0
        invariant
            0 <= done,
            done + rest@.len() == all.len(),
            rest@ == all.skip(done),
            sorted@.len() == done,
            sorted_by_name(sorted@),
            sorted@.to_multiset() == all.take(done).to_multiset(),
            forall|name: Seq<char>| #[trigger]
                under_name(sorted@, name) == under_name(all.take(done), name),
        decreases rest@.len(),
    {
        let item = rest.remove(0);
        let mut place: usize = sorted.len();
        while place > 0 && str_lt(item.name(), sorted[place - 1].name())
            invariant
                place <= sorted@.len(),
                forall|i: int|
                    place <= i < sorted@.len() ==> text_lt(item.key(), (#[trigger] sorted@[i]).key()),
            decreases place,
        {
            place -= 1;
        }
        let ghost before = sorted@;
        sorted.insert(place, item);
        proof {
            assert(item == all[done]);
            assert forall|i: int, j: int|
                #![trigger sorted@[i], sorted@[j]]
                0 <= i < j < sorted@.len() implies !text_lt(sorted@[j].key(), sorted@[i].key()) by {
                let a = if i < place {
                    before[i]
                } else if i == place {
                    item
                } else {
                    before[i - 1]
                };
                let b = if j < place {
                    before[j]
                } else if j == place {
                    item
                } else {
                    before[j - 1]
                };
                assert(a == sorted@[i] && b == sorted@[j]);
                if i < place && j == place {
                    let last = before[place - 1];
                    if i < place - 1 {
                        lemma_text_order(b.key(), a.key(), last.key());
                        lemma_text_order(b.key(), last.key(), a.key());
                        lemma_text_order(last.key(), a.key(), b.key());
                        lemma_text_order(a.key(), last.key(), b.key());
                    }
                } else if i == place {
                    lemma_text_order(a.key(), b.key(), a.key());
                }
            }
            assert forall|i: int| place <= i < before.len() implies (#[trigger] before[i]).key()
                != item.key() by {
                lemma_text_order(item.key(), item.key(), item.key());
            }
            let taken = all.take(done);
            assert(all.take(done + 1) =~= taken.push(item));
            assert forall|name: Seq<char>| #[trigger] under_name(sorted@, name) == under_name(
                all.take(done + 1),
                name,
            ) by {
                lemma_insert_under_name(before, place as int, item, name);
                assert(under_name(before, name) == under_name(taken, name));
                lemma_push_under_name(before, taken, item, name);
            }
            broadcast use vstd::seq_lib::group_to_multiset_ensures;

            assert(sorted@.to_multiset() =~= before.to_multiset().insert(item));
            assert(all.skip(done).drop_first() =~= all.skip(done + 1));
            assert(rest@ =~= all.skip(done + 1));
            done = done + 1;
        }
    }
    assert(all.take(done) =~= all);
    sorted
}

// ---------------------------------------------------------------------------
// Laws
// ---------------------------------------------------------------------------


/// A sorted list has no name in front of one that comes before it in the order of text.
pub proof fn law_sorted<T: Named>(list: Seq<T>)
    ensures
        sorted_by_name(list) <==> forall|i: int, j: int|
            #![trigger list[i], list[j]]
            0 <= i < j < list.len() ==> !text_lt(list[j].key(), list[i].key()),
{
}

/// The items under a name are those with that name, in the order of the list.
pub proof fn law_under_name<T: Named>(list: Seq<T>, item: T, name: Seq<char>)
    ensures
        under_name(Seq::<T>::empty(), name) == Seq::<T>::empty(),
        item.key() == name ==> under_name(list.push(item), name) == under_name(list, name).push(
            item,
        ),
        item.key() != name ==> under_name(list.push(item), name) == under_name(list, name),
{
    reveal(Seq::filter);
    assert(list.push(item).drop_last() =~= list);
}

/// A string is sorted by its text.
pub proof fn law_string_key(s: String)
    ensures
        s.key() == s@,
{
}

} // verus!
