//! What holds of a store across several operations, stated over the same
//! spec functions as the operations' own contracts and proved from them.

use crate::categories::{default_category, next_category, CategoryView};
use crate::store::{appended, initial, listing, materialized};
use crate::tasks::{next_task, tasks_of, TaskView};
use vstd::prelude::*;

verus! {

/// The contents after `records` have been appended for `owner`, one after
/// the other.
pub open spec fn appended_all<V>(
    m: Map<Seq<char>, Seq<V>>,
    owner: Seq<char>,
    seed: Option<V>,
    records: Seq<V>,
) -> Map<Seq<char>, Seq<V>>
    decreases records.len(),
{
    if records.len() == 0 {
        m
    } else {
        appended(appended_all(m, owner, seed, records.drop_last()), owner, seed, records.last())
    }
}

/// The title and colour handed to one call of `add_category`.
pub ghost struct CategoryFields {
    pub title: Seq<char>,
    pub color: Seq<char>,
}

/// The text, category and creation time handed to one call of `add_task`.
pub ghost struct TaskFields {
    pub text: Seq<char>,
    pub category_id: nat,
    pub timestamp: nat,
}

/// The contents after one `add_category` for each of `calls`, in order.
pub open spec fn categories_added(
    m: Map<Seq<char>, Seq<CategoryView>>,
    owner: Seq<char>,
    seed: Option<CategoryView>,
    calls: Seq<CategoryFields>,
) -> Map<Seq<char>, Seq<CategoryView>>
    decreases calls.len(),
{
    if calls.len() == 0 {
        m
    } else {
        let before = categories_added(m, owner, seed, calls.drop_last());
        appended(
            before,
            owner,
            seed,
            next_category(before, owner, seed, calls.last().title, calls.last().color),
        )
    }
}

/// The contents after one `add_task` for each of `calls`, in order.
pub open spec fn tasks_added(
    m: Map<Seq<char>, Seq<TaskView>>,
    owner: Seq<char>,
    calls: Seq<TaskFields>,
) -> Map<Seq<char>, Seq<TaskView>>
    decreases calls.len(),
{
    if calls.len() == 0 {
        m
    } else {
        let before = tasks_added(m, owner, calls.drop_last());
        let task = next_task(
            before,
            owner,
            calls.last().text,
            calls.last().category_id,
            calls.last().timestamp,
        );
        before.insert(owner, tasks_of(before, owner).push(task))
    }
}

/// An owner who has no collection reads what a collection is born with:
/// nothing, or the default record alone.
pub proof fn lemma_first_read<V>(m: Map<Seq<char>, Seq<V>>, owner: Seq<char>, seed: Option<V>)
    requires
        !m.dom().contains(owner),
    ensures
        listing(m, owner, seed) == initial(seed),
        seed is None ==> listing(m, owner, seed) == Seq::<V>::empty(),
        seed matches Some(record) ==> listing(m, owner, seed) == seq![record],
{
}

/// Reading is idempotent: a second read returns what the first returned and
/// changes nothing more.
pub proof fn lemma_read_twice<V>(m: Map<Seq<char>, Seq<V>>, owner: Seq<char>, seed: Option<V>)
    ensures
        listing(materialized(m, owner, seed), owner, seed) == listing(m, owner, seed),
        materialized(materialized(m, owner, seed), owner, seed) == materialized(m, owner, seed),
{
}

/// Reading leaves every other owner's collection as it was.
pub proof fn lemma_read_frame<V>(
    m: Map<Seq<char>, Seq<V>>,
    owner: Seq<char>,
    seed: Option<V>,
    other: Seq<char>,
)
    requires
        other != owner,
    ensures
        materialized(m, owner, seed).dom().contains(other) == m.dom().contains(other),
        listing(materialized(m, owner, seed), other, seed) == listing(m, other, seed),
{
}

/// After any number of appends, the owner reads what was there before,
/// followed by the appended records in the order of the calls: the length
/// grows by the number of appends and the N-th appended record stands N-1
/// places after the records that were there.
pub proof fn lemma_appends_in_order<V>(
    m: Map<Seq<char>, Seq<V>>,
    owner: Seq<char>,
    seed: Option<V>,
    records: Seq<V>,
)
    ensures
        appended_all(m, owner, seed, records).dom().contains(owner) || records.len() == 0,
        listing(appended_all(m, owner, seed, records), owner, seed) == listing(m, owner, seed)
            + records,
        listing(appended_all(m, owner, seed, records), owner, seed).len() == listing(
            m,
            owner,
            seed,
        ).len() + records.len(),
        forall|k: int|
            listing(m, owner, seed).len() <= k < listing(m, owner, seed).len() + records.len()
                ==> #[trigger] listing(appended_all(m, owner, seed, records), owner, seed)[k]
                == records[k - listing(m, owner, seed).len()],
    decreases records.len(),
{
    if records.len() > 0 {
        lemma_appends_in_order(m, owner, seed, records.drop_last());
        assert(records =~= records.drop_last().push(records.last()));
        assert(listing(appended_all(m, owner, seed, records), owner, seed) =~= listing(
            m,
            owner,
            seed,
        ) + records);
    } else {
        assert(listing(m, owner, seed) + records =~= listing(m, owner, seed));
    }
}

/// Appends for one owner leave every other owner's collection as it was.
pub proof fn lemma_appends_frame<V>(
    m: Map<Seq<char>, Seq<V>>,
    owner: Seq<char>,
    seed: Option<V>,
    records: Seq<V>,
    other: Seq<char>,
)
    requires
        other != owner,
    ensures
        appended_all(m, owner, seed, records).dom().contains(other) == m.dom().contains(other),
        listing(appended_all(m, owner, seed, records), other, seed) == listing(m, other, seed),
    decreases records.len(),
{
    if records.len() > 0 {
        lemma_appends_frame(m, owner, seed, records.drop_last(), other);
    }
}

/// After a reset the owner reads what a never seen owner reads, whatever
/// was appended before.
pub proof fn lemma_reset_then_read<V>(
    m: Map<Seq<char>, Seq<V>>,
    owner: Seq<char>,
    seed: Option<V>,
    records: Seq<V>,
)
    ensures
        !appended_all(m, owner, seed, records).remove(owner).dom().contains(owner),
        listing(appended_all(m, owner, seed, records).remove(owner), owner, seed) == initial(seed),
{
}

/// A reset for an owner who has no collection leaves the store unchanged.
pub proof fn lemma_reset_unseen<V>(m: Map<Seq<char>, Seq<V>>, owner: Seq<char>)
    requires
        !m.dom().contains(owner),
    ensures
        m.remove(owner) == m,
{
    assert(m.remove(owner) =~= m);
}

/// A reset leaves every other owner's collection as it was.
pub proof fn lemma_reset_frame<V>(
    m: Map<Seq<char>, Seq<V>>,
    owner: Seq<char>,
    seed: Option<V>,
    other: Seq<char>,
)
    requires
        other != owner,
    ensures
        m.remove(owner).dom().contains(other) == m.dom().contains(other),
        listing(m.remove(owner), other, seed) == listing(m, other, seed),
{
}

/// Categories added one after the other stand in the order of the calls,
/// behind what the owner had, with the fields that were handed in and with
/// identifiers that go up by one from the length before the first call,
/// plus one.
pub proof fn lemma_category_ids(
    m: Map<Seq<char>, Seq<CategoryView>>,
    owner: Seq<char>,
    seed: Option<CategoryView>,
    calls: Seq<CategoryFields>,
)
    ensures
        listing(categories_added(m, owner, seed, calls), owner, seed).len() == listing(
            m,
            owner,
            seed,
        ).len() + calls.len(),
        forall|i: int|
            0 <= i < listing(m, owner, seed).len() ==> listing(
                categories_added(m, owner, seed, calls),
                owner,
                seed,
            )[i] == listing(m, owner, seed)[i],
        forall|k: int|
            listing(m, owner, seed).len() <= k < listing(m, owner, seed).len() + calls.len()
                ==> #[trigger] listing(categories_added(m, owner, seed, calls), owner, seed)[k]
                == (CategoryView {
                id: (k + 1) as nat,
                title: calls[k - listing(m, owner, seed).len()].title,
                color: calls[k - listing(m, owner, seed).len()].color,
            }),
    decreases calls.len(),
{
    if calls.len() > 0 {
        let earlier = calls.drop_last();
        lemma_category_ids(m, owner, seed, earlier);
        let start = listing(m, owner, seed).len();
        let before = listing(categories_added(m, owner, seed, earlier), owner, seed);
        let after = listing(categories_added(m, owner, seed, calls), owner, seed);
        assert(after == before.push(
            next_category(
                categories_added(m, owner, seed, earlier),
                owner,
                seed,
                calls.last().title,
                calls.last().color,
            ),
        ));
        assert forall|k: int| start <= k < start + calls.len() implies #[trigger] after[k] == (
        CategoryView {
            id: (k + 1) as nat,
            title: calls[k - start].title,
            color: calls[k - start].color,
        }) by {
            if k < start + earlier.len() {
                assert(after[k] == before[k]);
                assert(earlier[k - start] == calls[k - start]);
            }
        }
        assert forall|i: int| 0 <= i < start implies after[i] == listing(m, owner, seed)[i] by {
            assert(after[i] == before[i]);
        }
    }
}

/// In a store whose collections are born empty, the categories added for a
/// never seen owner carry the identifiers 1, 2, 3 and so on.
pub proof fn lemma_category_ids_from_one(
    m: Map<Seq<char>, Seq<CategoryView>>,
    owner: Seq<char>,
    calls: Seq<CategoryFields>,
)
    requires
        !m.dom().contains(owner),
    ensures
        listing(categories_added(m, owner, None, calls), owner, None).len() == calls.len(),
        forall|i: int|
            0 <= i < calls.len() ==> (#[trigger] listing(
                categories_added(m, owner, None, calls),
                owner,
                None,
            )[i]).id == i + 1,
        forall|i: int, j: int|
            0 <= i < j < calls.len() ==> listing(
                categories_added(m, owner, None, calls),
                owner,
                None,
            )[i].id < listing(categories_added(m, owner, None, calls), owner, None)[j].id,
{
    lemma_category_ids(m, owner, None, calls);
}

/// Identifiers are unique within a collection that was born in the store
/// and filled by `add_category` alone, whether it was born empty or with the
/// default category: they go up strictly along the collection.
pub proof fn lemma_category_ids_unique(
    m: Map<Seq<char>, Seq<CategoryView>>,
    owner: Seq<char>,
    seed: Option<CategoryView>,
    calls: Seq<CategoryFields>,
)
    requires
        !m.dom().contains(owner),
        seed is None || seed == Some(default_category()),
    ensures
        forall|i: int, j: int|
            0 <= i < j < listing(categories_added(m, owner, seed, calls), owner, seed).len()
                ==> listing(categories_added(m, owner, seed, calls), owner, seed)[i].id < listing(
                categories_added(m, owner, seed, calls),
                owner,
                seed,
            )[j].id,
{
    lemma_category_ids(m, owner, seed, calls);
    let start = listing(m, owner, seed).len();
    let all = listing(categories_added(m, owner, seed, calls), owner, seed);
    assert forall|i: int, j: int| 0 <= i < j < all.len() implies all[i].id < all[j].id by {
        assert(all[j].id == j + 1);
        if i < start {
            assert(all[i] == listing(m, owner, seed)[i]);
        } else {
            assert(all[i].id == i + 1);
        }
    }
}

/// Tasks added one after the other stand in the order of the calls, behind
/// what the owner had, with the fields that were handed in and with
/// identifiers that go up by one from the length before the first call.
pub proof fn lemma_task_ids(
    m: Map<Seq<char>, Seq<TaskView>>,
    owner: Seq<char>,
    calls: Seq<TaskFields>,
)
    ensures
        tasks_added(m, owner, calls).dom().contains(owner) || calls.len() == 0,
        tasks_of(tasks_added(m, owner, calls), owner).len() == tasks_of(m, owner).len()
            + calls.len(),
        forall|i: int|
            0 <= i < tasks_of(m, owner).len() ==> tasks_of(tasks_added(m, owner, calls), owner)[i]
                == tasks_of(m, owner)[i],
        forall|k: int|
            tasks_of(m, owner).len() <= k < tasks_of(m, owner).len() + calls.len()
                ==> #[trigger] tasks_of(tasks_added(m, owner, calls), owner)[k] == (TaskView {
                id: k as nat,
                text: calls[k - tasks_of(m, owner).len()].text,
                category_id: calls[k - tasks_of(m, owner).len()].category_id,
                timestamp: calls[k - tasks_of(m, owner).len()].timestamp,
            }),
    decreases calls.len(),
{
    if calls.len() > 0 {
        let earlier = calls.drop_last();
        lemma_task_ids(m, owner, earlier);
        let start = tasks_of(m, owner).len();
        let before = tasks_of(tasks_added(m, owner, earlier), owner);
        let after = tasks_of(tasks_added(m, owner, calls), owner);
        assert(after == before.push(
            next_task(
                tasks_added(m, owner, earlier),
                owner,
                calls.last().text,
                calls.last().category_id,
                calls.last().timestamp,
            ),
        ));
        assert forall|k: int| start <= k < start + calls.len() implies #[trigger] after[k] == (
        TaskView {
            id: k as nat,
            text: calls[k - start].text,
            category_id: calls[k - start].category_id,
            timestamp: calls[k - start].timestamp,
        }) by {
            if k < start + earlier.len() {
                assert(after[k] == before[k]);
                assert(earlier[k - start] == calls[k - start]);
            }
        }
        assert forall|i: int| 0 <= i < start implies after[i] == tasks_of(m, owner)[i] by {
            assert(after[i] == before[i]);
        }
    }
}

/// The tasks added for a never seen owner carry the identifiers 0, 1, 2
/// and so on: each task's identifier is its place in the collection.
pub proof fn lemma_task_ids_from_zero(
    m: Map<Seq<char>, Seq<TaskView>>,
    owner: Seq<char>,
    calls: Seq<TaskFields>,
)
    requires
        !m.dom().contains(owner),
    ensures
        tasks_of(tasks_added(m, owner, calls), owner).len() == calls.len(),
        forall|i: int|
            0 <= i < calls.len() ==> (#[trigger] tasks_of(
                tasks_added(m, owner, calls),
                owner,
            )[i]).id == i,
        forall|i: int, j: int|
            0 <= i < j < calls.len() ==> tasks_of(tasks_added(m, owner, calls), owner)[i].id
                < tasks_of(tasks_added(m, owner, calls), owner)[j].id,
{
    lemma_task_ids(m, owner, calls);
}

} // verus!
