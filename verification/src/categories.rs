//! Categories: each owner's ordered list of named, coloured categories.
//!
//! Identifiers are sequential and start at one: a new category takes the
//! length of its owner's collection before the append, plus one.

use crate::store::{appended, listing, materialized, views, Record, Store};
use crate::text::{decimal, field, push_field, push_number_field, push_tabs, tabs};
use vstd::prelude::*;

verus! {

/// One category of one owner.
#[derive(Debug, PartialEq, Eq)]
pub struct Category {
    pub id: u64,
    pub title: String,
    pub color: String,
}

/// What a [`Category`] stands for.
pub ghost struct CategoryView {
    pub id: nat,
    pub title: Seq<char>,
    pub color: Seq<char>,
}

impl View for Category {
    type V = CategoryView;

    open spec fn view(&self) -> CategoryView {
        CategoryView { id: self.id as nat, title: self.title@, color: self.color@ }
    }
}

impl Clone for Category {
    fn clone(&self) -> (copy: Self)
        ensures
            copy@ == self@,
    {
        Category { id: self.id, title: self.title.clone(), color: self.color.clone() }
    }
}

impl Record for Category {
    fn duplicate(&self) -> (copy: Self) {
        self.clone()
    }
}

/// The category that a collection is born with, in a store that seeds its
/// collections.
pub open spec fn default_category() -> CategoryView {
    CategoryView { id: 0, title: "default"@, color: "orange"@ }
}

/// The category that `add_category` builds for `owner`.
pub open spec fn next_category(
    m: Map<Seq<char>, Seq<CategoryView>>,
    owner: Seq<char>,
    seed: Option<CategoryView>,
    title: Seq<char>,
    color: Seq<char>,
) -> CategoryView {
    CategoryView { id: listing(m, owner, seed).len() + 1, title, color }
}

/// Every owner's categories.
pub struct Categories {
    values: Store<Category>,
}

impl View for Categories {
    type V = Map<Seq<char>, Seq<CategoryView>>;

    closed spec fn view(&self) -> Map<Seq<char>, Seq<CategoryView>> {
        self.values@
    }
}

impl Categories {
    /// The category that new collections are born with, if any.
    pub closed spec fn seed(&self) -> Option<CategoryView> {
        self.values.seed()
    }

    /// A store without collections, in which a collection is born empty.
    pub fn new() -> (store: Self)
        ensures
            store@ == Map::<Seq<char>, Seq<CategoryView>>::empty(),
            store.seed() is None,
    {
        Categories { values: Store::new(None) }
    }

    /// A store without collections, in which a collection is born holding
    /// the default category.
    pub fn with_default() -> (store: Self)
        ensures
            store@ == Map::<Seq<char>, Seq<CategoryView>>::empty(),
            store.seed() == Some(default_category()),
    {
        Categories { values: Store::new(Some(Self::get_default())) }
    }

    /// The default category: identifier 0, title "default", colour "orange".
    pub fn get_default() -> (category: Category)
        ensures
            category@ == default_category(),
    {
        Category { id: 0, title: "default".to_owned(), color: "orange".to_owned() }
    }

    /// Deletes the whole collection of `owner`. Where the owner has none,
    /// nothing changes.
    pub fn reset(&mut self, owner: &str)
        ensures
            final(self)@ == old(self)@.remove(owner@),
            final(self).seed() == old(self).seed(),
    {
        self.values.remove(owner);
    }

    /// The categories of `owner`, in insertion order. The first read by an
    /// owner without a collection creates it where the store has a default
    /// category, and otherwise leaves the store as it is.
    pub fn get_categories(&mut self, owner: &str) -> (categories: Vec<Category>)
        ensures
            views(categories@) == listing(old(self)@, owner@, old(self).seed()),
            categories@.len() == listing(old(self)@, owner@, old(self).seed()).len(),
            final(self)@ == materialized(old(self)@, owner@, old(self).seed()),
            final(self).seed() == old(self).seed(),
    {
        self.values.list(owner)
    }

    /// How many categories `owner` sees when reading the store.
    pub fn count(&self, owner: &str) -> (n: usize)
        ensures
            n == listing(self@, owner@, self.seed()).len(),
    {
        self.values.count(owner)
    }

    /// Appends a category with the given title and colour to the collection
    /// of `owner`, creating the collection first where there is none, and
    /// returns a copy of the new category.
    pub fn add_category(&mut self, owner: &str, title: String, color: String) -> (category:
        Category)
        requires
            listing(old(self)@, owner@, old(self).seed()).len() < u64::MAX,
        ensures
            category@ == next_category(old(self)@, owner@, old(self).seed(), title@, color@),
            final(self)@ == appended(old(self)@, owner@, old(self).seed(), category@),
            final(self).seed() == old(self).seed(),
    {
        let n = self.values.count(owner);
        let category = Category { id: n as u64 + 1, title, color };
        let copy = category.clone();
        self.values.append(owner, category);
        copy
    }

    /// Appends a category whose identifier the caller has drawn, such as a
    /// random token, in place of the sequential one. Identifiers are then
    /// as unique as the caller makes them.
    pub fn add_category_with_id(
        &mut self,
        owner: &str,
        id: u64,
        title: String,
        color: String,
    ) -> (category: Category)
        ensures
            category@ == (CategoryView { id: id as nat, title: title@, color: color@ }),
            final(self)@ == appended(old(self)@, owner@, old(self).seed(), category@),
            final(self).seed() == old(self).seed(),
    {
        let category = Category { id, title, color };
        let copy = category.clone();
        self.values.append(owner, category);
        copy
    }

    /// The collection stored for `owner`, if there is one; nothing is
    /// created.
    pub fn get(&self, owner: &str) -> (found: Option<Vec<Category>>)
        ensures
            found is Some <==> self@.dom().contains(owner@),
            found matches Some(categories) ==> views(categories@) == self@[owner@]
                && categories@.len() == self@[owner@].len(),
    {
        self.values.get(owner)
    }

    /// Stores `categories` as the whole collection of `owner`.
    pub fn insert(&mut self, owner: &str, categories: Vec<Category>)
        ensures
            final(self)@ == old(self)@.insert(owner@, views(categories@)),
            final(self).seed() == old(self).seed(),
    {
        self.values.insert(owner, categories);
    }
}

/// The text for one category: its fields, one per line, within braces.
pub open spec fn category_block(category: CategoryView) -> Seq<char> {
    "{\n"@ + field("id"@, decimal(category.id)) + field("title"@, category.title) + field(
        "color"@,
        category.color,
    ) + "}"@
}

/// The texts of `categories`, one after the other.
pub open spec fn category_blocks(categories: Seq<CategoryView>) -> Seq<char>
    decreases categories.len(),
{
    if categories.len() == 0 {
        Seq::empty()
    } else {
        category_blocks(categories.drop_last()) + category_block(categories.last())
    }
}

/// The readable text of a list of categories: a line break, three tabs for
/// each category, a line break, then the categories within square brackets
/// and a closing line break.
pub open spec fn categories_text(categories: Seq<CategoryView>) -> Seq<char> {
    "\n"@ + tabs(3 * categories.len()) + "\n["@ + category_blocks(categories) + "]\n"@
}

/// Renders `categories` as readable text.
pub fn categories_format_output(categories: &Vec<Category>) -> (output: String)
    ensures
        output@ == categories_text(views(categories@)),
{
    let ghost all = views(categories@);
    let mut output = "\n".to_owned();
    let mut i: usize = 0;
    while i < categories.len()
        invariant
            i <= categories@.len(),
            output@ == "\n"@ + tabs(3 * i as nat),
        decreases categories@.len() - i,
    {
        push_tabs(&mut output, 3);
        i += 1;
        assert(output@ =~= "\n"@ + tabs(3 * i as nat));
    }
    output.append("\n[");
    let ghost head = output@;
    let mut i: usize = 0;
    while i < categories.len()
        invariant
            i <= categories@.len(),
            all == views(categories@),
            output@ == head + category_blocks(all.take(i as int)),
        decreases categories@.len() - i,
    {
        let ghost before = output@;
        let category = &categories[i];
        output.append("{\n");
        push_number_field(&mut output, "id", category.id);
        push_field(&mut output, "title", category.title.as_str());
        push_field(&mut output, "color", category.color.as_str());
        output.append("}");
        i += 1;
        proof {
            assert(all.take(i as int).drop_last() =~= all.take(i - 1));
            assert(all.take(i as int).last() == category@);
            assert(output@ =~= before + category_block(category@));
            assert(output@ =~= head + category_blocks(all.take(i as int)));
        }
    }
    output.append("]\n");
    proof {
        assert(all.take(categories@.len() as int) =~= all);
        assert(output@ =~= categories_text(all));
    }
    output
}

/// The category used as a sample in examples.
pub fn get_testing_category() -> (category: Category)
    ensures
        category@ == (CategoryView { id: 0, title: "testing_title"@, color: "testing_color"@ }),
{
    Category { id: 0, title: "testing_title".to_owned(), color: "testing_color".to_owned() }
}

} // verus!
