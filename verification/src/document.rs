//! The document backend.
//!
//! The whole catalog is one in-memory structure: a collection of items, each
//! carrying its own (denormalized) section label and recipe references, a
//! recipe catalog, declared sections, and the three working name lists.  The
//! same operations as the relational backend, specified against the same
//! name-level view.

use vstd::prelude::*;

use crate::store::StoreError;
use crate::view::{
    name_set, names_distinct, pairs_with, spec_add_checklist_item, spec_add_item,
    spec_add_list_item, spec_add_list_recipe, spec_add_recipe, spec_delete_checklist_item,
    spec_delete_recipe, spec_refresh_list, StoreView,
};

verus! {

/// One item of the document: its name, an optional section label, and the
/// names of the recipes it is an ingredient of.
pub struct DocItem {
    pub name: String,
    pub section: Option<String>,
    pub recipes: Vec<String>,
}

/// Some item of the collection carries this name.
pub open spec fn doc_has_item(items: Seq<DocItem>, n: Seq<char>) -> bool {
    exists|i: int| 0 <= i < items.len() && items[i].name@ == n
}

/// The item names of a collection.
pub open spec fn doc_item_names(items: Seq<DocItem>) -> Set<Seq<char>> {
    Set::new(|n: Seq<char>| doc_has_item(items, n))
}

/// The item-recipe relation a collection embeds.
pub open spec fn doc_item_recipe_pairs(items: Seq<DocItem>) -> Set<(Seq<char>, Seq<char>)> {
    Set::new(
        |p: (Seq<char>, Seq<char>)|
            exists|i: int|
                0 <= i < items.len() && (#[trigger] items[i]).name@ == p.0 && name_set(
                    items[i].recipes@,
                ).contains(p.1),
    )
}

/// The item-section relation a collection embeds.
pub open spec fn doc_item_section_pairs(items: Seq<DocItem>) -> Set<(Seq<char>, Seq<char>)> {
    Set::new(
        |p: (Seq<char>, Seq<char>)|
            exists|i: int|
                0 <= i < items.len() && (#[trigger] items[i]).name@ == p.0 && (items[i].section
                    matches Some(s) && s@ == p.1),
    )
}

/// The document store.
///
/// The fields are public so that the specifications can speak about them;
/// treat them as read-only outside this module.
pub struct DocumentStore {
    /// The item collection, each item with its embedded references.
    pub collection: Vec<DocItem>,
    /// The recipe catalog.
    pub recipes: Vec<String>,
    /// The declared section names.
    pub sections: Vec<String>,
    /// Names of the items on the shopping list.
    pub list_items: Vec<String>,
    /// Names of the recipes on the shopping list.
    pub list_recipes: Vec<String>,
    /// Names of the items on the checklist.
    pub checklist: Vec<String>,
}

impl View for DocumentStore {
    type V = StoreView;

    open spec fn view(&self) -> StoreView {
        StoreView {
            items: doc_item_names(self.collection@),
            recipes: name_set(self.recipes@),
            sections: name_set(self.sections@),
            list_items: name_set(self.list_items@),
            list_recipes: name_set(self.list_recipes@),
            checklist: name_set(self.checklist@),
            item_recipes: doc_item_recipe_pairs(self.collection@),
            item_sections: doc_item_section_pairs(self.collection@),
        }
    }
}

impl DocumentStore {
    /// The document invariant: unique names everywhere, every embedded
    /// recipe reference in the recipe catalog, every embedded section label
    /// declared, and the working lists referencing known entities.
    pub open spec fn wf(self) -> bool {
        &&& forall|i: int, j: int|
            0 <= i < j < self.collection@.len() ==> self.collection@[i].name@
                != self.collection@[j].name@
        &&& names_distinct(self.recipes@)
        &&& names_distinct(self.sections@)
        &&& names_distinct(self.list_items@)
        &&& names_distinct(self.list_recipes@)
        &&& names_distinct(self.checklist@)
        &&& forall|i: int|
            0 <= i < self.collection@.len() ==> names_distinct(
                (#[trigger] self.collection@[i]).recipes@,
            ) && name_set(self.collection@[i].recipes@).subset_of(name_set(self.recipes@))
        &&& forall|i: int|
            0 <= i < self.collection@.len() ==> ((#[trigger] self.collection@[i]).section matches
            Some(s) ==> name_set(self.sections@).contains(s@))
        &&& forall|t: int|
            0 <= t < self.list_items@.len() ==> doc_has_item(
                self.collection@,
                (#[trigger] self.list_items@[t])@,
            )
        &&& forall|t: int|
            0 <= t < self.list_recipes@.len() ==> name_set(self.recipes@).contains(
                (#[trigger] self.list_recipes@[t])@,
            )
        &&& forall|t: int|
            0 <= t < self.checklist@.len() ==> doc_has_item(
                self.collection@,
                (#[trigger] self.checklist@[t])@,
            )
    }

    /// An empty document store.
    pub fn new() -> (s: DocumentStore)
        ensures
            s.wf(),
            s@ == crate::view::empty_view(),
    {
        let s = DocumentStore {
            collection: Vec::new(),
            recipes: Vec::new(),
            sections: Vec::new(),
            list_items: Vec::new(),
            list_recipes: Vec::new(),
            checklist: Vec::new(),
        };
        proof {
            assert(s@ =~= crate::view::empty_view());
        }
        s
    }
}

/// Taking one more item of a collection inserts its name.
pub proof fn lemma_doc_item_names_take_step(items: Seq<DocItem>, k: int)
    requires
        0 <= k < items.len(),
    ensures
        doc_item_names(items.take(k + 1)) == doc_item_names(items.take(k)).insert(items[k].name@),
{
    let pre = items.take(k);
    let post = items.take(k + 1);
    assert(post =~= pre.push(items[k]));
    assert forall|n: Seq<char>|
        doc_item_names(post).contains(n) == doc_item_names(pre).insert(items[k].name@).contains(
            n,
        ) by {
        if doc_has_item(post, n) {
            let i = choose|i: int| 0 <= i < post.len() && post[i].name@ == n;
            if i < k {
                assert(pre[i].name@ == n);
            } else {
                assert(n == items[k].name@);
            }
        }
        if n == items[k].name@ {
            assert(post[k].name@ == n);
        }
        if doc_has_item(pre, n) {
            let i = choose|i: int| 0 <= i < pre.len() && pre[i].name@ == n;
            assert(post[i].name@ == n);
        }
    }
    assert(doc_item_names(post) =~= doc_item_names(pre).insert(items[k].name@));
}

/// The name pairs one item contributes to the item-recipe relation.
pub open spec fn pairs_for_item(nm: Seq<char>, rs: Set<Seq<char>>) -> Set<(Seq<char>, Seq<char>)> {
    Set::new(|p: (Seq<char>, Seq<char>)| p.0 == nm && rs.contains(p.1))
}

/// Taking one more item of a collection adds exactly its recipe pairs.
pub proof fn lemma_doc_item_recipe_pairs_take_step(items: Seq<DocItem>, k: int)
    requires
        0 <= k < items.len(),
    ensures
        doc_item_recipe_pairs(items.take(k + 1)) == doc_item_recipe_pairs(items.take(k)).union(
            pairs_for_item(items[k].name@, name_set(items[k].recipes@)),
        ),
{
    let pre = items.take(k);
    let post = items.take(k + 1);
    assert(post =~= pre.push(items[k]));
    assert forall|p: (Seq<char>, Seq<char>)|
        doc_item_recipe_pairs(post).contains(p) == doc_item_recipe_pairs(pre).union(
            pairs_for_item(items[k].name@, name_set(items[k].recipes@)),
        ).contains(p) by {
        if doc_item_recipe_pairs(post).contains(p) {
            let i = choose|i: int|
                0 <= i < post.len() && (#[trigger] post[i]).name@ == p.0 && name_set(
                    post[i].recipes@,
                ).contains(p.1);
            if i < k {
                assert(pre[i] == post[i]);
                assert(doc_item_recipe_pairs(pre).contains(p));
            } else {
                assert(post[i] == items[k]);
            }
        }
        if pairs_for_item(items[k].name@, name_set(items[k].recipes@)).contains(p) {
            assert(post[k] == items[k]);
            assert(doc_item_recipe_pairs(post).contains(p));
        }
        if doc_item_recipe_pairs(pre).contains(p) {
            let i = choose|i: int|
                0 <= i < pre.len() && (#[trigger] pre[i]).name@ == p.0 && name_set(
                    pre[i].recipes@,
                ).contains(p.1);
            assert(post[i] == pre[i]);
            assert(doc_item_recipe_pairs(post).contains(p));
        }
    }
    assert(doc_item_recipe_pairs(post) =~= doc_item_recipe_pairs(pre).union(
        pairs_for_item(items[k].name@, name_set(items[k].recipes@)),
    ));
}

/// Taking one more item of a collection adds its section pair, when it has
/// one.
pub proof fn lemma_doc_item_section_pairs_take_step(items: Seq<DocItem>, k: int)
    requires
        0 <= k < items.len(),
    ensures
        items[k].section matches Some(s) ==> doc_item_section_pairs(items.take(k + 1))
            == doc_item_section_pairs(items.take(k)).insert((items[k].name@, s@)),
        items[k].section is None ==> doc_item_section_pairs(items.take(k + 1))
            == doc_item_section_pairs(items.take(k)),
{
    let pre = items.take(k);
    let post = items.take(k + 1);
    assert(post =~= pre.push(items[k]));
    if items[k].section is Some {
        let s = items[k].section->0;
        assert forall|p: (Seq<char>, Seq<char>)|
            doc_item_section_pairs(post).contains(p) == doc_item_section_pairs(pre).insert(
                (items[k].name@, s@),
            ).contains(p) by {
            if doc_item_section_pairs(post).contains(p) {
                let i = choose|i: int|
                    0 <= i < post.len() && (#[trigger] post[i]).name@ == p.0 && (post[i].section
                        matches Some(t) && t@ == p.1);
                if i < k {
                    assert(pre[i] == post[i]);
                    assert(doc_item_section_pairs(pre).contains(p));
                } else {
                    assert(post[i] == items[k]);
                    assert(p == (items[k].name@, s@));
                }
            }
            if p == (items[k].name@, s@) {
                assert(post[k] == items[k]);
                assert(doc_item_section_pairs(post).contains(p));
            }
            if doc_item_section_pairs(pre).contains(p) {
                let i = choose|i: int|
                    0 <= i < pre.len() && (#[trigger] pre[i]).name@ == p.0 && (pre[i].section
                        matches Some(t) && t@ == p.1);
                assert(post[i] == pre[i]);
                assert(doc_item_section_pairs(post).contains(p));
            }
        }
        assert(doc_item_section_pairs(post) =~= doc_item_section_pairs(pre).insert(
            (items[k].name@, s@),
        ));
    } else {
        assert forall|p: (Seq<char>, Seq<char>)|
            doc_item_section_pairs(post).contains(p) == doc_item_section_pairs(pre).contains(
                p,
            ) by {
            if doc_item_section_pairs(post).contains(p) {
                let i = choose|i: int|
                    0 <= i < post.len() && (#[trigger] post[i]).name@ == p.0 && (post[i].section
                        matches Some(t) && t@ == p.1);
                assert(i < k);
                assert(pre[i] == post[i]);
                assert(doc_item_section_pairs(pre).contains(p));
            }
            if doc_item_section_pairs(pre).contains(p) {
                let i = choose|i: int|
                    0 <= i < pre.len() && (#[trigger] pre[i]).name@ == p.0 && (pre[i].section
                        matches Some(t) && t@ == p.1);
                assert(post[i] == pre[i]);
                assert(doc_item_section_pairs(post).contains(p));
            }
        }
        assert(doc_item_section_pairs(post) =~= doc_item_section_pairs(pre));
    }
}

} // verus!

verus! {

/// Clone a list of names.
fn clone_names(names: &Vec<String>) -> (r: Vec<String>)
    ensures
        r@.len() == names@.len(),
        forall|i: int| 0 <= i < names@.len() ==> r@[i]@ == names@[i]@,
        name_set(r@) == name_set(names@),
        names_distinct(names@) ==> names_distinct(r@),
{
    let len = names.len();
    let mut out: Vec<String> = Vec::new();
    let mut i: usize = 0;
    while i < len
        invariant
            len == names@.len(),
            0 <= i <= len,
            out@.len() == i,
            forall|j: int| 0 <= j < i ==> out@[j]@ == names@[j]@,
        decreases len - i,
    {
        out.push(names[i].clone());
        i += 1;
    }
    proof {
        assert forall|n: Seq<char>|
            name_set(out@).contains(n) == name_set(names@).contains(n) by {
            crate::relational::lemma_name_set_contains(out@, n);
            crate::relational::lemma_name_set_contains(names@, n);
        }
        assert(name_set(out@) =~= name_set(names@));
    }
    out
}

/// Add a name to a list unless it is already there.
pub(crate) fn push_name(names: &mut Vec<String>, n: &String)
    requires
        names_distinct(old(names)@),
    ensures
        names_distinct(final(names)@),
        name_set(final(names)@) == name_set(old(names)@).insert(n@),
        final(names)@ == if name_set(old(names)@).contains(n@) {
            old(names)@
        } else {
            old(names)@.push(*n)
        },
{
    let ghost names0 = names@;
    if !crate::relational::contains_name(names, n) {
        names.push(n.clone());
        proof {
            assert(names@ =~= names0.push(*n));
            crate::relational::lemma_name_set_push(names0, *n);
            assert forall|j1: int, j2: int| 0 <= j1 < j2 < names@.len() implies names@[j1]@
                != names@[j2]@ by {
                if j2 == names0.len() {
                    crate::relational::lemma_name_set_contains(names0, names@[j1]@);
                }
            }
        }
    } else {
        proof {
            assert(name_set(names@).insert(n@) =~= name_set(names@));
        }
    }
}

/// Remove a name from a list, wherever it stands.
pub(crate) fn remove_name(names: &mut Vec<String>, n: &String)
    requires
        names_distinct(old(names)@),
    ensures
        names_distinct(final(names)@),
        name_set(final(names)@) == name_set(old(names)@).remove(n@),
        forall|j: int| 0 <= j < final(names)@.len() ==> (#[trigger] final(names)@[j])@ != n@,
        forall|j: int|
            0 <= j < final(names)@.len() ==> name_set(old(names)@).contains(
                (#[trigger] final(names)@[j])@,
            ),
{
    let ghost names0 = names@;
    let len = names.len();
    let mut kept: Vec<String> = Vec::new();
    let mut i: usize = 0;
    while i < len
        invariant
            len == names0.len(),
            names@ == names0,
            0 <= i <= len,
            names_distinct(names0),
            names_distinct(kept@),
            forall|j: int| 0 <= j < kept@.len() ==> (#[trigger] kept@[j])@ != n@,
            forall|x: Seq<char>|
                name_set(kept@).contains(x) <==> (name_set(names0.take(i as int)).contains(x) && x
                    != n@),
        decreases len - i,
    {
        let ghost kept0 = kept@;
        if !(names[i] == *n) {
            kept.push(names[i].clone());
            proof {
                assert(kept@ =~= kept0.push(names0[i as int]));
                crate::relational::lemma_name_set_push(kept0, names0[i as int]);
                assert forall|j1: int, j2: int| 0 <= j1 < j2 < kept@.len() implies kept@[j1]@
                    != kept@[j2]@ by {
                    if j2 == kept0.len() {
                        crate::relational::lemma_name_set_contains(kept0, kept@[j1]@);
                        let t = choose|t: int| 0 <= t < kept0.len() && kept0[t]@ == kept@[j1]@;
                    }
                }
            }
        }
        proof {
            assert(names0.take(i + 1) =~= names0.take(i as int).push(names0[i as int]));
            crate::relational::lemma_name_set_push(names0.take(i as int), names0[i as int]);
        }
        i += 1;
    }
    proof {
        assert(names0.take(len as int) =~= names0);
        assert(name_set(kept@) =~= name_set(names0).remove(n@));
        assert forall|j: int| 0 <= j < kept@.len() implies name_set(names0).contains(
            (#[trigger] kept@[j])@,
        ) by {
            crate::relational::lemma_name_set_contains(kept@, kept@[j]@);
            assert(name_set(kept@).contains(kept@[j]@));
        }
    }
    *names = kept;
}

/// Find the index of the item carrying a name.
fn doc_find_item(collection: &Vec<DocItem>, name: &String) -> (r: Option<usize>)
    ensures
        match r {
            Some(i) => i < collection@.len() && collection@[i as int].name@ == name@,
            None => !doc_has_item(collection@, name@),
        },
{
    let len = collection.len();
    let mut i: usize = 0;
    while i < len
        invariant
            len == collection@.len(),
            0 <= i <= len,
            forall|j: int| 0 <= j < i ==> collection@[j].name@ != name@,
        decreases len - i,
    {
        if collection[i].name == *name {
            return Some(i);
        }
        i += 1;
    }
    return None;
}

/// Pushing an item with no references adds exactly its name.
pub proof fn lemma_doc_push_item(c: Seq<DocItem>, it: DocItem)
    requires
        it.recipes@.len() == 0,
        it.section is None,
    ensures
        doc_item_names(c.push(it)) == doc_item_names(c).insert(it.name@),
        doc_item_recipe_pairs(c.push(it)) == doc_item_recipe_pairs(c),
        doc_item_section_pairs(c.push(it)) == doc_item_section_pairs(c),
{
    let c2 = c.push(it);
    assert(c2.take(c.len() as int) =~= c);
    assert(c2.take(c.len() as int + 1) =~= c2);
    assert(c2[c.len() as int] == it);
    lemma_doc_item_names_take_step(c2, c.len() as int);
    lemma_doc_item_recipe_pairs_take_step(c2, c.len() as int);
    lemma_doc_item_section_pairs_take_step(c2, c.len() as int);
    assert forall|n: Seq<char>| !name_set(it.recipes@).contains(n) by {
        crate::relational::lemma_name_set_contains(it.recipes@, n);
    }
    assert(name_set(it.recipes@) =~= Set::<Seq<char>>::empty());
    assert forall|p: (Seq<char>, Seq<char>)|
        !pairs_for_item(it.name@, name_set(it.recipes@)).contains(p) by {}
    assert(pairs_for_item(it.name@, name_set(it.recipes@)) =~= Set::<
        (Seq<char>, Seq<char>),
    >::empty());
    assert(doc_item_recipe_pairs(c).union(pairs_for_item(it.name@, name_set(it.recipes@)))
        =~= doc_item_recipe_pairs(c));
}

impl DocumentStore {
    /// Ensure an item of this name exists in the collection.
    fn ensure_doc_item(&mut self, name: &String)
        requires
            old(self).wf(),
        ensures
            final(self).wf(),
            final(self)@ == spec_add_item(old(self)@, name@),
            doc_has_item(final(self).collection@, name@),
            final(self).recipes == old(self).recipes,
            final(self).sections == old(self).sections,
            final(self).list_items == old(self).list_items,
            final(self).list_recipes == old(self).list_recipes,
            final(self).checklist == old(self).checklist,
            forall|n: Seq<char>|
                doc_has_item(old(self).collection@, n) ==> doc_has_item(
                    final(self).collection@,
                    n,
                ),
    {
        let ghost c0 = self.collection@;
        match doc_find_item(&self.collection, name) {
            Some(_) => {
                proof {
                    assert(doc_item_names(c0).insert(name@) =~= doc_item_names(c0));
                    assert(self@ =~= spec_add_item(old(self)@, name@));
                }
            },
            None => {
                let it = DocItem { name: name.clone(), section: None, recipes: Vec::new() };
                proof {
                    assert(it.name@ == name@);
                }
                self.collection.push(it);
                proof {
                    lemma_doc_push_item(c0, DocItem { name: *name, section: None, recipes: it.recipes });
                    assert(self.collection@ =~= c0.push(
                        DocItem { name: *name, section: None, recipes: it.recipes },
                    ));
                    assert(self@ =~= spec_add_item(old(self)@, name@));
                    assert(self.collection@[c0.len() as int].name@ == name@);
                    assert forall|n: Seq<char>| doc_has_item(c0, n) implies doc_has_item(
                        self.collection@,
                        n,
                    ) by {
                        let i = choose|i: int| 0 <= i < c0.len() && c0[i].name@ == n;
                        assert(self.collection@[i].name@ == n);
                    }
                    assert forall|i: int, j: int|
                        0 <= i < j < self.collection@.len() implies self.collection@[i].name@
                        != self.collection@[j].name@ by {
                        if j == c0.len() {
                            assert(c0[i].name@ != name@);
                        }
                    }
                    assert forall|t: int| 0 <= t < self.list_items@.len() implies doc_has_item(
                        self.collection@,
                        (#[trigger] self.list_items@[t])@,
                    ) by {
                        assert(doc_has_item(c0, self.list_items@[t]@));
                        let i = choose|i: int|
                            0 <= i < c0.len() && c0[i].name@ == self.list_items@[t]@;
                        assert(self.collection@[i].name@ == self.list_items@[t]@);
                    }
                    assert forall|t: int| 0 <= t < self.checklist@.len() implies doc_has_item(
                        self.collection@,
                        (#[trigger] self.checklist@[t])@,
                    ) by {
                        assert(doc_has_item(c0, self.checklist@[t]@));
                        let i = choose|i: int|
                            0 <= i < c0.len() && c0[i].name@ == self.checklist@[t]@;
                        assert(self.collection@[i].name@ == self.checklist@[t]@);
                    }
                }
            },
        }
    }

    /// Upsert an item into the catalog.
    pub fn add_item(&mut self, item: &str) -> (r: Result<(), StoreError>)
        requires
            old(self).wf(),
        ensures
            final(self).wf(),
            r is Ok,
            final(self)@ == spec_add_item(old(self)@, item@),
    {
        let name: String = item.to_owned();
        self.ensure_doc_item(&name);
        Ok(())
    }

    /// Upsert an item, then mark it on the checklist.
    pub fn add_checklist_item(&mut self, item: &str) -> (r: Result<(), StoreError>)
        requires
            old(self).wf(),
        ensures
            final(self).wf(),
            r is Ok,
            final(self)@ == spec_add_checklist_item(old(self)@, item@),
    {
        let name: String = item.to_owned();
        self.ensure_doc_item(&name);
        push_name(&mut self.checklist, &name);
        proof {
            assert forall|t: int| 0 <= t < self.checklist@.len() implies doc_has_item(
                self.collection@,
                (#[trigger] self.checklist@[t])@,
            ) by {
                if !(name_set(old(self).checklist@).contains(name@)) && t
                    == old(self).checklist@.len() {
                } else {
                }
            }
            assert(self@ =~= spec_add_checklist_item(old(self)@, item@));
        }
        Ok(())
    }

    /// Upsert an item, then mark it on the shopping list.
    pub fn add_list_item(&mut self, item: &str) -> (r: Result<(), StoreError>)
        requires
            old(self).wf(),
        ensures
            final(self).wf(),
            r is Ok,
            final(self)@ == spec_add_list_item(old(self)@, item@),
    {
        let name: String = item.to_owned();
        self.ensure_doc_item(&name);
        push_name(&mut self.list_items, &name);
        proof {
            assert forall|t: int| 0 <= t < self.list_items@.len() implies doc_has_item(
                self.collection@,
                (#[trigger] self.list_items@[t])@,
            ) by {
                if !(name_set(old(self).list_items@).contains(name@)) && t
                    == old(self).list_items@.len() {
                } else {
                }
            }
            assert(self@ =~= spec_add_list_item(old(self)@, item@));
        }
        Ok(())
    }

    /// Clear all list-item and list-recipe marks; the catalog and the
    /// checklist are untouched.
    pub fn refresh_list(&mut self) -> (r: Result<(), StoreError>)
        requires
            old(self).wf(),
        ensures
            final(self).wf(),
            r is Ok,
            final(self)@ == spec_refresh_list(old(self)@),
    {
        self.list_items.clear();
        self.list_recipes.clear();
        proof {
            assert forall|n: Seq<char>| !name_set(self.list_items@).contains(n) by {
                crate::relational::lemma_name_set_contains(self.list_items@, n);
            }
            assert(name_set(self.list_items@) =~= Set::<Seq<char>>::empty());
            assert forall|n: Seq<char>| !name_set(self.list_recipes@).contains(n) by {
                crate::relational::lemma_name_set_contains(self.list_recipes@, n);
            }
            assert(name_set(self.list_recipes@) =~= Set::<Seq<char>>::empty());
            assert(self@ =~= spec_refresh_list(old(self)@));
        }
        Ok(())
    }

    /// Full read of the item catalog, in collection order.
    pub fn items(&self) -> (r: Result<Vec<String>, StoreError>)
        requires
            self.wf(),
        ensures
            r is Ok,
            r matches Ok(names) ==> name_set(names@) == self@.items && names_distinct(names@),
    {
        let len = self.collection.len();
        let mut out: Vec<String> = Vec::new();
        let mut i: usize = 0;
        while i < len
            invariant
                len == self.collection@.len(),
                0 <= i <= len,
                out@.len() == i,
                forall|j: int| 0 <= j < i ==> out@[j]@ == self.collection@[j].name@,
            decreases len - i,
        {
            out.push(self.collection[i].name.clone());
            i += 1;
        }
        proof {
            assert forall|n: Seq<char>|
                name_set(out@).contains(n) == doc_item_names(self.collection@).contains(n) by {
                crate::relational::lemma_name_set_contains(out@, n);
                if name_set(out@).contains(n) {
                    let j = choose|j: int| 0 <= j < out@.len() && out@[j]@ == n;
                    assert(self.collection@[j].name@ == n);
                }
                if doc_has_item(self.collection@, n) {
                    let j = choose|j: int|
                        0 <= j < self.collection@.len() && self.collection@[j].name@ == n;
                    assert(out@[j]@ == n);
                }
            }
            assert(name_set(out@) =~= doc_item_names(self.collection@));
        }
        Ok(out)
    }

    /// Full read of the recipe catalog.
    pub fn recipes(&self) -> (r: Result<Vec<String>, StoreError>)
        requires
            self.wf(),
        ensures
            r is Ok,
            r matches Ok(names) ==> name_set(names@) == self@.recipes && names_distinct(names@),
    {
        Ok(clone_names(&self.recipes))
    }

    /// Full read of the section catalog.
    pub fn sections(&self) -> (r: Result<Vec<String>, StoreError>)
        requires
            self.wf(),
        ensures
            r is Ok,
            r matches Ok(names) ==> name_set(names@) == self@.sections && names_distinct(names@),
    {
        Ok(clone_names(&self.sections))
    }

    /// Full read of the checklist.
    pub fn checklist(&self) -> (r: Result<Vec<String>, StoreError>)
        requires
            self.wf(),
        ensures
            r is Ok,
            r matches Ok(names) ==> name_set(names@) == self@.checklist && names_distinct(names@),
    {
        Ok(clone_names(&self.checklist))
    }

    /// Full read of the items on the shopping list.
    pub fn list_items(&self) -> (r: Result<Vec<String>, StoreError>)
        requires
            self.wf(),
        ensures
            r is Ok,
            r matches Ok(names) ==> name_set(names@) == self@.list_items && names_distinct(names@),
    {
        Ok(clone_names(&self.list_items))
    }

    /// Full read of the recipes on the shopping list.
    pub fn list_recipes(&self) -> (r: Result<Vec<String>, StoreError>)
        requires
            self.wf(),
        ensures
            r is Ok,
            r matches Ok(names) ==> name_set(names@) == self@.list_recipes && names_distinct(
                names@,
            ),
    {
        Ok(clone_names(&self.list_recipes))
    }

    /// Full read of the shopping list: its items, its recipes, and the
    /// checklist.
    pub fn list(&self) -> (r: Result<crate::store::List, StoreError>)
        requires
            self.wf(),
        ensures
            r is Ok,
            r matches Ok(l) ==> name_set(l.items@) == self@.list_items && names_distinct(l.items@)
                && name_set(l.recipes@) == self@.list_recipes && names_distinct(l.recipes@)
                && name_set(l.checklist@) == self@.checklist && names_distinct(l.checklist@),
    {
        Ok(
            crate::store::List {
                items: clone_names(&self.list_items),
                recipes: clone_names(&self.list_recipes),
                checklist: clone_names(&self.checklist),
            },
        )
    }

    /// Unmark an item from the checklist; the catalog entry remains.
    pub fn delete_checklist_item(&mut self, item: &str) -> (r: Result<(), StoreError>)
        requires
            old(self).wf(),
        ensures
            final(self).wf(),
            r is Ok,
            final(self)@ == spec_delete_checklist_item(old(self)@, item@),
    {
        let name: String = item.to_owned();
        remove_name(&mut self.checklist, &name);
        proof {
            assert forall|t: int| 0 <= t < self.checklist@.len() implies doc_has_item(
                self.collection@,
                (#[trigger] self.checklist@[t])@,
            ) by {
                assert(name_set(old(self).checklist@).contains(self.checklist@[t]@));
                crate::relational::lemma_name_set_contains(
                    old(self).checklist@,
                    self.checklist@[t]@,
                );
            }
            assert(self@ =~= spec_delete_checklist_item(old(self)@, item@));
        }
        Ok(())
    }
}

} // verus!

verus! {

/// The ingredient names a collection records for one recipe name.
pub open spec fn doc_ingredients(items: Seq<DocItem>, r: Seq<char>) -> Set<Seq<char>> {
    Set::new(
        |n: Seq<char>|
            exists|i: int|
                0 <= i < items.len() && (#[trigger] items[i]).name@ == n && name_set(
                    items[i].recipes@,
                ).contains(r),
    )
}

/// One item more either adds its name (when it references the recipe) or
/// changes nothing.
pub proof fn lemma_doc_ingredients_take_step(items: Seq<DocItem>, r: Seq<char>, k: int)
    requires
        0 <= k < items.len(),
    ensures
        name_set(items[k].recipes@).contains(r) ==> doc_ingredients(items.take(k + 1), r)
            == doc_ingredients(items.take(k), r).insert(items[k].name@),
        !name_set(items[k].recipes@).contains(r) ==> doc_ingredients(items.take(k + 1), r)
            == doc_ingredients(items.take(k), r),
{
    let pre = items.take(k);
    let post = items.take(k + 1);
    assert(post =~= pre.push(items[k]));
    if name_set(items[k].recipes@).contains(r) {
        assert forall|n: Seq<char>|
            doc_ingredients(post, r).contains(n) == doc_ingredients(pre, r).insert(
                items[k].name@,
            ).contains(n) by {
            if doc_ingredients(post, r).contains(n) {
                let i = choose|i: int|
                    0 <= i < post.len() && (#[trigger] post[i]).name@ == n && name_set(
                        post[i].recipes@,
                    ).contains(r);
                if i < k {
                    assert(pre[i] == post[i]);
                    assert(doc_ingredients(pre, r).contains(n));
                } else {
                    assert(post[i] == items[k]);
                }
            }
            if n == items[k].name@ {
                assert(post[k] == items[k]);
                assert(doc_ingredients(post, r).contains(n));
            }
            if doc_ingredients(pre, r).contains(n) {
                let i = choose|i: int|
                    0 <= i < pre.len() && (#[trigger] pre[i]).name@ == n && name_set(
                        pre[i].recipes@,
                    ).contains(r);
                assert(post[i] == pre[i]);
                assert(doc_ingredients(post, r).contains(n));
            }
        }
        assert(doc_ingredients(post, r) =~= doc_ingredients(pre, r).insert(items[k].name@));
    } else {
        assert forall|n: Seq<char>|
            doc_ingredients(post, r).contains(n) == doc_ingredients(pre, r).contains(n) by {
            if doc_ingredients(post, r).contains(n) {
                let i = choose|i: int|
                    0 <= i < post.len() && (#[trigger] post[i]).name@ == n && name_set(
                        post[i].recipes@,
                    ).contains(r);
                assert(i < k);
                assert(pre[i] == post[i]);
                assert(doc_ingredients(pre, r).contains(n));
            }
            if doc_ingredients(pre, r).contains(n) {
                let i = choose|i: int|
                    0 <= i < pre.len() && (#[trigger] pre[i]).name@ == n && name_set(
                        pre[i].recipes@,
                    ).contains(r);
                assert(post[i] == pre[i]);
                assert(doc_ingredients(post, r).contains(n));
            }
        }
        assert(doc_ingredients(post, r) =~= doc_ingredients(pre, r));
    }
}

impl DocumentStore {
    /// Record that an item is an ingredient of a recipe, in the item's
    /// embedded reference list.
    fn link_item_recipe(&mut self, item: &String, recipe: &String)
        requires
            old(self).wf(),
            doc_has_item(old(self).collection@, item@),
            name_set(old(self).recipes@).contains(recipe@),
        ensures
            final(self).wf(),
            final(self)@ == (StoreView {
                item_recipes: old(self)@.item_recipes.insert((item@, recipe@)),
                ..old(self)@
            }),
            final(self).recipes == old(self).recipes,
            final(self).sections == old(self).sections,
            final(self).list_items == old(self).list_items,
            final(self).list_recipes == old(self).list_recipes,
            final(self).checklist == old(self).checklist,
            forall|n: Seq<char>|
                doc_has_item(old(self).collection@, n) ==> doc_has_item(
                    final(self).collection@,
                    n,
                ),
    {
        let ghost c0 = self.collection@;
        let i = match doc_find_item(&self.collection, item) {
            Some(i) => i,
            None => {
                proof {
                    assert(false);
                }
                return ;
            },
        };
        if !crate::relational::contains_name(&self.collection[i].recipes, recipe) {
            let ghost old_it = c0[i as int];
            self.collection[i].recipes.push(recipe.clone());
            proof {
                let c1 = self.collection@;
                let it = c1[i as int];
                assert(it.name@ == old_it.name@);
                assert(it.section == old_it.section);
                assert(it.recipes@ =~= old_it.recipes@.push(*recipe));
                crate::relational::lemma_name_set_push(old_it.recipes@, *recipe);
                assert(name_set(it.recipes@) == name_set(old_it.recipes@).insert(recipe@));
                assert(c1 =~= c0.update(i as int, it));
                // names unchanged
                assert forall|n: Seq<char>|
                    doc_has_item(c1, n) == doc_has_item(c0, n) by {
                    if doc_has_item(c1, n) {
                        let t = choose|t: int| 0 <= t < c1.len() && c1[t].name@ == n;
                        assert(c0[t].name@ == n);
                    }
                    if doc_has_item(c0, n) {
                        let t = choose|t: int| 0 <= t < c0.len() && c0[t].name@ == n;
                        assert(c1[t].name@ == n);
                    }
                }
                assert(doc_item_names(c1) =~= doc_item_names(c0));
                // section pairs unchanged
                assert forall|p: (Seq<char>, Seq<char>)|
                    doc_item_section_pairs(c1).contains(p) == doc_item_section_pairs(c0).contains(
                        p,
                    ) by {
                    if doc_item_section_pairs(c1).contains(p) {
                        let t = choose|t: int|
                            0 <= t < c1.len() && (#[trigger] c1[t]).name@ == p.0 && (c1[t].section
                                matches Some(s) && s@ == p.1);
                        assert(c0[t].name@ == p.0 && (c0[t].section matches Some(s) && s@ == p.1));
                    }
                    if doc_item_section_pairs(c0).contains(p) {
                        let t = choose|t: int|
                            0 <= t < c0.len() && (#[trigger] c0[t]).name@ == p.0 && (c0[t].section
                                matches Some(s) && s@ == p.1);
                        assert(c1[t].name@ == p.0 && (c1[t].section matches Some(s) && s@ == p.1));
                    }
                }
                assert(doc_item_section_pairs(c1) =~= doc_item_section_pairs(c0));
                // recipe pairs gain exactly (item, recipe)
                assert forall|p: (Seq<char>, Seq<char>)|
                    doc_item_recipe_pairs(c1).contains(p) == doc_item_recipe_pairs(c0).insert(
                        (item@, recipe@),
                    ).contains(p) by {
                    if doc_item_recipe_pairs(c1).contains(p) {
                        let t = choose|t: int|
                            0 <= t < c1.len() && (#[trigger] c1[t]).name@ == p.0 && name_set(
                                c1[t].recipes@,
                            ).contains(p.1);
                        if t != i {
                            assert(c0[t] == c1[t]);
                            assert(doc_item_recipe_pairs(c0).contains(p));
                        } else {
                            if p.1 == recipe@ {
                                assert(p == (item@, recipe@));
                            } else {
                                assert(name_set(old_it.recipes@).contains(p.1));
                                assert(c0[i as int].name@ == p.0);
                                assert(doc_item_recipe_pairs(c0).contains(p));
                            }
                        }
                    }
                    if p == (item@, recipe@) {
                        assert(c1[i as int].name@ == p.0);
                        assert(name_set(c1[i as int].recipes@).contains(p.1));
                        assert(doc_item_recipe_pairs(c1).contains(p));
                    }
                    if doc_item_recipe_pairs(c0).contains(p) {
                        let t = choose|t: int|
                            0 <= t < c0.len() && (#[trigger] c0[t]).name@ == p.0 && name_set(
                                c0[t].recipes@,
                            ).contains(p.1);
                        if t != i {
                            assert(c1[t] == c0[t]);
                            assert(doc_item_recipe_pairs(c1).contains(p));
                        } else {
                            assert(name_set(c1[i as int].recipes@).contains(p.1));
                            assert(doc_item_recipe_pairs(c1).contains(p));
                        }
                    }
                }
                assert(doc_item_recipe_pairs(c1) =~= doc_item_recipe_pairs(c0).insert(
                    (item@, recipe@),
                ));
                // invariant pieces
                assert forall|a: int, b: int| 0 <= a < b < c1.len() implies c1[a].name@
                    != c1[b].name@ by {
                    assert(c0[a].name@ != c0[b].name@);
                }
                assert forall|t: int|
                    0 <= t < c1.len() implies names_distinct((#[trigger] c1[t]).recipes@)
                    && name_set(c1[t].recipes@).subset_of(name_set(self.recipes@)) by {
                    if t != i {
                        assert(c1[t] == c0[t]);
                    } else {
                        assert forall|j1: int, j2: int|
                            0 <= j1 < j2 < it.recipes@.len() implies it.recipes@[j1]@
                            != it.recipes@[j2]@ by {
                            if j2 == old_it.recipes@.len() {
                                crate::relational::lemma_name_set_contains(
                                    old_it.recipes@,
                                    it.recipes@[j1]@,
                                );
                            }
                        }
                    }
                }
                assert forall|t: int|
                    0 <= t < c1.len() implies ((#[trigger] c1[t]).section matches Some(s)
                    ==> name_set(self.sections@).contains(s@)) by {
                    if t != i {
                        assert(c1[t] == c0[t]);
                    } else {
                        assert(c1[t].section == c0[t].section);
                    }
                }
                assert forall|t: int| 0 <= t < self.list_items@.len() implies doc_has_item(
                    c1,
                    (#[trigger] self.list_items@[t])@,
                ) by {}
                assert forall|t: int| 0 <= t < self.checklist@.len() implies doc_has_item(
                    c1,
                    (#[trigger] self.checklist@[t])@,
                ) by {}
                assert(self@ =~= (StoreView {
                    item_recipes: old(self)@.item_recipes.insert((item@, recipe@)),
                    ..old(self)@
                }));
            }
        } else {
            proof {
                assert(c0[i as int].name@ == item@);
                assert(name_set(c0[i as int].recipes@).contains(recipe@));
                assert(doc_item_recipe_pairs(c0).contains((item@, recipe@)));
                assert(old(self)@.item_recipes.insert((item@, recipe@))
                    =~= old(self)@.item_recipes);
                assert(self@ =~= (StoreView {
                    item_recipes: old(self)@.item_recipes.insert((item@, recipe@)),
                    ..old(self)@
                }));
            }
        }
    }

    /// Upsert a recipe, upsert every ingredient, and record the recipe on
    /// each ingredient.
    pub fn add_recipe(&mut self, recipe: &str, ingredients: &Vec<String>) -> (r: Result<
        (),
        StoreError,
    >)
        requires
            old(self).wf(),
        ensures
            final(self).wf(),
            r is Ok,
            final(self)@ == spec_add_recipe(old(self)@, recipe@, name_set(ingredients@)),
    {
        let ghost v0 = self@;
        let name: String = recipe.to_owned();
        push_name(&mut self.recipes, &name);
        proof {
            assert forall|i: int|
                0 <= i < self.collection@.len() implies names_distinct(
                (#[trigger] self.collection@[i]).recipes@,
            ) && name_set(self.collection@[i].recipes@).subset_of(name_set(self.recipes@)) by {
                assert(name_set(self.collection@[i].recipes@).subset_of(
                    name_set(old(self).recipes@),
                ));
            }
            assert(ingredients@.take(0) =~= Seq::<String>::empty());
            assert(name_set(ingredients@.take(0)) =~= Set::<Seq<char>>::empty());
            assert(v0.items.union(Set::<Seq<char>>::empty()) =~= v0.items);
            assert(pairs_with(Set::<Seq<char>>::empty(), recipe@) =~= Set::<
                (Seq<char>, Seq<char>),
            >::empty());
            assert(v0.item_recipes.union(Set::<(Seq<char>, Seq<char>)>::empty())
                =~= v0.item_recipes);
            assert(self@ =~= (StoreView {
                items: v0.items.union(name_set(ingredients@.take(0))),
                recipes: v0.recipes.insert(recipe@),
                item_recipes: v0.item_recipes.union(
                    pairs_with(name_set(ingredients@.take(0)), recipe@),
                ),
                ..v0
            }));
        }
        let n = ingredients.len();
        let mut k: usize = 0;
        while k < n
            invariant
                n == ingredients@.len(),
                0 <= k <= n,
                self.wf(),
                name@ == recipe@,
                name_set(self.recipes@).contains(recipe@),
                self@ == (StoreView {
                    items: v0.items.union(name_set(ingredients@.take(k as int))),
                    recipes: v0.recipes.insert(recipe@),
                    item_recipes: v0.item_recipes.union(
                        pairs_with(name_set(ingredients@.take(k as int)), recipe@),
                    ),
                    ..v0
                }),
            decreases n - k,
        {
            self.ensure_doc_item(&ingredients[k]);
            let ghost vb = self@;
            self.link_item_recipe(&ingredients[k], &name);
            proof {
                let ing = ingredients@[k as int]@;
                lemma_name_set_take_step_doc(ingredients@, k as int);
                assert(self@.items =~= v0.items.union(name_set(ingredients@.take(k as int + 1))));
                assert(self@.item_recipes =~= v0.item_recipes.union(
                    pairs_with(name_set(ingredients@.take(k as int + 1)), recipe@),
                ));
                assert(self@ =~= (StoreView {
                    items: v0.items.union(name_set(ingredients@.take(k as int + 1))),
                    recipes: v0.recipes.insert(recipe@),
                    item_recipes: v0.item_recipes.union(
                        pairs_with(name_set(ingredients@.take(k as int + 1)), recipe@),
                    ),
                    ..v0
                }));
            }
            k += 1;
        }
        proof {
            assert(ingredients@.take(n as int) =~= ingredients@);
        }
        Ok(())
    }
}

/// Taking one more name of a list inserts it into the set of the prefix.
pub proof fn lemma_name_set_take_step_doc(names: Seq<String>, k: int)
    requires
        0 <= k < names.len(),
    ensures
        name_set(names.take(k + 1)) == name_set(names.take(k)).insert(names[k]@),
{
    crate::relational::lemma_name_set_take_step(names, k);
}

} // verus!

verus! {

impl DocumentStore {
    /// The recorded ingredient set of a recipe: `None` when the catalog has
    /// no such recipe, the (possibly empty) referencing item names otherwise.
    pub fn recipe_ingredients(&self, recipe: &str) -> (r: Result<
        Option<Vec<String>>,
        StoreError,
    >)
        requires
            self.wf(),
        ensures
            r is Ok,
            r matches Ok(Some(names)) ==> self@.recipes.contains(recipe@) && name_set(names@)
                == self@.ingredients_of(recipe@) && names_distinct(names@),
            r matches Ok(None) ==> !self@.recipes.contains(recipe@),
    {
        let name: String = recipe.to_owned();
        if !crate::relational::contains_name(&self.recipes, &name) {
            return Ok(None);
        }
        let mut out: Vec<String> = Vec::new();
        let len = self.collection.len();
        let mut i: usize = 0;
        proof {
            assert(self.collection@.take(0) =~= Seq::<DocItem>::empty());
            assert(doc_ingredients(self.collection@.take(0), recipe@) =~= Set::<
                Seq<char>,
            >::empty());
            assert forall|x: Seq<char>| !name_set(out@).contains(x) by {
                crate::relational::lemma_name_set_contains(out@, x);
            }
            assert(name_set(out@) =~= Set::<Seq<char>>::empty());
        }
        while i < len
            invariant
                len == self.collection@.len(),
                0 <= i <= len,
                self.wf(),
                name@ == recipe@,
                name_set(out@) == doc_ingredients(self.collection@.take(i as int), recipe@),
                names_distinct(out@),
            decreases len - i,
        {
            let ghost out0 = out@;
            if crate::relational::contains_name(&self.collection[i].recipes, &name) {
                if !crate::relational::contains_name(&out, &self.collection[i].name) {
                    out.push(self.collection[i].name.clone());
                    proof {
                        crate::relational::lemma_name_set_push(
                            out0,
                            self.collection@[i as int].name,
                        );
                        assert forall|j1: int, j2: int| 0 <= j1 < j2 < out@.len() implies out@[j1]@
                            != out@[j2]@ by {
                            if j2 == out0.len() {
                                crate::relational::lemma_name_set_contains(out0, out@[j1]@);
                            }
                        }
                    }
                } else {
                    proof {
                        assert(name_set(out@).insert(self.collection@[i as int].name@)
                            =~= name_set(out@));
                    }
                }
            }
            proof {
                lemma_doc_ingredients_take_step(self.collection@, recipe@, i as int);
            }
            i += 1;
        }
        proof {
            assert(self.collection@.take(len as int) =~= self.collection@);
            assert forall|n: Seq<char>|
                doc_ingredients(self.collection@, recipe@).contains(n) == self@.ingredients_of(
                    recipe@,
                ).contains(n) by {
                if doc_ingredients(self.collection@, recipe@).contains(n) {
                    let t = choose|t: int|
                        0 <= t < self.collection@.len() && (#[trigger] self.collection@[t]).name@
                            == n && name_set(self.collection@[t].recipes@).contains(recipe@);
                    assert(doc_item_recipe_pairs(self.collection@).contains((n, recipe@)));
                }
                if self@.ingredients_of(recipe@).contains(n) {
                    let t = choose|t: int|
                        0 <= t < self.collection@.len() && (#[trigger] self.collection@[t]).name@
                            == n && name_set(self.collection@[t].recipes@).contains(recipe@);
                    assert(doc_ingredients(self.collection@, recipe@).contains(n));
                }
            }
            assert(name_set(out@) =~= self@.ingredients_of(recipe@));
        }
        Ok(Some(out))
    }

    /// Mark a recipe on the shopping list and put each of its recorded
    /// ingredients on the list; fails when the recipe has no recorded
    /// ingredients.
    pub fn add_list_recipe(&mut self, recipe: &str) -> (r: Result<(), StoreError>)
        requires
            old(self).wf(),
        ensures
            final(self).wf(),
            r is Err <==> old(self)@.ingredients_of(recipe@) == Set::<Seq<char>>::empty(),
            r is Ok ==> final(self)@ == spec_add_list_recipe(old(self)@, recipe@),
            r is Err ==> *final(self) == *old(self) && r == Err::<(), StoreError>(
                StoreError::RecipeIngredientsNotFound,
            ),
    {
        let ghost v0 = self@;
        let ings = match self.recipe_ingredients(recipe) {
            Ok(Some(v)) => v,
            Ok(None) => {
                proof {
                    assert forall|x: Seq<char>| !v0.ingredients_of(recipe@).contains(x) by {
                        if v0.item_recipes.contains((x, recipe@)) {
                            let c = self.collection@;
                            let t = choose|t: int|
                                0 <= t < c.len() && (#[trigger] c[t]).name@ == x && name_set(
                                    c[t].recipes@,
                                ).contains(recipe@);
                            assert(name_set(c[t].recipes@).subset_of(name_set(self.recipes@)));
                        }
                    }
                    assert(v0.ingredients_of(recipe@) =~= Set::<Seq<char>>::empty());
                }
                return Err(StoreError::RecipeIngredientsNotFound);
            },
            Err(_) => {
                proof {
                    assert(false);
                }
                return Err(StoreError::RecipeIngredientsNotFound);
            },
        };
        if ings.is_empty() {
            proof {
                assert forall|x: Seq<char>| !v0.ingredients_of(recipe@).contains(x) by {
                    if v0.ingredients_of(recipe@).contains(x) {
                        crate::relational::lemma_name_set_contains(ings@, x);
                        let t = choose|t: int| 0 <= t < ings@.len() && ings@[t]@ == x;
                    }
                }
                assert(v0.ingredients_of(recipe@) =~= Set::<Seq<char>>::empty());
            }
            return Err(StoreError::RecipeIngredientsNotFound);
        }
        proof {
            crate::relational::lemma_name_set_contains(ings@, ings@[0]@);
            assert(v0.ingredients_of(recipe@).contains(ings@[0]@));
            assert(v0.ingredients_of(recipe@) != Set::<Seq<char>>::empty());
        }
        let name: String = recipe.to_owned();
        push_name(&mut self.list_recipes, &name);
        proof {
            assert(self@ =~= (StoreView {
                list_recipes: v0.list_recipes.insert(recipe@),
                ..v0
            }));
            assert(ings@.take(0) =~= Seq::<String>::empty());
            assert(name_set(ings@.take(0)) =~= Set::<Seq<char>>::empty());
            assert(v0.list_items.union(Set::<Seq<char>>::empty()) =~= v0.list_items);
        }
        let n = ings.len();
        let mut k: usize = 0;
        while k < n
            invariant
                n == ings@.len(),
                0 <= k <= n,
                self.wf(),
                name_set(ings@) == v0.ingredients_of(recipe@),
                v0.item_recipes == self@.item_recipes,
                v0.items == self@.items,
                self@ == (StoreView {
                    list_recipes: v0.list_recipes.insert(recipe@),
                    list_items: v0.list_items.union(name_set(ings@.take(k as int))),
                    ..v0
                }),
            decreases n - k,
        {
            proof {
                crate::relational::lemma_name_set_contains(ings@, ings@[k as int]@);
                assert(v0.ingredients_of(recipe@).contains(ings@[k as int]@));
                assert(v0.item_recipes.contains((ings@[k as int]@, recipe@)));
                let c = self.collection@;
                let t = choose|t: int|
                    0 <= t < c.len() && (#[trigger] c[t]).name@ == ings@[k as int]@ && name_set(
                        c[t].recipes@,
                    ).contains(recipe@);
                assert(doc_has_item(c, ings@[k as int]@));
            }
            push_name(&mut self.list_items, &ings[k]);
            proof {
                lemma_name_set_take_step_doc(ings@, k as int);
                assert forall|t: int| 0 <= t < self.list_items@.len() implies doc_has_item(
                    self.collection@,
                    (#[trigger] self.list_items@[t])@,
                ) by {}
                assert(self@ =~= (StoreView {
                    list_recipes: v0.list_recipes.insert(recipe@),
                    list_items: v0.list_items.union(name_set(ings@.take(k as int + 1))),
                    ..v0
                }));
            }
            k += 1;
        }
        proof {
            assert(ings@.take(n as int) =~= ings@);
            assert(self@ =~= spec_add_list_recipe(v0, recipe@));
        }
        Ok(())
    }

    /// Remove a recipe from the catalog, from every item's references, and
    /// from the list's recipe marks; its ingredients remain valid items.
    #[verifier::rlimit(30)]
    pub fn delete_recipe(&mut self, recipe: &str) -> (r: Result<(), StoreError>)
        requires
            old(self).wf(),
        ensures
            final(self).wf(),
            r is Ok,
            final(self)@ == spec_delete_recipe(old(self)@, recipe@),
    {
        let ghost v0 = self@;
        let ghost c0 = self.collection@;
        let name: String = recipe.to_owned();
        remove_name(&mut self.recipes, &name);
        remove_name(&mut self.list_recipes, &name);
        let len = self.collection.len();
        let mut t: usize = 0;
        while t < len
            invariant
                len == c0.len(),
                self.collection@.len() == c0.len(),
                0 <= t <= len,
                name@ == recipe@,
                names_distinct(self.recipes@),
                name_set(self.recipes@) == name_set(old(self).recipes@).remove(recipe@),
                names_distinct(self.list_recipes@),
                forall|j: int|
                    0 <= j < self.list_recipes@.len() ==> (#[trigger] self.list_recipes@[j])@
                        != recipe@,
                forall|j: int|
                    0 <= j < self.list_recipes@.len() ==> name_set(old(self).list_recipes@)
                        .contains((#[trigger] self.list_recipes@[j])@),
                name_set(self.list_recipes@) == name_set(old(self).list_recipes@).remove(recipe@),
                self.sections == old(self).sections,
                self.list_items == old(self).list_items,
                self.checklist == old(self).checklist,
                forall|i: int, j: int| 0 <= i < j < c0.len() ==> c0[i].name@ != c0[j].name@,
                forall|i: int|
                    0 <= i < c0.len() ==> names_distinct((#[trigger] c0[i]).recipes@),
                forall|i: int|
                    0 <= i < t ==> (#[trigger] self.collection@[i]).name@ == c0[i].name@
                        && self.collection@[i].section == c0[i].section && names_distinct(
                        self.collection@[i].recipes@,
                    ) && name_set(self.collection@[i].recipes@) == name_set(
                        c0[i].recipes@,
                    ).remove(recipe@),
                forall|i: int| t <= i < c0.len() ==> self.collection@[i] == c0[i],
            decreases len - t,
        {
            remove_name(&mut self.collection[t].recipes, &name);
            t += 1;
        }
        proof {
            let c1 = self.collection@;
            assert forall|n: Seq<char>|
                doc_has_item(c1, n) == doc_has_item(c0, n) by {
                if doc_has_item(c1, n) {
                    let i = choose|i: int| 0 <= i < c1.len() && c1[i].name@ == n;
                    assert(c0[i].name@ == n);
                }
                if doc_has_item(c0, n) {
                    let i = choose|i: int| 0 <= i < c0.len() && c0[i].name@ == n;
                    assert(c1[i].name@ == n);
                }
            }
            assert(doc_item_names(c1) =~= doc_item_names(c0));
            assert forall|p: (Seq<char>, Seq<char>)|
                doc_item_section_pairs(c1).contains(p) == doc_item_section_pairs(c0).contains(
                    p,
                ) by {
                if doc_item_section_pairs(c1).contains(p) {
                    let i = choose|i: int|
                        0 <= i < c1.len() && (#[trigger] c1[i]).name@ == p.0 && (c1[i].section
                            matches Some(s) && s@ == p.1);
                    assert(c0[i].name@ == p.0 && (c0[i].section matches Some(s) && s@ == p.1));
                }
                if doc_item_section_pairs(c0).contains(p) {
                    let i = choose|i: int|
                        0 <= i < c0.len() && (#[trigger] c0[i]).name@ == p.0 && (c0[i].section
                            matches Some(s) && s@ == p.1);
                    assert(c1[i].name@ == p.0 && (c1[i].section matches Some(s) && s@ == p.1));
                }
            }
            assert(doc_item_section_pairs(c1) =~= doc_item_section_pairs(c0));
            assert forall|p: (Seq<char>, Seq<char>)|
                doc_item_recipe_pairs(c1).contains(p) == (v0.item_recipes.contains(p) && p.1
                    != recipe@) by {
                if doc_item_recipe_pairs(c1).contains(p) {
                    let i = choose|i: int|
                        0 <= i < c1.len() && (#[trigger] c1[i]).name@ == p.0 && name_set(
                            c1[i].recipes@,
                        ).contains(p.1);
                    assert(name_set(c0[i].recipes@).contains(p.1) && p.1 != recipe@);
                    assert(c0[i].name@ == p.0);
                    assert(doc_item_recipe_pairs(c0).contains(p));
                }
                if v0.item_recipes.contains(p) && p.1 != recipe@ {
                    let i = choose|i: int|
                        0 <= i < c0.len() && (#[trigger] c0[i]).name@ == p.0 && name_set(
                            c0[i].recipes@,
                        ).contains(p.1);
                    assert(name_set(c1[i].recipes@).contains(p.1));
                    assert(c1[i].name@ == p.0);
                    assert(doc_item_recipe_pairs(c1).contains(p));
                }
            }
            assert(doc_item_recipe_pairs(c1) =~= Set::new(
                |p: (Seq<char>, Seq<char>)| v0.item_recipes.contains(p) && p.1 != recipe@,
            ));
            // invariant pieces
            assert forall|a: int, b: int| 0 <= a < b < c1.len() implies c1[a].name@
                != c1[b].name@ by {
                assert(c0[a].name@ != c0[b].name@);
            }
            assert forall|i: int|
                0 <= i < c1.len() implies names_distinct((#[trigger] c1[i]).recipes@) && name_set(
                c1[i].recipes@,
            ).subset_of(name_set(self.recipes@)) by {
                assert(name_set(c1[i].recipes@) == name_set(c0[i].recipes@).remove(recipe@));
                assert(name_set(c0[i].recipes@).subset_of(name_set(old(self).recipes@)));
                assert forall|x: Seq<char>|
                    name_set(c1[i].recipes@).contains(x) implies name_set(
                    self.recipes@,
                ).contains(x) by {
                    assert(name_set(c0[i].recipes@).contains(x) && x != recipe@);
                    assert(name_set(old(self).recipes@).contains(x));
                    assert(name_set(self.recipes@) == name_set(old(self).recipes@).remove(
                        recipe@,
                    ));
                }
            }
            assert forall|i: int|
                0 <= i < c1.len() implies ((#[trigger] c1[i]).section matches Some(s)
                ==> name_set(self.sections@).contains(s@)) by {
                assert(c1[i].section == c0[i].section);
                if c0[i].section is Some {
                    assert(c0[i] == old(self).collection@[i]);
                    assert((old(self).collection@[i]).section matches Some(s) ==> name_set(
                        old(self).sections@,
                    ).contains(s@));
                    assert(self.sections@ == old(self).sections@);
                }
            }
            assert forall|i: int| 0 <= i < self.list_items@.len() implies doc_has_item(
                c1,
                (#[trigger] self.list_items@[i])@,
            ) by {}
            assert forall|i: int| 0 <= i < self.checklist@.len() implies doc_has_item(
                c1,
                (#[trigger] self.checklist@[i])@,
            ) by {}
            assert forall|i: int| 0 <= i < self.list_recipes@.len() implies name_set(
                self.recipes@,
            ).contains((#[trigger] self.list_recipes@[i])@) by {
                assert(name_set(old(self).list_recipes@).contains(self.list_recipes@[i]@));
                crate::relational::lemma_name_set_contains(
                    old(self).list_recipes@,
                    self.list_recipes@[i]@,
                );
                let u = choose|u: int|
                    0 <= u < old(self).list_recipes@.len() && old(self).list_recipes@[u]@
                        == self.list_recipes@[i]@;
                assert(self.list_recipes@[i]@ != recipe@);
            }
            assert(self@ =~= spec_delete_recipe(v0, recipe@));
        }
        Ok(())
    }
}

} // verus!
