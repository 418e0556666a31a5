//! The one-time document-to-relational migration engine.
//!
//! A one-directional transform, invoked explicitly: it collects the section
//! names referenced by any item, the recipe names referenced by any item or
//! present in the list's recipe history, inserts each through the same
//! get-or-insert primitives the relational backend uses, and then replays
//! every item with its junction links.  Every insert ignores duplicates, so
//! the engine is idempotent by construction: its effect on the target view
//! is `spec_migrate`, and applying that twice equals applying it once.

use vstd::prelude::*;

use crate::document::{
    doc_has_item, doc_item_names, doc_item_recipe_pairs, doc_item_section_pairs,
    lemma_doc_item_names_take_step, lemma_doc_item_recipe_pairs_take_step,
    lemma_doc_item_section_pairs_take_step, pairs_for_item, DocItem, DocumentStore,
};
use crate::relational::{
    ensure_junction, find_row, has_id, lemma_junction_pairs_member, lemma_junction_pairs_push,
    lemma_name_set_contains, lemma_name_set_take_step, name_of, RelationalStore,
};
use crate::store::StoreError;
use crate::view::{name_set, StoreView};

verus! {

/// The section names referenced by any item of a collection.
pub open spec fn ref_sections(items: Seq<DocItem>) -> Set<Seq<char>> {
    Set::new(
        |s: Seq<char>|
            exists|i: int|
                0 <= i < items.len() && ((#[trigger] items[i]).section matches Some(sec) && sec@
                    == s),
    )
}

/// The recipe names referenced by any item of a collection.
pub open spec fn ref_recipes(items: Seq<DocItem>) -> Set<Seq<char>> {
    Set::new(
        |r: Seq<char>|
            exists|i: int|
                0 <= i < items.len() && name_set((#[trigger] items[i]).recipes@).contains(r),
    )
}

/// The section names a document view makes the migration carry over.
pub open spec fn migrated_sections(d: StoreView) -> Set<Seq<char>> {
    Set::new(|s: Seq<char>| exists|i: Seq<char>| #[trigger] d.item_sections.contains((i, s)))
}

/// The recipe names a document view makes the migration carry over: those
/// referenced by an item, and those in the list's recipe history.
pub open spec fn migrated_recipes(d: StoreView) -> Set<Seq<char>> {
    Set::new(
        |r: Seq<char>|
            (exists|i: Seq<char>| #[trigger] d.item_recipes.contains((i, r)))
                || d.list_recipes.contains(r),
    )
}

/// The migration's effect on the target view: the document's catalog and
/// junctions are unioned in; the target's working lists are untouched.
pub open spec fn spec_migrate(v: StoreView, d: StoreView) -> StoreView {
    StoreView {
        items: v.items.union(d.items),
        recipes: v.recipes.union(migrated_recipes(d)),
        sections: v.sections.union(migrated_sections(d)),
        item_recipes: v.item_recipes.union(d.item_recipes),
        item_sections: v.item_sections.union(d.item_sections),
        list_items: v.list_items,
        list_recipes: v.list_recipes,
        checklist: v.checklist,
    }
}

/// On a document's view, the carried sections are exactly the referenced
/// ones.
pub proof fn lemma_migrated_sections_of_doc(doc: DocumentStore)
    ensures
        migrated_sections(doc@) == ref_sections(doc.collection@),
{
    let items = doc.collection@;
    assert forall|s: Seq<char>|
        migrated_sections(doc@).contains(s) == ref_sections(items).contains(s) by {
        if migrated_sections(doc@).contains(s) {
            let i = choose|i: Seq<char>| #[trigger] doc@.item_sections.contains((i, s));
            let t = choose|t: int|
                0 <= t < items.len() && (#[trigger] items[t]).name@ == i && (items[t].section
                    matches Some(x) && x@ == s);
            assert(ref_sections(items).contains(s));
        }
        if ref_sections(items).contains(s) {
            let t = choose|t: int|
                0 <= t < items.len() && ((#[trigger] items[t]).section matches Some(sec) && sec@
                    == s);
            assert(doc@.item_sections.contains((items[t].name@, s)));
            assert(migrated_sections(doc@).contains(s));
        }
    }
    assert(migrated_sections(doc@) =~= ref_sections(items));
}

/// On a document's view, the carried recipes are the item-referenced ones
/// together with the list's recipe history.
pub proof fn lemma_migrated_recipes_of_doc(doc: DocumentStore)
    ensures
        migrated_recipes(doc@) == ref_recipes(doc.collection@).union(
            name_set(doc.list_recipes@),
        ),
{
    let items = doc.collection@;
    assert forall|r: Seq<char>|
        migrated_recipes(doc@).contains(r) == ref_recipes(items).union(
            name_set(doc.list_recipes@),
        ).contains(r) by {
        if migrated_recipes(doc@).contains(r) && !doc@.list_recipes.contains(r) {
            let i = choose|i: Seq<char>| #[trigger] doc@.item_recipes.contains((i, r));
            let t = choose|t: int|
                0 <= t < items.len() && (#[trigger] items[t]).name@ == i && name_set(
                    items[t].recipes@,
                ).contains(r);
            assert(ref_recipes(items).contains(r));
        }
        if ref_recipes(items).contains(r) {
            let t = choose|t: int|
                0 <= t < items.len() && name_set((#[trigger] items[t]).recipes@).contains(r);
            assert(doc@.item_recipes.contains((items[t].name@, r)));
            assert(migrated_recipes(doc@).contains(r));
        }
    }
    assert(migrated_recipes(doc@) =~= ref_recipes(items).union(name_set(doc.list_recipes@)));
}

/// Taking one more item either adds its referenced section or changes
/// nothing.
pub proof fn lemma_ref_sections_take_step(items: Seq<DocItem>, k: int)
    requires
        0 <= k < items.len(),
    ensures
        items[k].section matches Some(s) ==> ref_sections(items.take(k + 1)) == ref_sections(
            items.take(k),
        ).insert(s@),
        items[k].section is None ==> ref_sections(items.take(k + 1)) == ref_sections(
            items.take(k),
        ),
{
    let pre = items.take(k);
    let post = items.take(k + 1);
    assert(post =~= pre.push(items[k]));
    if items[k].section is Some {
        let s = items[k].section->0;
        assert forall|x: Seq<char>|
            ref_sections(post).contains(x) == ref_sections(pre).insert(s@).contains(x) by {
            if ref_sections(post).contains(x) {
                let i = choose|i: int|
                    0 <= i < post.len() && ((#[trigger] post[i]).section matches Some(sec) && sec@
                        == x);
                if i < k {
                    assert(pre[i] == post[i]);
                    assert(ref_sections(pre).contains(x));
                } else {
                    assert(post[i] == items[k]);
                    assert(x == s@);
                }
            }
            if x == s@ {
                assert(post[k] == items[k]);
                assert(ref_sections(post).contains(x));
            }
            if ref_sections(pre).contains(x) {
                let i = choose|i: int|
                    0 <= i < pre.len() && ((#[trigger] pre[i]).section matches Some(sec) && sec@
                        == x);
                assert(post[i] == pre[i]);
                assert(ref_sections(post).contains(x));
            }
        }
        assert(ref_sections(post) =~= ref_sections(pre).insert(s@));
    } else {
        assert forall|x: Seq<char>|
            ref_sections(post).contains(x) == ref_sections(pre).contains(x) by {
            if ref_sections(post).contains(x) {
                let i = choose|i: int|
                    0 <= i < post.len() && ((#[trigger] post[i]).section matches Some(sec) && sec@
                        == x);
                assert(i < k);
                assert(pre[i] == post[i]);
                assert(ref_sections(pre).contains(x));
            }
            if ref_sections(pre).contains(x) {
                let i = choose|i: int|
                    0 <= i < pre.len() && ((#[trigger] pre[i]).section matches Some(sec) && sec@
                        == x);
                assert(post[i] == pre[i]);
                assert(ref_sections(post).contains(x));
            }
        }
        assert(ref_sections(post) =~= ref_sections(pre));
    }
}

/// Taking one more item adds exactly its referenced recipes.
pub proof fn lemma_ref_recipes_take_step(items: Seq<DocItem>, k: int)
    requires
        0 <= k < items.len(),
    ensures
        ref_recipes(items.take(k + 1)) == ref_recipes(items.take(k)).union(
            name_set(items[k].recipes@),
        ),
{
    let pre = items.take(k);
    let post = items.take(k + 1);
    assert(post =~= pre.push(items[k]));
    assert forall|r: Seq<char>|
        ref_recipes(post).contains(r) == ref_recipes(pre).union(
            name_set(items[k].recipes@),
        ).contains(r) by {
        if ref_recipes(post).contains(r) {
            let i = choose|i: int|
                0 <= i < post.len() && name_set((#[trigger] post[i]).recipes@).contains(r);
            if i < k {
                assert(pre[i] == post[i]);
                assert(ref_recipes(pre).contains(r));
            } else {
                assert(post[i] == items[k]);
            }
        }
        if name_set(items[k].recipes@).contains(r) {
            assert(post[k] == items[k]);
            assert(ref_recipes(post).contains(r));
        }
        if ref_recipes(pre).contains(r) {
            let i = choose|i: int|
                0 <= i < pre.len() && name_set((#[trigger] pre[i]).recipes@).contains(r);
            assert(post[i] == pre[i]);
            assert(ref_recipes(post).contains(r));
        }
    }
    assert(ref_recipes(post) =~= ref_recipes(pre).union(name_set(items[k].recipes@)));
}

/// Total number of recipe references embedded in a collection.
pub open spec fn doc_recipe_refs(items: Seq<DocItem>) -> int
    decreases items.len(),
{
    if items.len() == 0 {
        0
    } else {
        doc_recipe_refs(items.drop_last()) + items.last().recipes@.len()
    }
}

/// One item more adds its own reference count.
pub proof fn lemma_doc_recipe_refs_take_step(items: Seq<DocItem>, k: int)
    requires
        0 <= k < items.len(),
    ensures
        doc_recipe_refs(items.take(k + 1)) == doc_recipe_refs(items.take(k))
            + items[k].recipes@.len(),
{
    assert(items.take(k + 1).drop_last() =~= items.take(k));
    assert(items.take(k + 1).last() == items[k]);
}

/// The reference count is never negative.
pub proof fn lemma_doc_recipe_refs_nonneg(items: Seq<DocItem>)
    ensures
        doc_recipe_refs(items) >= 0,
    decreases items.len(),
{
    if items.len() > 0 {
        lemma_doc_recipe_refs_nonneg(items.drop_last());
    }
}

/// A prefix counts no more references than the whole collection.
pub proof fn lemma_doc_recipe_refs_mono(items: Seq<DocItem>, k: int)
    requires
        0 <= k <= items.len(),
    ensures
        doc_recipe_refs(items.take(k)) <= doc_recipe_refs(items),
    decreases items.len() - k,
{
    if k == items.len() {
        assert(items.take(k) =~= items);
    } else {
        lemma_doc_recipe_refs_take_step(items, k);
        lemma_doc_recipe_refs_mono(items, k + 1);
    }
}

/// How many fresh ids the migration can need, at most.
pub open spec fn migrate_alloc_bound(doc: DocumentStore) -> int {
    2 * doc.collection@.len() + 2 * doc_recipe_refs(doc.collection@) + doc.list_recipes@.len()
}

/// Insert every section name referenced by any item, ignoring duplicates.
fn migrate_sections(doc: &DocumentStore, rel: &mut RelationalStore)
    requires
        old(rel).wf(),
        old(rel).next_id as int + doc.collection@.len() <= u32::MAX as int,
    ensures
        final(rel).wf(),
        final(rel)@ == (StoreView {
            sections: old(rel)@.sections.union(ref_sections(doc.collection@)),
            ..old(rel)@
        }),
        final(rel).next_id as int <= old(rel).next_id as int + doc.collection@.len(),
{
    let ghost v0 = rel@;
    let ghost next0 = rel.next_id;
    let n = doc.collection.len();
    let mut k: usize = 0;
    proof {
        assert(doc.collection@.take(0) =~= Seq::<DocItem>::empty());
        assert(ref_sections(doc.collection@.take(0)) =~= Set::<Seq<char>>::empty());
        assert(v0.sections.union(Set::<Seq<char>>::empty()) =~= v0.sections);
        assert(rel@ =~= (StoreView {
            sections: v0.sections.union(ref_sections(doc.collection@.take(0))),
            ..v0
        }));
    }
    while k < n
        invariant
            n == doc.collection@.len(),
            0 <= k <= n,
            rel.wf(),
            next0 as int + n <= u32::MAX as int,
            rel.next_id as int <= next0 as int + k,
            rel@ == (StoreView {
                sections: v0.sections.union(ref_sections(doc.collection@.take(k as int))),
                ..v0
            }),
        decreases n - k,
    {
        let ghost va = rel@;
        match &doc.collection[k].section {
            Some(s) => {
                let _ = rel.ensure_section(s);
                proof {
                    lemma_ref_sections_take_step(doc.collection@, k as int);
                    assert(rel@.sections =~= v0.sections.union(
                        ref_sections(doc.collection@.take(k as int + 1)),
                    ));
                    assert(rel@ =~= (StoreView {
                        sections: v0.sections.union(
                            ref_sections(doc.collection@.take(k as int + 1)),
                        ),
                        ..v0
                    }));
                }
            },
            None => {
                proof {
                    lemma_ref_sections_take_step(doc.collection@, k as int);
                    assert(rel@ =~= (StoreView {
                        sections: v0.sections.union(
                            ref_sections(doc.collection@.take(k as int + 1)),
                        ),
                        ..v0
                    }));
                }
            },
        }
        k += 1;
    }
    proof {
        assert(doc.collection@.take(n as int) =~= doc.collection@);
    }
}

/// Insert every recipe name referenced by any item or present in the list's
/// recipe history, ignoring duplicates.
fn migrate_recipes(doc: &DocumentStore, rel: &mut RelationalStore)
    requires
        old(rel).wf(),
        old(rel).next_id as int + doc_recipe_refs(doc.collection@) + doc.list_recipes@.len()
            <= u32::MAX as int,
    ensures
        final(rel).wf(),
        final(rel)@ == (StoreView {
            recipes: old(rel)@.recipes.union(ref_recipes(doc.collection@)).union(
                name_set(doc.list_recipes@),
            ),
            ..old(rel)@
        }),
        final(rel).next_id as int <= old(rel).next_id as int + doc_recipe_refs(doc.collection@)
            + doc.list_recipes@.len(),
{
    let ghost v0 = rel@;
    let ghost next0 = rel.next_id;
    let ghost items_seq = doc.collection@;
    let n = doc.collection.len();
    let mut k: usize = 0;
    proof {
        assert(items_seq.take(0) =~= Seq::<DocItem>::empty());
        assert(ref_recipes(items_seq.take(0)) =~= Set::<Seq<char>>::empty());
        assert(v0.recipes.union(Set::<Seq<char>>::empty()) =~= v0.recipes);
        lemma_doc_recipe_refs_nonneg(items_seq.take(0));
        assert(doc_recipe_refs(items_seq.take(0)) == 0);
        assert(rel@ =~= (StoreView {
            recipes: v0.recipes.union(ref_recipes(items_seq.take(0))),
            ..v0
        }));
    }
    while k < n
        invariant
            n == items_seq.len(),
            items_seq == doc.collection@,
            0 <= k <= n,
            rel.wf(),
            next0 as int + doc_recipe_refs(items_seq) + doc.list_recipes@.len() <= u32::MAX as int,
            rel.next_id as int <= next0 as int + doc_recipe_refs(items_seq.take(k as int)),
            rel@ == (StoreView {
                recipes: v0.recipes.union(ref_recipes(items_seq.take(k as int))),
                ..v0
            }),
        decreases n - k,
    {
        let ghost base = v0.recipes.union(ref_recipes(items_seq.take(k as int)));
        let ghost refs_k = doc_recipe_refs(items_seq.take(k as int));
        let m = doc.collection[k].recipes.len();
        let mut j: usize = 0;
        proof {
            assert(items_seq[k as int].recipes@.take(0) =~= Seq::<String>::empty());
            assert(name_set(items_seq[k as int].recipes@.take(0)) =~= Set::<Seq<char>>::empty());
            assert(base.union(Set::<Seq<char>>::empty()) =~= base);
            lemma_doc_recipe_refs_mono(items_seq, k as int + 1);
            lemma_doc_recipe_refs_take_step(items_seq, k as int);
        }
        while j < m
            invariant
                n == items_seq.len(),
                items_seq == doc.collection@,
                0 <= k < n,
                m == items_seq[k as int].recipes@.len(),
                0 <= j <= m,
                rel.wf(),
                next0 as int + doc_recipe_refs(items_seq) + doc.list_recipes@.len() <= u32::MAX
                    as int,
                refs_k == doc_recipe_refs(items_seq.take(k as int)),
                refs_k + m <= doc_recipe_refs(items_seq),
                base == v0.recipes.union(ref_recipes(items_seq.take(k as int))),
                rel.next_id as int <= next0 as int + refs_k + j,
                rel@ == (StoreView {
                    recipes: base.union(name_set(items_seq[k as int].recipes@.take(j as int))),
                    ..v0
                }),
            decreases m - j,
        {
            let ghost va = rel@;
            let _ = rel.ensure_recipe(&doc.collection[k].recipes[j]);
            proof {
                lemma_name_set_take_step(items_seq[k as int].recipes@, j as int);
                assert(rel@.recipes =~= base.union(
                    name_set(items_seq[k as int].recipes@.take(j as int + 1)),
                ));
                assert(rel@ =~= (StoreView {
                    recipes: base.union(name_set(items_seq[k as int].recipes@.take(j as int + 1))),
                    ..v0
                }));
            }
            j += 1;
        }
        proof {
            assert(items_seq[k as int].recipes@.take(m as int) =~= items_seq[k as int].recipes@);
            lemma_ref_recipes_take_step(items_seq, k as int);
            lemma_doc_recipe_refs_take_step(items_seq, k as int);
            assert(rel@.recipes =~= v0.recipes.union(ref_recipes(items_seq.take(k as int + 1))));
            assert(rel@ =~= (StoreView {
                recipes: v0.recipes.union(ref_recipes(items_seq.take(k as int + 1))),
                ..v0
            }));
        }
        k += 1;
    }
    proof {
        assert(items_seq.take(n as int) =~= items_seq);
    }
    let ghost base2 = v0.recipes.union(ref_recipes(items_seq));
    let ghost next1 = rel.next_id;
    let l = doc.list_recipes.len();
    let mut t: usize = 0;
    proof {
        assert(doc.list_recipes@.take(0) =~= Seq::<String>::empty());
        assert(name_set(doc.list_recipes@.take(0)) =~= Set::<Seq<char>>::empty());
        assert(base2.union(Set::<Seq<char>>::empty()) =~= base2);
        assert(rel@ =~= (StoreView { recipes: base2.union(name_set(doc.list_recipes@.take(0))), ..v0 }));
    }
    while t < l
        invariant
            l == doc.list_recipes@.len(),
            0 <= t <= l,
            rel.wf(),
            next1 as int + l <= u32::MAX as int,
            rel.next_id as int <= next1 as int + t,
            base2 == v0.recipes.union(ref_recipes(doc.collection@)),
            rel@ == (StoreView {
                recipes: base2.union(name_set(doc.list_recipes@.take(t as int))),
                ..v0
            }),
        decreases l - t,
    {
        let _ = rel.ensure_recipe(&doc.list_recipes[t]);
        proof {
            lemma_name_set_take_step(doc.list_recipes@, t as int);
            assert(rel@.recipes =~= base2.union(name_set(doc.list_recipes@.take(t as int + 1))));
            assert(rel@ =~= (StoreView {
                recipes: base2.union(name_set(doc.list_recipes@.take(t as int + 1))),
                ..v0
            }));
        }
        t += 1;
    }
    proof {
        assert(doc.list_recipes@.take(l as int) =~= doc.list_recipes@);
    }
}

} // verus!

verus! {

/// Run the migration: sections first, then recipes, then every item with
/// its junction links.  Each step is an insert-ignore, so running the engine
/// against an already-migrated target changes nothing.
///
/// The single `requires` beyond well-formedness bounds the document by the
/// id space of the target (a machine limit): under it the engine cannot
/// fail, and in particular the uniqueness assertion of the section lookup is
/// proved unreachable rather than checked at run time.
#[verifier::rlimit(50)]
pub fn migrate_groceries(doc: &DocumentStore, rel: &mut RelationalStore) -> (r: Result<
    (),
    StoreError,
>)
    requires
        doc.wf(),
        old(rel).wf(),
        old(rel).next_id as int + migrate_alloc_bound(*doc) <= u32::MAX as int,
    ensures
        final(rel).wf(),
        r is Ok,
        final(rel)@ == spec_migrate(old(rel)@, doc@),
{
    let ghost v0 = rel@;
    let ghost next0 = rel.next_id;
    let ghost items_seq = doc.collection@;
    proof {
        lemma_doc_recipe_refs_nonneg(items_seq);
    }
    migrate_sections(doc, rel);
    let ghost v1 = rel@;
    migrate_recipes(doc, rel);
    let ghost v2 = rel@;
    let ghost next_c = rel.next_id;
    proof {
        assert(ref_recipes(items_seq).subset_of(v2.recipes));
        assert(ref_sections(items_seq).subset_of(v2.sections));
        assert(items_seq.take(0) =~= Seq::<DocItem>::empty());
        assert(doc_item_names(items_seq.take(0)) =~= Set::<Seq<char>>::empty());
        assert(doc_item_recipe_pairs(items_seq.take(0)) =~= Set::<(Seq<char>, Seq<char>)>::empty());
        assert(doc_item_section_pairs(items_seq.take(0)) =~= Set::<
            (Seq<char>, Seq<char>),
        >::empty());
        assert(v2.items.union(Set::<Seq<char>>::empty()) =~= v2.items);
        assert(v2.item_recipes.union(Set::<(Seq<char>, Seq<char>)>::empty()) =~= v2.item_recipes);
        assert(v2.item_sections.union(Set::<(Seq<char>, Seq<char>)>::empty()) =~= v2.item_sections);
        assert(rel@ =~= (StoreView {
            items: v2.items.union(doc_item_names(items_seq.take(0))),
            item_recipes: v2.item_recipes.union(doc_item_recipe_pairs(items_seq.take(0))),
            item_sections: v2.item_sections.union(doc_item_section_pairs(items_seq.take(0))),
            ..v2
        }));
    }
    let n = doc.collection.len();
    let mut k: usize = 0;
    while k < n
        invariant
            n == items_seq.len(),
            items_seq == doc.collection@,
            0 <= k <= n,
            doc.wf(),
            rel.wf(),
            next0 as int + migrate_alloc_bound(*doc) <= u32::MAX as int,
            next_c as int <= next0 as int + n + doc_recipe_refs(items_seq)
                + doc.list_recipes@.len(),
            rel.next_id as int <= next_c as int + k,
            ref_recipes(items_seq).subset_of(v2.recipes),
            ref_sections(items_seq).subset_of(v2.sections),
            rel@ == (StoreView {
                items: v2.items.union(doc_item_names(items_seq.take(k as int))),
                item_recipes: v2.item_recipes.union(
                    doc_item_recipe_pairs(items_seq.take(k as int)),
                ),
                item_sections: v2.item_sections.union(
                    doc_item_section_pairs(items_seq.take(k as int)),
                ),
                ..v2
            }),
        decreases n - k,
    {
        proof {
            lemma_doc_recipe_refs_nonneg(items_seq);
        }
        let iid = rel.ensure_item(&doc.collection[k].name);
        let ghost va = rel@;
        let ghost va_next = rel.next_id;
        let ghost name_k = items_seq[k as int].name@;
        let ghost recipes_k = items_seq[k as int].recipes@;
        proof {
            assert(recipes_k.take(0) =~= Seq::<String>::empty());
            assert(name_set(recipes_k.take(0)) =~= Set::<Seq<char>>::empty());
            assert(pairs_for_item(name_k, Set::<Seq<char>>::empty()) =~= Set::<
                (Seq<char>, Seq<char>),
            >::empty());
            assert(va.item_recipes.union(Set::<(Seq<char>, Seq<char>)>::empty())
                =~= va.item_recipes);
            assert(rel@ =~= (StoreView {
                item_recipes: va.item_recipes.union(
                    pairs_for_item(name_k, name_set(recipes_k.take(0))),
                ),
                ..va
            }));
        }
        let m = doc.collection[k].recipes.len();
        let mut j: usize = 0;
        while j < m
            invariant
                items_seq == doc.collection@,
                0 <= k < items_seq.len(),
                name_k == items_seq[k as int].name@,
                recipes_k == items_seq[k as int].recipes@,
                m == recipes_k.len(),
                0 <= j <= m,
                rel.wf(),
                has_id(rel.items@, iid),
                name_of(rel.items@, iid) == name_k,
                ref_recipes(items_seq).subset_of(va.recipes),
                rel.next_id == va_next,
                rel@ == (StoreView {
                    item_recipes: va.item_recipes.union(
                        pairs_for_item(name_k, name_set(recipes_k.take(j as int))),
                    ),
                    ..va
                }),
            decreases m - j,
        {
            let ghost v_before = rel@;
            let r = &doc.collection[k].recipes[j];
            proof {
                lemma_name_set_contains(recipes_k, r@);
                assert(name_set(recipes_k).contains(r@));
                assert(0 <= k < items_seq.len() && name_set(items_seq[k as int].recipes@).contains(
                    r@,
                ));
                assert(ref_recipes(items_seq).contains(r@));
                assert(rel@.recipes.contains(r@));
            }
            let rid2 = rel.ensure_recipe(r);
            proof {
                assert(v_before.recipes.insert(r@) =~= v_before.recipes);
                assert(rel@ =~= v_before);
            }
            let ghost vb = rel@;
            let ghost irb = rel.items_recipes@;
            let ghost items_b = rel.items@;
            ensure_junction(&mut rel.items_recipes, iid, rid2);
            proof {
                if irb.contains((iid, rid2)) {
                    lemma_junction_pairs_member(irb, items_b, rel.recipes@, iid, rid2);
                    assert(vb.item_recipes.insert((name_k, r@)) =~= vb.item_recipes);
                } else {
                    lemma_junction_pairs_push(irb, items_b, rel.recipes@, iid, rid2);
                }
                assert forall|t: int| 0 <= t < rel.items_recipes@.len() implies has_id(
                    rel.items@,
                    (#[trigger] rel.items_recipes@[t]).0,
                ) && has_id(rel.recipes@, rel.items_recipes@[t].1) by {
                    if t < irb.len() {
                    }
                }
                lemma_name_set_take_step(recipes_k, j as int);
                assert(pairs_for_item(name_k, name_set(recipes_k.take(j as int + 1)))
                    =~= pairs_for_item(name_k, name_set(recipes_k.take(j as int))).insert(
                    (name_k, r@),
                ));
                assert(rel@.item_recipes =~= va.item_recipes.union(
                    pairs_for_item(name_k, name_set(recipes_k.take(j as int + 1))),
                ));
                assert(rel@ =~= (StoreView {
                    item_recipes: va.item_recipes.union(
                        pairs_for_item(name_k, name_set(recipes_k.take(j as int + 1))),
                    ),
                    ..va
                }));
            }
            j += 1;
        }
        proof {
            assert(recipes_k.take(m as int) =~= recipes_k);
        }
        let ghost vc = rel@;
        match &doc.collection[k].section {
            Some(s) => {
                proof {
                    assert(0 <= k < items_seq.len() && (items_seq[k as int].section matches Some(
                        sec,
                    ) && sec@ == s@));
                    assert(ref_sections(items_seq).contains(s@));
                    assert(rel@.sections.contains(s@));
                }
                let sid = match find_row(&rel.sections, s) {
                    Some(sid) => sid,
                    None => {
                        proof {
                            assert(false);
                        }
                        return Err(StoreError::MigrationAssertionFailure);
                    },
                };
                let ghost isb = rel.items_sections@;
                let ghost items_c = rel.items@;
                ensure_junction(&mut rel.items_sections, iid, sid);
                proof {
                    if isb.contains((iid, sid)) {
                        lemma_junction_pairs_member(isb, items_c, rel.sections@, iid, sid);
                        assert(vc.item_sections.insert((name_k, s@)) =~= vc.item_sections);
                    } else {
                        lemma_junction_pairs_push(isb, items_c, rel.sections@, iid, sid);
                    }
                    assert forall|t: int| 0 <= t < rel.items_sections@.len() implies has_id(
                        rel.items@,
                        (#[trigger] rel.items_sections@[t]).0,
                    ) && has_id(rel.sections@, rel.items_sections@[t].1) by {
                        if t < isb.len() {
                        }
                    }
                    assert(rel@.item_sections =~= vc.item_sections.insert((name_k, s@)));
                    lemma_doc_item_names_take_step(items_seq, k as int);
                    lemma_doc_item_recipe_pairs_take_step(items_seq, k as int);
                    lemma_doc_item_section_pairs_take_step(items_seq, k as int);
                    assert(rel@.items =~= v2.items.union(
                        doc_item_names(items_seq.take(k as int + 1)),
                    ));
                    assert(rel@.item_recipes =~= v2.item_recipes.union(
                        doc_item_recipe_pairs(items_seq.take(k as int + 1)),
                    ));
                    assert(rel@.item_sections =~= v2.item_sections.union(
                        doc_item_section_pairs(items_seq.take(k as int + 1)),
                    ));
                    assert(rel@ =~= (StoreView {
                        items: v2.items.union(doc_item_names(items_seq.take(k as int + 1))),
                        item_recipes: v2.item_recipes.union(
                            doc_item_recipe_pairs(items_seq.take(k as int + 1)),
                        ),
                        item_sections: v2.item_sections.union(
                            doc_item_section_pairs(items_seq.take(k as int + 1)),
                        ),
                        ..v2
                    }));
                }
            },
            None => {
                proof {
                    lemma_doc_item_names_take_step(items_seq, k as int);
                    lemma_doc_item_recipe_pairs_take_step(items_seq, k as int);
                    lemma_doc_item_section_pairs_take_step(items_seq, k as int);
                    assert(rel@.items =~= v2.items.union(
                        doc_item_names(items_seq.take(k as int + 1)),
                    ));
                    assert(rel@.item_recipes =~= v2.item_recipes.union(
                        doc_item_recipe_pairs(items_seq.take(k as int + 1)),
                    ));
                    assert(rel@.item_sections =~= v2.item_sections.union(
                        doc_item_section_pairs(items_seq.take(k as int + 1)),
                    ));
                    assert(rel@ =~= (StoreView {
                        items: v2.items.union(doc_item_names(items_seq.take(k as int + 1))),
                        item_recipes: v2.item_recipes.union(
                            doc_item_recipe_pairs(items_seq.take(k as int + 1)),
                        ),
                        item_sections: v2.item_sections.union(
                            doc_item_section_pairs(items_seq.take(k as int + 1)),
                        ),
                        ..v2
                    }));
                }
            },
        }
        k += 1;
    }
    proof {
        assert(items_seq.take(n as int) =~= items_seq);
        lemma_migrated_sections_of_doc(*doc);
        lemma_migrated_recipes_of_doc(*doc);
        assert(rel@.sections =~= v0.sections.union(migrated_sections(doc@)));
        assert(rel@.recipes =~= v0.recipes.union(migrated_recipes(doc@)));
        assert(rel@ =~= spec_migrate(v0, doc@));
    }
    Ok(())
}

} // verus!
