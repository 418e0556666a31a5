//! The decision core of the interactive list-building session.
//!
//! When the list is rebuilt, the session walks the catalog one section at a
//! time, adds on its own every item that a selected recipe uses, and asks
//! about the rest.  The two decisions — which items belong to a section's
//! round, and which items join the list without asking — are computed and
//! verified here; the asking itself is I/O and belongs to the caller.

use vstd::prelude::*;

use crate::document::{doc_has_item, DocItem};
use crate::relational::{contains_name, lemma_name_set_contains, lemma_name_set_push};
use crate::view::{name_set, names_distinct};

verus! {

/// Two name sets share an element.
pub open spec fn intersects(a: Set<Seq<char>>, b: Set<Seq<char>>) -> bool {
    exists|x: Seq<char>| a.contains(x) && #[trigger] b.contains(x)
}

/// The names of the catalog items that some selected recipe uses and that
/// are not yet on the list.
pub open spec fn auto_selected(
    catalog: Seq<DocItem>,
    selected: Set<Seq<char>>,
    current: Set<Seq<char>>,
) -> Set<Seq<char>> {
    Set::new(
        |n: Seq<char>|
            exists|i: int|
                0 <= i < catalog.len() && (#[trigger] catalog[i]).name@ == n && !current.contains(
                    n,
                ) && intersects(name_set(catalog[i].recipes@), selected),
    )
}

/// The names of the catalog items carrying a section label.
pub open spec fn section_members(catalog: Seq<DocItem>, section: Seq<char>) -> Set<Seq<char>> {
    Set::new(
        |n: Seq<char>|
            exists|i: int|
                0 <= i < catalog.len() && (#[trigger] catalog[i]).name@ == n && (catalog[i].section
                    matches Some(s) && s@ == section),
    )
}

/// Whether two name lists share a name.
fn names_intersect(a: &Vec<String>, b: &Vec<String>) -> (r: bool)
    ensures
        r == intersects(name_set(a@), name_set(b@)),
{
    let len = a.len();
    let mut i: usize = 0;
    while i < len
        invariant
            len == a@.len(),
            0 <= i <= len,
            forall|j: int| 0 <= j < i ==> !name_set(b@).contains((#[trigger] a@[j])@),
        decreases len - i,
    {
        if contains_name(b, &a[i]) {
            proof {
                lemma_name_set_contains(a@, a@[i as int]@);
            }
            return true;
        }
        i += 1;
    }
    proof {
        assert forall|x: Seq<char>|
            !(name_set(a@).contains(x) && name_set(b@).contains(x)) by {
            lemma_name_set_contains(a@, x);
            if name_set(a@).contains(x) {
                let j = choose|j: int| 0 <= j < a@.len() && a@[j]@ == x;
            }
        }
    }
    return false;
}

/// The items that join the list without asking: every catalog item that is
/// not on the list yet and that a selected recipe uses.
pub fn auto_select(catalog: &Vec<DocItem>, selected: &Vec<String>, current: &Vec<String>) -> (r:
    Vec<String>)
    ensures
        name_set(r@) == auto_selected(catalog@, name_set(selected@), name_set(current@)),
        names_distinct(r@),
{
    let len = catalog.len();
    let mut out: Vec<String> = Vec::new();
    let mut i: usize = 0;
    proof {
        assert forall|x: Seq<char>| !name_set(out@).contains(x) by {
            lemma_name_set_contains(out@, x);
        }
        assert(catalog@.take(0) =~= Seq::<DocItem>::empty());
        assert(name_set(out@) =~= auto_selected(
            catalog@.take(0),
            name_set(selected@),
            name_set(current@),
        ));
    }
    while i < len
        invariant
            len == catalog@.len(),
            0 <= i <= len,
            name_set(out@) == auto_selected(
                catalog@.take(i as int),
                name_set(selected@),
                name_set(current@),
            ),
            names_distinct(out@),
        decreases len - i,
    {
        let ghost pre = catalog@.take(i as int);
        let ghost post = catalog@.take(i as int + 1);
        let picked = !contains_name(current, &catalog[i].name) && names_intersect(
            &catalog[i].recipes,
            selected,
        );
        let ghost out0 = out@;
        if picked {
            if !contains_name(&out, &catalog[i].name) {
                out.push(catalog[i].name.clone());
                proof {
                    lemma_name_set_push(out0, catalog@[i as int].name);
                    assert forall|j1: int, j2: int| 0 <= j1 < j2 < out@.len() implies out@[j1]@
                        != out@[j2]@ by {
                        if j2 == out0.len() {
                            lemma_name_set_contains(out0, out@[j1]@);
                        }
                    }
                }
            } else {
                proof {
                    assert(name_set(out@).insert(catalog@[i as int].name@) =~= name_set(out@));
                }
            }
        }
        proof {
            assert(post =~= pre.push(catalog@[i as int]));
            let sel = name_set(selected@);
            let cur = name_set(current@);
            assert forall|n: Seq<char>|
                name_set(out@).contains(n) == auto_selected(post, sel, cur).contains(n) by {
                if auto_selected(post, sel, cur).contains(n) {
                    let t = choose|t: int|
                        0 <= t < post.len() && (#[trigger] post[t]).name@ == n && !cur.contains(n)
                            && intersects(name_set(post[t].recipes@), sel);
                    if t < i {
                        assert(pre[t] == post[t]);
                        assert(auto_selected(pre, sel, cur).contains(n));
                    } else {
                        assert(post[t] == catalog@[i as int]);
                        assert(picked);
                    }
                }
                if name_set(out0).contains(n) {
                    let t = choose|t: int|
                        0 <= t < pre.len() && (#[trigger] pre[t]).name@ == n && !cur.contains(n)
                            && intersects(name_set(pre[t].recipes@), sel);
                    assert(post[t] == pre[t]);
                    assert(auto_selected(post, sel, cur).contains(n));
                }
                if picked && n == catalog@[i as int].name@ {
                    assert(post[i as int] == catalog@[i as int]);
                    assert(auto_selected(post, sel, cur).contains(n));
                }
            }
            assert(name_set(out@) =~= auto_selected(post, sel, cur));
        }
        i += 1;
    }
    proof {
        assert(catalog@.take(len as int) =~= catalog@);
    }
    out
}

/// One section's round of the catalog: the names of the items the session
/// offers while walking that section.
pub fn section_round(catalog: &Vec<DocItem>, section: &String) -> (r: Vec<String>)
    ensures
        name_set(r@) == section_members(catalog@, section@),
        names_distinct(r@),
{
    let len = catalog.len();
    let mut out: Vec<String> = Vec::new();
    let mut i: usize = 0;
    proof {
        assert forall|x: Seq<char>| !name_set(out@).contains(x) by {
            lemma_name_set_contains(out@, x);
        }
        assert(catalog@.take(0) =~= Seq::<DocItem>::empty());
        assert(name_set(out@) =~= section_members(catalog@.take(0), section@));
    }
    while i < len
        invariant
            len == catalog@.len(),
            0 <= i <= len,
            name_set(out@) == section_members(catalog@.take(i as int), section@),
            names_distinct(out@),
        decreases len - i,
    {
        let ghost pre = catalog@.take(i as int);
        let ghost post = catalog@.take(i as int + 1);
        let picked = match &catalog[i].section {
            Some(s) => *s == *section,
            None => false,
        };
        let ghost out0 = out@;
        if picked {
            if !contains_name(&out, &catalog[i].name) {
                out.push(catalog[i].name.clone());
                proof {
                    lemma_name_set_push(out0, catalog@[i as int].name);
                    assert forall|j1: int, j2: int| 0 <= j1 < j2 < out@.len() implies out@[j1]@
                        != out@[j2]@ by {
                        if j2 == out0.len() {
                            lemma_name_set_contains(out0, out@[j1]@);
                        }
                    }
                }
            } else {
                proof {
                    assert(name_set(out@).insert(catalog@[i as int].name@) =~= name_set(out@));
                }
            }
        }
        proof {
            assert(post =~= pre.push(catalog@[i as int]));
            assert forall|n: Seq<char>|
                name_set(out@).contains(n) == section_members(post, section@).contains(n) by {
                if section_members(post, section@).contains(n) {
                    let t = choose|t: int|
                        0 <= t < post.len() && (#[trigger] post[t]).name@ == n && (post[t].section
                            matches Some(s) && s@ == section@);
                    if t < i {
                        assert(pre[t] == post[t]);
                        assert(section_members(pre, section@).contains(n));
                    } else {
                        assert(post[t] == catalog@[i as int]);
                        assert(picked);
                    }
                }
                if name_set(out0).contains(n) {
                    let t = choose|t: int|
                        0 <= t < pre.len() && (#[trigger] pre[t]).name@ == n && (pre[t].section
                            matches Some(s) && s@ == section@);
                    assert(post[t] == pre[t]);
                    assert(section_members(post, section@).contains(n));
                }
                if picked && n == catalog@[i as int].name@ {
                    assert(post[i as int] == catalog@[i as int]);
                    assert(section_members(post, section@).contains(n));
                }
            }
            assert(name_set(out@) =~= section_members(post, section@));
        }
        i += 1;
    }
    proof {
        assert(catalog@.take(len as int) =~= catalog@);
    }
    out
}

} // verus!
