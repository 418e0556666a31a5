//! The relational backend.
//!
//! Six logical tables — items, recipes, sections, list marks, list-recipe
//! marks, checklist marks — plus the two junction tables, all rows carrying
//! surrogate `u32` ids.  Every name table keeps names and ids unique, every
//! mark and junction row references an existing id, and every operation is
//! specified by the transformers of [`crate::view`].  The core primitive is
//! `ensure_row` (get-or-insert-id): insert the name if absent, then return
//! its id, which makes every "ensure entity exists" step idempotent.

use vstd::prelude::*;

use crate::store::StoreError;
use crate::view::{
    name_seq, name_set, names_distinct, pairs_with, spec_add_checklist_item, spec_add_item,
    spec_add_list_item, spec_add_list_recipe, spec_add_recipe, spec_delete_checklist_item,
    spec_delete_recipe, spec_refresh_list, StoreView,
};

verus! {

/// A row of one of the three name tables: a surrogate id and a unique name.
pub struct Row {
    pub id: u32,
    pub name: String,
}

/// Ids of a table, in row order.
pub open spec fn row_ids(rows: Seq<Row>) -> Seq<u32> {
    rows.map_values(|r: Row| r.id)
}

/// Names of a table, in row order.
pub open spec fn row_names(rows: Seq<Row>) -> Seq<Seq<char>> {
    rows.map_values(|r: Row| r.name@)
}

/// Both ids and names are unique within the table.
pub open spec fn rows_distinct(rows: Seq<Row>) -> bool {
    forall|i: int, j: int|
        0 <= i < j < rows.len() ==> rows[i].id != rows[j].id && rows[i].name@ != rows[j].name@
}

/// Every id of the table lies below `bound`.
pub open spec fn ids_below(rows: Seq<Row>, bound: u32) -> bool {
    forall|i: int| 0 <= i < rows.len() ==> (#[trigger] rows[i].id) < bound
}

/// Some row of the table has this id.
pub open spec fn has_id(rows: Seq<Row>, id: u32) -> bool {
    exists|i: int| 0 <= i < rows.len() && rows[i].id == id
}

/// Some row of the table has this name.
pub open spec fn has_name(rows: Seq<Row>, name: Seq<char>) -> bool {
    exists|i: int| 0 <= i < rows.len() && rows[i].name@ == name
}

/// The name stored under an id (meaningful when `has_id` holds and ids are
/// unique).
pub open spec fn name_of(rows: Seq<Row>, id: u32) -> Seq<char> {
    rows[choose|i: int| 0 <= i < rows.len() && rows[i].id == id].name@
}

/// The id stored under a name (meaningful when `has_name` holds and names
/// are unique).
pub open spec fn id_of(rows: Seq<Row>, name: Seq<char>) -> u32 {
    rows[choose|i: int| 0 <= i < rows.len() && rows[i].name@ == name].id
}

/// The set of names of the table.
pub open spec fn rows_name_set(rows: Seq<Row>) -> Set<Seq<char>> {
    Set::new(|n: Seq<char>| has_name(rows, n))
}

/// No repeated mark.
pub open spec fn marks_distinct(marks: Seq<u32>) -> bool {
    forall|i: int, j: int| 0 <= i < j < marks.len() ==> marks[i] != marks[j]
}

/// Every mark references a row of the table.
pub open spec fn marks_valid(marks: Seq<u32>, rows: Seq<Row>) -> bool {
    forall|k: int| 0 <= k < marks.len() ==> has_id(rows, #[trigger] marks[k])
}

/// The names marked by a mark table.
pub open spec fn marked_names(rows: Seq<Row>, marks: Seq<u32>) -> Set<Seq<char>> {
    Set::new(
        |n: Seq<char>|
            exists|k: int|
                0 <= k < marks.len() && has_id(rows, marks[k]) && name_of(rows, marks[k]) == n,
    )
}

/// No repeated junction row.
pub open spec fn pairs_distinct(js: Seq<(u32, u32)>) -> bool {
    forall|i: int, j: int| 0 <= i < j < js.len() ==> js[i] != js[j]
}

/// Every junction row references existing rows on both sides.
pub open spec fn pairs_valid(js: Seq<(u32, u32)>, left: Seq<Row>, right: Seq<Row>) -> bool {
    forall|k: int|
        0 <= k < js.len() ==> has_id(left, (#[trigger] js[k]).0) && has_id(right, js[k].1)
}

/// The junction relation lifted to names.
pub open spec fn junction_pairs(js: Seq<(u32, u32)>, left: Seq<Row>, right: Seq<Row>) -> Set<
    (Seq<char>, Seq<char>),
> {
    Set::new(
        |p: (Seq<char>, Seq<char>)|
            exists|k: int|
                0 <= k < js.len() && has_id(left, (#[trigger] js[k]).0) && has_id(right, js[k].1)
                    && name_of(left, js[k].0) == p.0 && name_of(right, js[k].1) == p.1,
    )
}

/// In a table with unique ids, `name_of` agrees with every witnessing row.
pub proof fn lemma_name_of(rows: Seq<Row>, k: int)
    requires
        rows_distinct(rows),
        0 <= k < rows.len(),
    ensures
        has_id(rows, rows[k].id),
        name_of(rows, rows[k].id) == rows[k].name@,
{
    assert(has_id(rows, rows[k].id));
    let i = choose|i: int| 0 <= i < rows.len() && rows[i].id == rows[k].id;
    if i != k {
        if i < k {
            assert(rows[i].id != rows[k].id);
        } else {
            assert(rows[k].id != rows[i].id);
        }
        assert(false);
    }
}

/// In a table with unique names, `id_of` agrees with every witnessing row.
pub proof fn lemma_id_of(rows: Seq<Row>, k: int)
    requires
        rows_distinct(rows),
        0 <= k < rows.len(),
    ensures
        has_name(rows, rows[k].name@),
        id_of(rows, rows[k].name@) == rows[k].id,
{
    assert(has_name(rows, rows[k].name@));
    let i = choose|i: int| 0 <= i < rows.len() && rows[i].name@ == rows[k].name@;
    if i != k {
        if i < k {
            assert(rows[i].name@ != rows[k].name@);
        } else {
            assert(rows[k].name@ != rows[i].name@);
        }
        assert(false);
    }
}

/// A present name's id points back at that name.
pub proof fn lemma_name_id_roundtrip(rows: Seq<Row>, n: Seq<char>)
    requires
        rows_distinct(rows),
        has_name(rows, n),
    ensures
        has_id(rows, id_of(rows, n)),
        name_of(rows, id_of(rows, n)) == n,
{
    let k = choose|k: int| 0 <= k < rows.len() && rows[k].name@ == n;
    lemma_id_of(rows, k);
    lemma_name_of(rows, k);
}

/// Distinct rows give names injectively: two present ids with equal names
/// are the same id.
pub proof fn lemma_name_of_injective(rows: Seq<Row>, id1: u32, id2: u32)
    requires
        rows_distinct(rows),
        has_id(rows, id1),
        has_id(rows, id2),
        name_of(rows, id1) == name_of(rows, id2),
    ensures
        id1 == id2,
{
    let i = choose|i: int| 0 <= i < rows.len() && rows[i].id == id1;
    let j = choose|j: int| 0 <= j < rows.len() && rows[j].id == id2;
    lemma_name_of(rows, i);
    lemma_name_of(rows, j);
    if i != j {
        if i < j {
            assert(rows[i].name@ != rows[j].name@);
        } else {
            assert(rows[j].name@ != rows[i].name@);
        }
        assert(false);
    }
}

/// Marked names are names of the table.
pub proof fn lemma_marked_names_subset(rows: Seq<Row>, marks: Seq<u32>)
    ensures
        marked_names(rows, marks).subset_of(rows_name_set(rows)),
{
    assert forall|n: Seq<char>| marked_names(rows, marks).contains(n) implies rows_name_set(
        rows,
    ).contains(n) by {
        let k = choose|k: int|
            0 <= k < marks.len() && has_id(rows, marks[k]) && name_of(rows, marks[k]) == n;
        let i = choose|i: int| 0 <= i < rows.len() && rows[i].id == marks[k];
        assert(rows[i].name@ == n);
        assert(has_name(rows, n));
    }
}

/// Growing the tables without touching the ids a mark table references
/// leaves the marked names unchanged.
pub proof fn lemma_marked_names_stable(rows1: Seq<Row>, rows2: Seq<Row>, marks: Seq<u32>)
    requires
        marks_valid(marks, rows1),
        forall|id: u32|
            has_id(rows1, id) ==> has_id(rows2, id) && name_of(rows2, id) == name_of(rows1, id),
    ensures
        marked_names(rows2, marks) == marked_names(rows1, marks),
{
    assert forall|n: Seq<char>|
        marked_names(rows2, marks).contains(n) == marked_names(rows1, marks).contains(n) by {
        if marked_names(rows1, marks).contains(n) {
            let k = choose|k: int|
                0 <= k < marks.len() && has_id(rows1, marks[k]) && name_of(rows1, marks[k]) == n;
            assert(has_id(rows2, marks[k]) && name_of(rows2, marks[k]) == n);
        }
        if marked_names(rows2, marks).contains(n) {
            let k = choose|k: int|
                0 <= k < marks.len() && has_id(rows2, marks[k]) && name_of(rows2, marks[k]) == n;
            assert(has_id(rows1, marks[k]));
            assert(name_of(rows1, marks[k]) == n);
        }
    }
    assert(marked_names(rows2, marks) =~= marked_names(rows1, marks));
}

/// Growing the side tables without touching the ids a junction table
/// references leaves the junction's name pairs unchanged.
pub proof fn lemma_junction_pairs_stable(
    js: Seq<(u32, u32)>,
    left1: Seq<Row>,
    left2: Seq<Row>,
    right1: Seq<Row>,
    right2: Seq<Row>,
)
    requires
        pairs_valid(js, left1, right1),
        forall|id: u32|
            has_id(left1, id) ==> has_id(left2, id) && name_of(left2, id) == name_of(left1, id),
        forall|id: u32|
            has_id(right1, id) ==> has_id(right2, id) && name_of(right2, id) == name_of(right1, id),
    ensures
        junction_pairs(js, left2, right2) == junction_pairs(js, left1, right1),
{
    assert forall|p: (Seq<char>, Seq<char>)|
        junction_pairs(js, left2, right2).contains(p) == junction_pairs(
            js,
            left1,
            right1,
        ).contains(p) by {
        if junction_pairs(js, left1, right1).contains(p) {
            let k = choose|k: int|
                0 <= k < js.len() && has_id(left1, js[k].0) && has_id(right1, js[k].1) && name_of(
                    left1,
                    js[k].0,
                ) == p.0 && name_of(right1, js[k].1) == p.1;
            assert(has_id(left2, js[k].0) && has_id(right2, js[k].1));
            assert(0 <= k < js.len() && has_id(left2, js[k].0) && has_id(right2, js[k].1)
                && name_of(left2, js[k].0) == p.0 && name_of(right2, js[k].1) == p.1);
        }
        if junction_pairs(js, left2, right2).contains(p) {
            let k = choose|k: int|
                0 <= k < js.len() && has_id(left2, js[k].0) && has_id(right2, js[k].1) && name_of(
                    left2,
                    js[k].0,
                ) == p.0 && name_of(right2, js[k].1) == p.1;
            assert(has_id(left1, js[k].0) && has_id(right1, js[k].1));
            assert(0 <= k < js.len() && has_id(left1, js[k].0) && has_id(right1, js[k].1)
                && name_of(left1, js[k].0) == p.0 && name_of(right1, js[k].1) == p.1);
        }
    }
    assert(junction_pairs(js, left2, right2) =~= junction_pairs(js, left1, right1));
}

/// Pushing a fresh row adds exactly its name to the table and preserves
/// every existing lookup.
pub proof fn lemma_push_fresh(rows: Seq<Row>, r: Row)
    requires
        rows_distinct(rows),
        !has_id(rows, r.id),
        !has_name(rows, r.name@),
    ensures
        rows_distinct(rows.push(r)),
        has_id(rows.push(r), r.id),
        has_name(rows.push(r), r.name@),
        name_of(rows.push(r), r.id) == r.name@,
        id_of(rows.push(r), r.name@) == r.id,
        rows_name_set(rows.push(r)) == rows_name_set(rows).insert(r.name@),
        forall|id: u32|
            has_id(rows, id) ==> has_id(rows.push(r), id) && name_of(rows.push(r), id) == name_of(
                rows,
                id,
            ),
        forall|n: Seq<char>|
            has_name(rows, n) ==> has_name(rows.push(r), n) && id_of(rows.push(r), n) == id_of(
                rows,
                n,
            ),
{
    let rows2 = rows.push(r);
    assert forall|i: int, j: int| 0 <= i < j < rows2.len() implies rows2[i].id != rows2[j].id
        && rows2[i].name@ != rows2[j].name@ by {
        if j < rows.len() {
        } else {
            assert(rows2[j] == r);
            assert(rows2[i] == rows[i]);
            if rows2[i].id == r.id {
                assert(has_id(rows, r.id));
            }
            if rows2[i].name@ == r.name@ {
                assert(has_name(rows, r.name@));
            }
        }
    }
    assert(rows2[rows.len() as int] == r);
    lemma_name_of(rows2, rows.len() as int);
    lemma_id_of(rows2, rows.len() as int);
    assert forall|id: u32| has_id(rows, id) implies has_id(rows2, id) && name_of(rows2, id)
        == name_of(rows, id) by {
        let i = choose|i: int| 0 <= i < rows.len() && rows[i].id == id;
        assert(rows2[i] == rows[i]);
        lemma_name_of(rows2, i);
        lemma_name_of(rows, i);
    }
    assert forall|n: Seq<char>| has_name(rows, n) implies has_name(rows2, n) && id_of(rows2, n)
        == id_of(rows, n) by {
        let i = choose|i: int| 0 <= i < rows.len() && rows[i].name@ == n;
        assert(rows2[i] == rows[i]);
        lemma_id_of(rows2, i);
        lemma_id_of(rows, i);
    }
    assert forall|n: Seq<char>|
        rows_name_set(rows2).contains(n) == rows_name_set(rows).insert(r.name@).contains(n) by {
        if has_name(rows2, n) {
            let i = choose|i: int| 0 <= i < rows2.len() && rows2[i].name@ == n;
            if i < rows.len() {
                assert(has_name(rows, n));
            } else {
                assert(n == r.name@);
            }
        }
        if n == r.name@ {
            assert(has_name(rows2, n));
        }
        if has_name(rows, n) {
            let i = choose|i: int| 0 <= i < rows.len() && rows[i].name@ == n;
            assert(rows2[i] == rows[i]);
            assert(has_name(rows2, n));
        }
    }
    assert(rows_name_set(rows2) =~= rows_name_set(rows).insert(r.name@));
}

/// Find the row carrying a name; `None` when the table has no such row.
pub(crate) fn find_row(rows: &Vec<Row>, name: &String) -> (r: Option<u32>)
    requires
        rows_distinct(rows@),
    ensures
        match r {
            Some(id) => has_name(rows@, name@) && id == id_of(rows@, name@) && has_id(rows@, id)
                && name_of(rows@, id) == name@,
            None => !has_name(rows@, name@),
        },
{
    let n = rows.len();
    let mut i: usize = 0;
    while i < n
        invariant
            n == rows@.len(),
            0 <= i <= n,
            rows_distinct(rows@),
            forall|j: int| 0 <= j < i ==> rows@[j].name@ != name@,
        decreases n - i,
    {
        if rows[i].name == *name {
            proof {
                lemma_id_of(rows@, i as int);
                lemma_name_id_roundtrip(rows@, name@);
            }
            return Some(rows[i].id);
        }
        i += 1;
    }
    return None;
}

/// Find the name carried by an id; `None` when the table has no such row.
pub(crate) fn find_row_by_id<'a>(rows: &'a Vec<Row>, id: u32) -> (r: Option<&'a String>)
    requires
        rows_distinct(rows@),
    ensures
        match r {
            Some(n) => has_id(rows@, id) && n@ == name_of(rows@, id),
            None => !has_id(rows@, id),
        },
{
    let n = rows.len();
    let mut i: usize = 0;
    while i < n
        invariant
            n == rows@.len(),
            0 <= i <= n,
            rows_distinct(rows@),
            forall|j: int| 0 <= j < i ==> rows@[j].id != id,
        decreases n - i,
    {
        if rows[i].id == id {
            proof {
                lemma_name_of(rows@, i as int);
            }
            return Some(&rows[i].name);
        }
        i += 1;
    }
    return None;
}

/// Whether a mark table holds an id.
pub(crate) fn contains_mark(marks: &Vec<u32>, id: u32) -> (b: bool)
    ensures
        b == marks@.contains(id),
{
    let n = marks.len();
    let mut i: usize = 0;
    while i < n
        invariant
            n == marks@.len(),
            0 <= i <= n,
            forall|j: int| 0 <= j < i ==> marks@[j] != id,
        decreases n - i,
    {
        if marks[i] == id {
            assert(marks@[i as int] == id);
            return true;
        }
        i += 1;
    }
    assert(!marks@.contains(id));
    return false;
}

/// Whether a junction table holds a pair.
pub(crate) fn contains_pair(js: &Vec<(u32, u32)>, a: u32, b: u32) -> (r: bool)
    ensures
        r == js@.contains((a, b)),
{
    let n = js.len();
    let mut i: usize = 0;
    while i < n
        invariant
            n == js@.len(),
            0 <= i <= n,
            forall|j: int| 0 <= j < i ==> js@[j] != (a, b),
        decreases n - i,
    {
        if js[i].0 == a && js[i].1 == b {
            assert(js@[i as int] == (a, b));
            return true;
        }
        i += 1;
    }
    assert(!js@.contains((a, b)));
    return false;
}

/// Get-or-insert-id over one name table: insert the name if absent (ignoring
/// the duplicate otherwise), then return the id the name carries.
pub(crate) fn ensure_row(rows: &mut Vec<Row>, next_id: &mut u32, name: &String) -> (id: u32)
    requires
        rows_distinct(old(rows)@),
        ids_below(old(rows)@, *old(next_id)),
        !has_name(old(rows)@, name@) ==> *old(next_id) < u32::MAX,
    ensures
        rows_distinct(final(rows)@),
        ids_below(final(rows)@, *final(next_id)),
        *old(next_id) <= *final(next_id) <= *old(next_id) + 1,
        has_name(final(rows)@, name@),
        has_id(final(rows)@, id),
        name_of(final(rows)@, id) == name@,
        id_of(final(rows)@, name@) == id,
        rows_name_set(final(rows)@) == rows_name_set(old(rows)@).insert(name@),
        forall|i: u32|
            has_id(old(rows)@, i) ==> has_id(final(rows)@, i) && name_of(final(rows)@, i)
                == name_of(old(rows)@, i),
        forall|n: Seq<char>|
            has_name(old(rows)@, n) ==> has_name(final(rows)@, n) && id_of(final(rows)@, n)
                == id_of(old(rows)@, n),
        has_name(old(rows)@, name@) ==> final(rows)@ == old(rows)@ && *final(next_id) == *old(
            next_id,
        ),
{
    match find_row(rows, name) {
        Some(id) => {
            proof {
                assert(rows_name_set(rows@) =~= rows_name_set(rows@).insert(name@));
            }
            id
        },
        None => {
            let id = *next_id;
            *next_id = id + 1;
            let ghost rows0 = rows@;
            let row = Row { id, name: name.clone() };
            proof {
                if has_id(rows0, id) {
                    let i = choose|i: int| 0 <= i < rows0.len() && rows0[i].id == id;
                    assert(rows0[i].id < id);
                }
                assert(row.name@ == name@);
            }
            rows.push(row);
            proof {
                lemma_push_fresh(rows0, Row { id, name: *name });
                assert(rows@ =~= rows0.push(Row { id, name: *name }));
                assert forall|i: int| 0 <= i < rows@.len() implies (#[trigger] rows@[i].id) < *next_id by {
                    if i < rows0.len() {
                        assert(rows0[i].id < id);
                    }
                }
            }
            id
        },
    }
}

} // verus!

verus! {

/// Pushing a mark for a present id adds exactly that id's name to the
/// marked set.
pub proof fn lemma_marked_names_push(rows: Seq<Row>, marks: Seq<u32>, id: u32)
    requires
        has_id(rows, id),
    ensures
        marked_names(rows, marks.push(id)) == marked_names(rows, marks).insert(name_of(rows, id)),
{
    let marks2 = marks.push(id);
    assert forall|n: Seq<char>|
        marked_names(rows, marks2).contains(n) == marked_names(rows, marks).insert(
            name_of(rows, id),
        ).contains(n) by {
        if marked_names(rows, marks2).contains(n) {
            let k = choose|k: int|
                0 <= k < marks2.len() && has_id(rows, marks2[k]) && name_of(rows, marks2[k]) == n;
            if k < marks.len() {
                assert(marks2[k] == marks[k]);
                assert(marked_names(rows, marks).contains(n));
            } else {
                assert(marks2[k] == id);
            }
        }
        if n == name_of(rows, id) {
            assert(marks2[marks.len() as int] == id);
            assert(marked_names(rows, marks2).contains(n));
        }
        if marked_names(rows, marks).contains(n) {
            let k = choose|k: int|
                0 <= k < marks.len() && has_id(rows, marks[k]) && name_of(rows, marks[k]) == n;
            assert(marks2[k] == marks[k]);
            assert(marked_names(rows, marks2).contains(n));
        }
    }
    assert(marked_names(rows, marks2) =~= marked_names(rows, marks).insert(name_of(rows, id)));
}

/// A mark already present contributes its name to the marked set.
pub proof fn lemma_marked_names_member(rows: Seq<Row>, marks: Seq<u32>, id: u32)
    requires
        has_id(rows, id),
        marks.contains(id),
    ensures
        marked_names(rows, marks).contains(name_of(rows, id)),
{
    let k = choose|k: int| 0 <= k < marks.len() && marks[k] == id;
    assert(has_id(rows, marks[k]) && name_of(rows, marks[k]) == name_of(rows, id));
}

/// Pushing a junction row for present ids adds exactly its name pair.
pub proof fn lemma_junction_pairs_push(
    js: Seq<(u32, u32)>,
    left: Seq<Row>,
    right: Seq<Row>,
    a: u32,
    b: u32,
)
    requires
        has_id(left, a),
        has_id(right, b),
    ensures
        junction_pairs(js.push((a, b)), left, right) == junction_pairs(js, left, right).insert(
            (name_of(left, a), name_of(right, b)),
        ),
{
    let js2 = js.push((a, b));
    let q = (name_of(left, a), name_of(right, b));
    assert forall|p: (Seq<char>, Seq<char>)|
        junction_pairs(js2, left, right).contains(p) == junction_pairs(js, left, right).insert(
            q,
        ).contains(p) by {
        if junction_pairs(js2, left, right).contains(p) {
            let k = choose|k: int|
                0 <= k < js2.len() && has_id(left, js2[k].0) && has_id(right, js2[k].1) && name_of(
                    left,
                    js2[k].0,
                ) == p.0 && name_of(right, js2[k].1) == p.1;
            if k < js.len() {
                assert(js2[k] == js[k]);
                assert(junction_pairs(js, left, right).contains(p));
            } else {
                assert(js2[k] == (a, b));
                assert(p == q);
            }
        }
        if p == q {
            assert(js2[js.len() as int] == (a, b));
            assert(junction_pairs(js2, left, right).contains(p));
        }
        if junction_pairs(js, left, right).contains(p) {
            let k = choose|k: int|
                0 <= k < js.len() && has_id(left, js[k].0) && has_id(right, js[k].1) && name_of(
                    left,
                    js[k].0,
                ) == p.0 && name_of(right, js[k].1) == p.1;
            assert(js2[k] == js[k]);
            assert(junction_pairs(js2, left, right).contains(p));
        }
    }
    assert(junction_pairs(js2, left, right) =~= junction_pairs(js, left, right).insert(q));
}

/// A junction row already present contributes its name pair.
pub proof fn lemma_junction_pairs_member(
    js: Seq<(u32, u32)>,
    left: Seq<Row>,
    right: Seq<Row>,
    a: u32,
    b: u32,
)
    requires
        has_id(left, a),
        has_id(right, b),
        js.contains((a, b)),
    ensures
        junction_pairs(js, left, right).contains((name_of(left, a), name_of(right, b))),
{
    let k = choose|k: int| 0 <= k < js.len() && js[k] == (a, b);
    assert(has_id(left, js[k].0) && has_id(right, js[k].1));
    assert(name_of(left, js[k].0) == name_of(left, a));
}

/// Add a mark unless it is already there.
pub(crate) fn ensure_mark(marks: &mut Vec<u32>, id: u32)
    requires
        marks_distinct(old(marks)@),
    ensures
        marks_distinct(final(marks)@),
        final(marks)@ == if old(marks)@.contains(id) {
            old(marks)@
        } else {
            old(marks)@.push(id)
        },
{
    if !contains_mark(marks, id) {
        let ghost marks0 = marks@;
        marks.push(id);
        proof {
            assert forall|i: int, j: int| 0 <= i < j < marks@.len() implies marks@[i] != marks@[j] by {
                if j == marks0.len() {
                    assert(marks@[j] == id);
                    assert(marks0.contains(marks0[i]));
                }
            }
        }
    }
}

/// Add a junction row unless it is already there.
pub(crate) fn ensure_junction(js: &mut Vec<(u32, u32)>, a: u32, b: u32)
    requires
        pairs_distinct(old(js)@),
    ensures
        pairs_distinct(final(js)@),
        final(js)@ == if old(js)@.contains((a, b)) {
            old(js)@
        } else {
            old(js)@.push((a, b))
        },
{
    if !contains_pair(js, a, b) {
        let ghost js0 = js@;
        js.push((a, b));
        proof {
            assert forall|i: int, j: int| 0 <= i < j < js@.len() implies js@[i] != js@[j] by {
                if j == js0.len() {
                    assert(js@[j] == (a, b));
                    assert(js0.contains(js0[i]));
                }
            }
        }
    }
}

} // verus!

verus! {

/// The relational store: three name tables, three mark tables, two junction
/// tables, and the next free surrogate id.
///
/// The fields are public so that the specifications can speak about them;
/// treat them as read-only outside this module.
pub struct RelationalStore {
    /// The item catalog.
    pub items: Vec<Row>,
    /// The recipe catalog.
    pub recipes: Vec<Row>,
    /// The section catalog.
    pub sections: Vec<Row>,
    /// Item ids currently on the shopping list.
    pub list: Vec<u32>,
    /// Recipe ids currently on the shopping list.
    pub list_recipes: Vec<u32>,
    /// Item ids currently on the checklist.
    pub checklist: Vec<u32>,
    /// The item-recipe junction table, as `(item_id, recipe_id)` rows.
    pub items_recipes: Vec<(u32, u32)>,
    /// The item-section junction table, as `(item_id, section_id)` rows.
    pub items_sections: Vec<(u32, u32)>,
    /// The next unused surrogate id, shared by the three name tables.
    pub next_id: u32,
}

impl View for RelationalStore {
    type V = StoreView;

    open spec fn view(&self) -> StoreView {
        StoreView {
            items: rows_name_set(self.items@),
            recipes: rows_name_set(self.recipes@),
            sections: rows_name_set(self.sections@),
            list_items: marked_names(self.items@, self.list@),
            list_recipes: marked_names(self.recipes@, self.list_recipes@),
            checklist: marked_names(self.items@, self.checklist@),
            item_recipes: junction_pairs(self.items_recipes@, self.items@, self.recipes@),
            item_sections: junction_pairs(self.items_sections@, self.items@, self.sections@),
        }
    }
}

impl RelationalStore {
    /// The schema invariant: unique ids and names in every name table, every
    /// mark and junction row referencing an existing id, no duplicate marks
    /// or junction rows, and all ids below `next_id`.
    pub open spec fn wf(self) -> bool {
        &&& rows_distinct(self.items@)
        &&& rows_distinct(self.recipes@)
        &&& rows_distinct(self.sections@)
        &&& ids_below(self.items@, self.next_id)
        &&& ids_below(self.recipes@, self.next_id)
        &&& ids_below(self.sections@, self.next_id)
        &&& marks_distinct(self.list@)
        &&& marks_valid(self.list@, self.items@)
        &&& marks_distinct(self.checklist@)
        &&& marks_valid(self.checklist@, self.items@)
        &&& marks_distinct(self.list_recipes@)
        &&& marks_valid(self.list_recipes@, self.recipes@)
        &&& pairs_distinct(self.items_recipes@)
        &&& pairs_valid(self.items_recipes@, self.items@, self.recipes@)
        &&& pairs_distinct(self.items_sections@)
        &&& pairs_valid(self.items_sections@, self.items@, self.sections@)
    }

    /// An empty store.
    pub fn new() -> (s: RelationalStore)
        ensures
            s.wf(),
            s@ == crate::view::empty_view(),
            s.next_id == 0,
    {
        let s = RelationalStore {
            items: Vec::new(),
            recipes: Vec::new(),
            sections: Vec::new(),
            list: Vec::new(),
            list_recipes: Vec::new(),
            checklist: Vec::new(),
            items_recipes: Vec::new(),
            items_sections: Vec::new(),
            next_id: 0,
        };
        proof {
            assert(s@ =~= crate::view::empty_view());
        }
        s
    }

    /// Get-or-insert the id of an item name.
    pub(crate) fn ensure_item(&mut self, name: &String) -> (id: u32)
        requires
            old(self).wf(),
            old(self).next_id < u32::MAX || old(self)@.items.contains(name@),
        ensures
            final(self).wf(),
            final(self)@ == spec_add_item(old(self)@, name@),
            old(self).next_id <= final(self).next_id <= old(self).next_id + 1,
            old(self)@.items.contains(name@) ==> final(self).next_id == old(self).next_id,
            has_id(final(self).items@, id),
            has_name(final(self).items@, name@),
            name_of(final(self).items@, id) == name@,
            id_of(final(self).items@, name@) == id,
            final(self).recipes == old(self).recipes,
            final(self).sections == old(self).sections,
            final(self).list == old(self).list,
            final(self).list_recipes == old(self).list_recipes,
            final(self).checklist == old(self).checklist,
            final(self).items_recipes == old(self).items_recipes,
            final(self).items_sections == old(self).items_sections,
            forall|i: u32|
                has_id(old(self).items@, i) ==> has_id(final(self).items@, i) && name_of(
                    final(self).items@,
                    i,
                ) == name_of(old(self).items@, i),
    {
        let ghost v0 = self@;
        let ghost items0 = self.items@;
        let ghost next0 = self.next_id;
        let id = ensure_row(&mut self.items, &mut self.next_id, name);
        proof {
            lemma_marked_names_stable(items0, self.items@, self.list@);
            lemma_marked_names_stable(items0, self.items@, self.checklist@);
            lemma_junction_pairs_stable(
                self.items_recipes@,
                items0,
                self.items@,
                self.recipes@,
                self.recipes@,
            );
            lemma_junction_pairs_stable(
                self.items_sections@,
                items0,
                self.items@,
                self.sections@,
                self.sections@,
            );
            assert(self@ =~= spec_add_item(v0, name@));
            assert forall|i: int| 0 <= i < self.recipes@.len() implies (
            #[trigger] self.recipes@[i].id) < self.next_id by {
                assert(self.recipes@[i].id < next0);
            }
            assert forall|i: int| 0 <= i < self.sections@.len() implies (
            #[trigger] self.sections@[i].id) < self.next_id by {
                assert(self.sections@[i].id < next0);
            }
            assert forall|k: int| 0 <= k < self.list@.len() implies has_id(
                self.items@,
                #[trigger] self.list@[k],
            ) by {
                assert(has_id(items0, self.list@[k]));
            }
            assert forall|k: int| 0 <= k < self.checklist@.len() implies has_id(
                self.items@,
                #[trigger] self.checklist@[k],
            ) by {
                assert(has_id(items0, self.checklist@[k]));
            }
            assert forall|k: int| 0 <= k < self.items_recipes@.len() implies has_id(
                self.items@,
                (#[trigger] self.items_recipes@[k]).0,
            ) && has_id(self.recipes@, self.items_recipes@[k].1) by {
                assert(has_id(items0, self.items_recipes@[k].0));
            }
            assert forall|k: int| 0 <= k < self.items_sections@.len() implies has_id(
                self.items@,
                (#[trigger] self.items_sections@[k]).0,
            ) && has_id(self.sections@, self.items_sections@[k].1) by {
                assert(has_id(items0, self.items_sections@[k].0));
            }
        }
        id
    }

    /// Get-or-insert the id of a recipe name.
    pub(crate) fn ensure_recipe(&mut self, name: &String) -> (id: u32)
        requires
            old(self).wf(),
            old(self).next_id < u32::MAX || old(self)@.recipes.contains(name@),
        ensures
            final(self).wf(),
            final(self)@ == (StoreView { recipes: old(self)@.recipes.insert(name@), ..old(self)@ }),
            old(self).next_id <= final(self).next_id <= old(self).next_id + 1,
            old(self)@.recipes.contains(name@) ==> final(self).next_id == old(self).next_id,
            has_id(final(self).recipes@, id),
            has_name(final(self).recipes@, name@),
            name_of(final(self).recipes@, id) == name@,
            id_of(final(self).recipes@, name@) == id,
            final(self).items == old(self).items,
            final(self).sections == old(self).sections,
            final(self).list == old(self).list,
            final(self).list_recipes == old(self).list_recipes,
            final(self).checklist == old(self).checklist,
            final(self).items_recipes == old(self).items_recipes,
            final(self).items_sections == old(self).items_sections,
            forall|i: u32|
                has_id(old(self).recipes@, i) ==> has_id(final(self).recipes@, i) && name_of(
                    final(self).recipes@,
                    i,
                ) == name_of(old(self).recipes@, i),
    {
        let ghost v0 = self@;
        let ghost recipes0 = self.recipes@;
        let ghost next0 = self.next_id;
        let id = ensure_row(&mut self.recipes, &mut self.next_id, name);
        proof {
            lemma_marked_names_stable(recipes0, self.recipes@, self.list_recipes@);
            lemma_junction_pairs_stable(
                self.items_recipes@,
                self.items@,
                self.items@,
                recipes0,
                self.recipes@,
            );
            assert(self@ =~= (StoreView { recipes: v0.recipes.insert(name@), ..v0 }));
            assert forall|i: int| 0 <= i < self.items@.len() implies (
            #[trigger] self.items@[i].id) < self.next_id by {
                assert(self.items@[i].id < next0);
            }
            assert forall|i: int| 0 <= i < self.sections@.len() implies (
            #[trigger] self.sections@[i].id) < self.next_id by {
                assert(self.sections@[i].id < next0);
            }
            assert forall|k: int| 0 <= k < self.list_recipes@.len() implies has_id(
                self.recipes@,
                #[trigger] self.list_recipes@[k],
            ) by {
                assert(has_id(recipes0, self.list_recipes@[k]));
            }
            assert forall|k: int| 0 <= k < self.items_recipes@.len() implies has_id(
                self.items@,
                (#[trigger] self.items_recipes@[k]).0,
            ) && has_id(self.recipes@, self.items_recipes@[k].1) by {
                assert(has_id(recipes0, self.items_recipes@[k].1));
            }
        }
        id
    }

    /// Get-or-insert the id of a section name.
    pub(crate) fn ensure_section(&mut self, name: &String) -> (id: u32)
        requires
            old(self).wf(),
            old(self).next_id < u32::MAX || old(self)@.sections.contains(name@),
        ensures
            final(self).wf(),
            final(self)@ == (StoreView {
                sections: old(self)@.sections.insert(name@),
                ..old(self)@
            }),
            old(self).next_id <= final(self).next_id <= old(self).next_id + 1,
            old(self)@.sections.contains(name@) ==> final(self).next_id == old(self).next_id,
            has_id(final(self).sections@, id),
            has_name(final(self).sections@, name@),
            name_of(final(self).sections@, id) == name@,
            id_of(final(self).sections@, name@) == id,
            final(self).items == old(self).items,
            final(self).recipes == old(self).recipes,
            final(self).list == old(self).list,
            final(self).list_recipes == old(self).list_recipes,
            final(self).checklist == old(self).checklist,
            final(self).items_recipes == old(self).items_recipes,
            final(self).items_sections == old(self).items_sections,
            forall|i: u32|
                has_id(old(self).sections@, i) ==> has_id(final(self).sections@, i) && name_of(
                    final(self).sections@,
                    i,
                ) == name_of(old(self).sections@, i),
    {
        let ghost v0 = self@;
        let ghost sections0 = self.sections@;
        let ghost next0 = self.next_id;
        let id = ensure_row(&mut self.sections, &mut self.next_id, name);
        proof {
            lemma_junction_pairs_stable(
                self.items_sections@,
                self.items@,
                self.items@,
                sections0,
                self.sections@,
            );
            assert(self@ =~= (StoreView { sections: v0.sections.insert(name@), ..v0 }));
            assert forall|i: int| 0 <= i < self.items@.len() implies (
            #[trigger] self.items@[i].id) < self.next_id by {
                assert(self.items@[i].id < next0);
            }
            assert forall|i: int| 0 <= i < self.recipes@.len() implies (
            #[trigger] self.recipes@[i].id) < self.next_id by {
                assert(self.recipes@[i].id < next0);
            }
            assert forall|k: int| 0 <= k < self.items_sections@.len() implies has_id(
                self.items@,
                (#[trigger] self.items_sections@[k]).0,
            ) && has_id(self.sections@, self.items_sections@[k].1) by {
                assert(has_id(sections0, self.items_sections@[k].1));
            }
        }
        id
    }
}

} // verus!

verus! {

/// `name_set` membership is existence of an index carrying the name.
pub proof fn lemma_name_set_contains(names: Seq<String>, n: Seq<char>)
    ensures
        name_set(names).contains(n) <==> (exists|i: int| 0 <= i < names.len() && names[i]@ == n),
{
    if name_set(names).contains(n) {
        let i = choose|i: int| 0 <= i < name_seq(names).len() && name_seq(names)[i] == n;
        assert(names[i]@ == n);
    }
    if exists|i: int| 0 <= i < names.len() && names[i]@ == n {
        let i = choose|i: int| 0 <= i < names.len() && names[i]@ == n;
        assert(name_seq(names)[i] == n);
        assert(name_seq(names).contains(n));
    }
}

/// Whether a name list holds a name.
pub(crate) fn contains_name(names: &Vec<String>, n: &String) -> (b: bool)
    ensures
        b == name_set(names@).contains(n@),
{
    let len = names.len();
    let mut i: usize = 0;
    while i < len
        invariant
            len == names@.len(),
            0 <= i <= len,
            forall|j: int| 0 <= j < i ==> names@[j]@ != n@,
        decreases len - i,
    {
        if names[i] == *n {
            proof {
                lemma_name_set_contains(names@, n@);
            }
            return true;
        }
        i += 1;
    }
    proof {
        lemma_name_set_contains(names@, n@);
    }
    return false;
}

/// The names of a table, cloned in row order.
pub(crate) fn table_names(rows: &Vec<Row>) -> (r: Vec<String>)
    requires
        rows_distinct(rows@),
    ensures
        name_seq(r@) == row_names(rows@),
        name_set(r@) == rows_name_set(rows@),
        names_distinct(r@),
{
    let len = rows.len();
    let mut out: Vec<String> = Vec::new();
    let mut i: usize = 0;
    while i < len
        invariant
            len == rows@.len(),
            0 <= i <= len,
            rows_distinct(rows@),
            out@.len() == i,
            forall|j: int| 0 <= j < i ==> out@[j]@ == rows@[j].name@,
        decreases len - i,
    {
        out.push(rows[i].name.clone());
        i += 1;
    }
    proof {
        assert(name_seq(out@) =~= row_names(rows@));
        assert forall|n: Seq<char>|
            name_set(out@).contains(n) == rows_name_set(rows@).contains(n) by {
            lemma_name_set_contains(out@, n);
            if name_set(out@).contains(n) {
                let i = choose|i: int| 0 <= i < out@.len() && out@[i]@ == n;
                assert(rows@[i].name@ == n);
            }
            if has_name(rows@, n) {
                let i = choose|i: int| 0 <= i < rows@.len() && rows@[i].name@ == n;
                assert(out@[i]@ == n);
            }
        }
        assert(name_set(out@) =~= rows_name_set(rows@));
    }
    out
}

/// Restricting a mark table to a prefix and then adding one more mark adds
/// that mark's name.
pub proof fn lemma_marked_names_take_step(rows: Seq<Row>, marks: Seq<u32>, k: int)
    requires
        0 <= k < marks.len(),
        has_id(rows, marks[k]),
    ensures
        marked_names(rows, marks.take(k + 1)) == marked_names(rows, marks.take(k)).insert(
            name_of(rows, marks[k]),
        ),
{
    assert(marks.take(k + 1) =~= marks.take(k).push(marks[k]));
    lemma_marked_names_push(rows, marks.take(k), marks[k]);
}

/// The names a mark table marks, cloned, without duplicates.
pub(crate) fn marked_names_vec(rows: &Vec<Row>, marks: &Vec<u32>) -> (r: Vec<String>)
    requires
        rows_distinct(rows@),
        marks_valid(marks@, rows@),
    ensures
        name_set(r@) == marked_names(rows@, marks@),
        names_distinct(r@),
{
    let len = marks.len();
    let mut out: Vec<String> = Vec::new();
    let mut i: usize = 0;
    while i < len
        invariant
            len == marks@.len(),
            0 <= i <= len,
            rows_distinct(rows@),
            marks_valid(marks@, rows@),
            name_set(out@) == marked_names(rows@, marks@.take(i as int)),
            names_distinct(out@),
        decreases len - i,
    {
        assert(has_id(rows@, marks@[i as int]));
        let name = match find_row_by_id(rows, marks[i]) {
            Some(n) => n.clone(),
            None => {
                proof {
                    assert(false);
                }
                String::new()
            },
        };
        let ghost out0 = out@;
        if !contains_name(&out, &name) {
            out.push(name);
            proof {
                assert forall|j1: int, j2: int| 0 <= j1 < j2 < out@.len() implies out@[j1]@
                    != out@[j2]@ by {
                    if j2 == out0.len() {
                        lemma_name_set_contains(out0, out@[j1]@);
                    }
                }
                assert forall|n: Seq<char>|
                    name_set(out@).contains(n) == name_set(out0).insert(name@).contains(n) by {
                    lemma_name_set_contains(out@, n);
                    lemma_name_set_contains(out0, n);
                    if name_set(out0).contains(n) {
                        let j = choose|j: int| 0 <= j < out0.len() && out0[j]@ == n;
                        assert(out@[j]@ == n);
                    }
                    if n == name@ {
                        assert(out@[out0.len() as int]@ == n);
                    }
                    if name_set(out@).contains(n) {
                        let j = choose|j: int| 0 <= j < out@.len() && out@[j]@ == n;
                        if j < out0.len() {
                            assert(out0[j]@ == n);
                        }
                    }
                }
                assert(name_set(out@) =~= name_set(out0).insert(name@));
            }
        } else {
            proof {
                assert(name_set(out@).insert(name@) =~= name_set(out@));
            }
        }
        proof {
            lemma_marked_names_take_step(rows@, marks@, i as int);
        }
        i += 1;
    }
    proof {
        assert(marks@.take(len as int) =~= marks@);
    }
    out
}

/// Remove every occurrence of an id from a mark table.
fn remove_mark(marks: &mut Vec<u32>, id: u32)
    requires
        marks_distinct(old(marks)@),
    ensures
        marks_distinct(final(marks)@),
        forall|x: u32| final(marks)@.contains(x) <==> old(marks)@.contains(x) && x != id,
{
    let ghost marks0 = marks@;
    let len = marks.len();
    let mut kept: Vec<u32> = Vec::new();
    let mut i: usize = 0;
    while i < len
        invariant
            len == marks0.len(),
            marks@ == marks0,
            0 <= i <= len,
            marks_distinct(marks0),
            marks_distinct(kept@),
            forall|x: u32| kept@.contains(x) <==> marks0.take(i as int).contains(x) && x != id,
        decreases len - i,
    {
        let ghost kept0 = kept@;
        if marks[i] != id {
            kept.push(marks[i]);
            proof {
                assert forall|j1: int, j2: int| 0 <= j1 < j2 < kept@.len() implies kept@[j1]
                    != kept@[j2] by {
                    if j2 == kept0.len() {
                        assert(kept0.contains(kept0[j1]));
                        let t = choose|t: int|
                            0 <= t < i && marks0.take(i as int)[t] == kept0[j1];
                        assert(marks0[t] == kept0[j1]);
                        assert(marks0[i as int] == kept@[j2]);
                    }
                }
            }
        }
        proof {
            assert(marks0.take(i + 1) =~= marks0.take(i as int).push(marks0[i as int]));
            assert forall|x: u32|
                kept@.contains(x) == (marks0.take(i + 1).contains(x) && x != id) by {
                if kept@.contains(x) {
                    let j = choose|j: int| 0 <= j < kept@.len() && kept@[j] == x;
                    if j < kept0.len() {
                        assert(kept0.contains(x));
                    } else {
                        assert(x == marks0[i as int]);
                        assert(marks0.take(i + 1)[i as int] == x);
                        assert(marks0.take(i + 1).contains(x));
                    }
                }
                if marks0.take(i + 1).contains(x) && x != id {
                    let j = choose|j: int|
                        0 <= j < i + 1 && #[trigger] marks0.take(i + 1)[j] == x;
                    if j < i {
                        assert(marks0.take(i as int)[j] == x);
                        assert(marks0.take(i as int).contains(x));
                        assert(kept0.contains(x));
                        let j2 = choose|j2: int| 0 <= j2 < kept0.len() && kept0[j2] == x;
                        assert(kept@[j2] == x);
                        assert(kept@.contains(x));
                    } else {
                        assert(marks0[i as int] == x);
                        assert(kept@[kept0.len() as int] == x);
                    }
                }
            }
        }
        i += 1;
    }
    proof {
        assert(marks0.take(len as int) =~= marks0);
    }
    *marks = kept;
}

/// Remove every junction row whose right id equals `b`.
fn remove_junctions_right(js: &mut Vec<(u32, u32)>, b: u32)
    requires
        pairs_distinct(old(js)@),
    ensures
        pairs_distinct(final(js)@),
        forall|p: (u32, u32)| final(js)@.contains(p) <==> old(js)@.contains(p) && p.1 != b,
{
    let ghost js0 = js@;
    let len = js.len();
    let mut kept: Vec<(u32, u32)> = Vec::new();
    let mut i: usize = 0;
    while i < len
        invariant
            len == js0.len(),
            js@ == js0,
            0 <= i <= len,
            pairs_distinct(js0),
            pairs_distinct(kept@),
            forall|p: (u32, u32)| kept@.contains(p) <==> js0.take(i as int).contains(p) && p.1 != b,
        decreases len - i,
    {
        let ghost kept0 = kept@;
        if js[i].1 != b {
            let row = (js[i].0, js[i].1);
            proof {
                assert(row == js0[i as int]);
            }
            kept.push(row);
            proof {
                assert forall|j1: int, j2: int| 0 <= j1 < j2 < kept@.len() implies kept@[j1]
                    != kept@[j2] by {
                    if j2 == kept0.len() {
                        assert(kept0.contains(kept0[j1]));
                        let t = choose|t: int| 0 <= t < i && js0.take(i as int)[t] == kept0[j1];
                        assert(js0[t] == kept0[j1]);
                        assert(js0[i as int] == kept@[j2]);
                    }
                }
            }
        }
        proof {
            assert(js0.take(i + 1) =~= js0.take(i as int).push(js0[i as int]));
            assert forall|p: (u32, u32)|
                kept@.contains(p) == (js0.take(i + 1).contains(p) && p.1 != b) by {
                if kept@.contains(p) {
                    let j = choose|j: int| 0 <= j < kept@.len() && kept@[j] == p;
                    if j < kept0.len() {
                        assert(kept0.contains(p));
                    } else {
                        assert(p == js0[i as int]);
                        assert(js0.take(i + 1)[i as int] == p);
                        assert(js0.take(i + 1).contains(p));
                    }
                }
                if js0.take(i + 1).contains(p) && p.1 != b {
                    let j = choose|j: int|
                        0 <= j < i + 1 && #[trigger] js0.take(i + 1)[j] == p;
                    if j < i {
                        assert(js0.take(i as int)[j] == p);
                        assert(js0.take(i as int).contains(p));
                        assert(kept0.contains(p));
                        let j2 = choose|j2: int| 0 <= j2 < kept0.len() && kept0[j2] == p;
                        assert(kept@[j2] == p);
                        assert(kept@.contains(p));
                    } else {
                        assert(js0[i as int] == p);
                        assert(kept@[kept0.len() as int] == p);
                    }
                }
            }
        }
        i += 1;
    }
    proof {
        assert(js0.take(len as int) =~= js0);
    }
    *js = kept;
}

/// Remove the row carrying an id from a name table.
#[verifier::rlimit(30)]
fn remove_row_by_id(rows: &mut Vec<Row>, id: u32)
    requires
        rows_distinct(old(rows)@),
        has_id(old(rows)@, id),
    ensures
        rows_distinct(final(rows)@),
        forall|k: int| 0 <= k < final(rows)@.len() ==> old(rows)@.contains(
            #[trigger] final(rows)@[k],
        ),
        forall|k: int| 0 <= k < final(rows)@.len() ==> (#[trigger] final(rows)@[k]).id != id,
        forall|i: u32|
            has_id(old(rows)@, i) && i != id ==> has_id(final(rows)@, i) && name_of(
                final(rows)@,
                i,
            ) == name_of(old(rows)@, i),
        forall|i: u32| has_id(final(rows)@, i) ==> has_id(old(rows)@, i) && i != id,
        forall|n: Seq<char>|
            has_name(final(rows)@, n) <==> has_name(old(rows)@, n) && n != name_of(old(rows)@, id),
{
    let ghost rows0 = rows@;
    let len = rows.len();
    let mut kept: Vec<Row> = Vec::new();
    let mut i: usize = 0;
    while i < len
        invariant
            len == rows0.len(),
            rows@ == rows0,
            0 <= i <= len,
            rows_distinct(rows0),
            kept@.len() <= i,
            forall|k: int|
                0 <= k < kept@.len() ==> (exists|t: int|
                    0 <= t < i && rows0[t] == #[trigger] kept@[k]),
            forall|k: int| 0 <= k < kept@.len() ==> (#[trigger] kept@[k]).id != id,
            forall|t: int|
                0 <= t < i && rows0[t].id != id ==> (exists|k: int|
                    0 <= k < kept@.len() && kept@[k] == #[trigger] rows0[t]),
            rows_distinct(kept@),
        decreases len - i,
    {
        let ghost kept0 = kept@;
        if rows[i].id != id {
            let row = Row { id: rows[i].id, name: rows[i].name.clone() };
            proof {
                assert(row == rows0[i as int]);
            }
            kept.push(row);
            proof {
                assert(kept@[kept0.len() as int] == rows0[i as int]);
                assert forall|j1: int, j2: int| 0 <= j1 < j2 < kept@.len() implies kept@[j1].id
                    != kept@[j2].id && kept@[j1].name@ != kept@[j2].name@ by {
                    if j2 == kept0.len() {
                        let t = choose|t: int| 0 <= t < i && rows0[t] == kept0[j1];
                        assert(rows0[t].id != rows0[i as int].id);
                        assert(rows0[t].name@ != rows0[i as int].name@);
                    }
                }
            }
        }
        proof {
            assert forall|t: int| 0 <= t < i + 1 && rows0[t].id != id implies (exists|k: int|
                0 <= k < kept@.len() && kept@[k] == #[trigger] rows0[t]) by {
                if t < i {
                    let k = choose|k: int| 0 <= k < kept0.len() && kept0[k] == rows0[t];
                    assert(kept@[k] == rows0[t]);
                } else {
                    assert(kept@[kept0.len() as int] == rows0[t]);
                }
            }
        }
        i += 1;
    }
    proof {
        let removed = choose|t: int| 0 <= t < rows0.len() && rows0[t].id == id;
        lemma_name_of(rows0, removed);
        assert forall|i2: u32| has_id(rows0, i2) && i2 != id implies has_id(kept@, i2) && name_of(
            kept@,
            i2,
        ) == name_of(rows0, i2) by {
            let t = choose|t: int| 0 <= t < rows0.len() && rows0[t].id == i2;
            let k = choose|k: int| 0 <= k < kept@.len() && kept@[k] == rows0[t];
            lemma_name_of(kept@, k);
            lemma_name_of(rows0, t);
        }
        assert forall|i2: u32| has_id(kept@, i2) implies has_id(rows0, i2) && i2 != id by {
            let k = choose|k: int| 0 <= k < kept@.len() && kept@[k].id == i2;
            let t = choose|t: int| 0 <= t < rows0.len() && rows0[t] == kept@[k];
            assert(rows0[t].id == i2);
        }
        assert forall|n: Seq<char>|
            has_name(kept@, n) == (has_name(rows0, n) && n != name_of(rows0, id)) by {
            if has_name(kept@, n) {
                let k = choose|k: int| 0 <= k < kept@.len() && kept@[k].name@ == n;
                let t = choose|t: int| 0 <= t < rows0.len() && rows0[t] == kept@[k];
                assert(has_name(rows0, n));
                if n == name_of(rows0, id) {
                    assert(rows0[t].name@ == rows0[removed].name@);
                    if t != removed {
                        if t < removed {
                            assert(rows0[t].name@ != rows0[removed].name@);
                        } else {
                            assert(rows0[removed].name@ != rows0[t].name@);
                        }
                    }
                    assert(false);
                }
            }
            if has_name(rows0, n) && n != name_of(rows0, id) {
                let t = choose|t: int| 0 <= t < rows0.len() && rows0[t].name@ == n;
                if rows0[t].id == id {
                    if t != removed {
                        if t < removed {
                            assert(rows0[t].id != rows0[removed].id);
                        } else {
                            assert(rows0[removed].id != rows0[t].id);
                        }
                    }
                    assert(false);
                }
                let k = choose|k: int| 0 <= k < kept@.len() && kept@[k] == rows0[t];
                assert(kept@[k].name@ == n);
            }
        }
    }
    *rows = kept;
}

} // verus!

verus! {

impl RelationalStore {
    /// Upsert an item into the catalog.
    pub fn add_item(&mut self, item: &str) -> (r: Result<(), StoreError>)
        requires
            old(self).wf(),
        ensures
            final(self).wf(),
            r is Err <==> old(self).next_id == u32::MAX && !old(self)@.items.contains(item@),
            r is Ok ==> final(self)@ == spec_add_item(old(self)@, item@),
            r is Err ==> *final(self) == *old(self) && r == Err::<(), StoreError>(
                StoreError::CapacityExhausted,
            ),
    {
        let name: String = item.to_owned();
        if self.next_id == u32::MAX {
            if find_row(&self.items, &name).is_none() {
                return Err(StoreError::CapacityExhausted);
            }
        }
        let _ = self.ensure_item(&name);
        Ok(())
    }

    /// Upsert an item, then mark it on the checklist.
    pub fn add_checklist_item(&mut self, item: &str) -> (r: Result<(), StoreError>)
        requires
            old(self).wf(),
        ensures
            final(self).wf(),
            r is Err <==> old(self).next_id == u32::MAX && !old(self)@.items.contains(item@),
            r is Ok ==> final(self)@ == spec_add_checklist_item(old(self)@, item@),
            r is Err ==> *final(self) == *old(self) && r == Err::<(), StoreError>(
                StoreError::CapacityExhausted,
            ),
    {
        let name: String = item.to_owned();
        if self.next_id == u32::MAX {
            if find_row(&self.items, &name).is_none() {
                return Err(StoreError::CapacityExhausted);
            }
        }
        let id = self.ensure_item(&name);
        let ghost v1 = self@;
        let ghost items1 = self.items@;
        let ghost cl0 = self.checklist@;
        ensure_mark(&mut self.checklist, id);
        proof {
            if cl0.contains(id) {
                lemma_marked_names_member(items1, cl0, id);
                assert(v1.checklist.insert(name@) =~= v1.checklist);
            } else {
                lemma_marked_names_push(items1, cl0, id);
            }
            assert forall|k: int| 0 <= k < self.checklist@.len() implies has_id(
                self.items@,
                #[trigger] self.checklist@[k],
            ) by {
                if k < cl0.len() {
                    assert(has_id(items1, cl0[k]));
                }
            }
            assert(self@ =~= spec_add_checklist_item(old(self)@, item@));
        }
        Ok(())
    }

    /// Upsert an item, then mark it on the shopping list.
    pub fn add_list_item(&mut self, item: &str) -> (r: Result<(), StoreError>)
        requires
            old(self).wf(),
        ensures
            final(self).wf(),
            r is Err <==> old(self).next_id == u32::MAX && !old(self)@.items.contains(item@),
            r is Ok ==> final(self)@ == spec_add_list_item(old(self)@, item@),
            r is Err ==> *final(self) == *old(self) && r == Err::<(), StoreError>(
                StoreError::CapacityExhausted,
            ),
    {
        let name: String = item.to_owned();
        if self.next_id == u32::MAX {
            if find_row(&self.items, &name).is_none() {
                return Err(StoreError::CapacityExhausted);
            }
        }
        let id = self.ensure_item(&name);
        let ghost v1 = self@;
        let ghost items1 = self.items@;
        let ghost list0 = self.list@;
        ensure_mark(&mut self.list, id);
        proof {
            if list0.contains(id) {
                lemma_marked_names_member(items1, list0, id);
                assert(v1.list_items.insert(name@) =~= v1.list_items);
            } else {
                lemma_marked_names_push(items1, list0, id);
            }
            assert forall|k: int| 0 <= k < self.list@.len() implies has_id(
                self.items@,
                #[trigger] self.list@[k],
            ) by {
                if k < list0.len() {
                    assert(has_id(items1, list0[k]));
                }
            }
            assert(self@ =~= spec_add_list_item(old(self)@, item@));
        }
        Ok(())
    }

    /// Clear all list-item and list-recipe marks; the catalog and the
    /// checklist are untouched.
    pub fn refresh_list(&mut self) -> (r: Result<(), StoreError>)
        requires
            old(self).wf(),
        ensures
            final(self).wf(),
            r is Ok,
            final(self)@ == spec_refresh_list(old(self)@),
    {
        self.list.clear();
        self.list_recipes.clear();
        proof {
            assert(marked_names(self.items@, self.list@) =~= Set::<Seq<char>>::empty());
            assert(marked_names(self.recipes@, self.list_recipes@) =~= Set::<Seq<char>>::empty());
            assert(self@ =~= spec_refresh_list(old(self)@));
        }
        Ok(())
    }

    /// Load the name an item id carries, if the id exists.
    pub fn load_item(&self, item_id: u32) -> (r: Option<String>)
        requires
            self.wf(),
        ensures
            match r {
                Some(n) => has_id(self.items@, item_id) && n@ == name_of(self.items@, item_id),
                None => !has_id(self.items@, item_id),
            },
    {
        match find_row_by_id(&self.items, item_id) {
            Some(n) => Some(n.clone()),
            None => None,
        }
    }

    /// Full read of the item catalog, in row order.
    pub fn items(&self) -> (r: Result<Vec<String>, StoreError>)
        requires
            self.wf(),
        ensures
            r is Ok,
            r matches Ok(names) ==> name_set(names@) == self@.items && names_distinct(names@)
                && name_seq(names@) == row_names(self.items@),
    {
        Ok(table_names(&self.items))
    }

    /// Full read of the recipe catalog, in row order.
    pub fn recipes(&self) -> (r: Result<Vec<String>, StoreError>)
        requires
            self.wf(),
        ensures
            r is Ok,
            r matches Ok(names) ==> name_set(names@) == self@.recipes && names_distinct(names@)
                && name_seq(names@) == row_names(self.recipes@),
    {
        Ok(table_names(&self.recipes))
    }

    /// Full read of the section catalog, in row order.
    pub fn sections(&self) -> (r: Result<Vec<String>, StoreError>)
        requires
            self.wf(),
        ensures
            r is Ok,
            r matches Ok(names) ==> name_set(names@) == self@.sections && names_distinct(names@)
                && name_seq(names@) == row_names(self.sections@),
    {
        Ok(table_names(&self.sections))
    }

    /// Full read of the checklist.
    pub fn checklist(&self) -> (r: Result<Vec<String>, StoreError>)
        requires
            self.wf(),
        ensures
            r is Ok,
            r matches Ok(names) ==> name_set(names@) == self@.checklist && names_distinct(names@),
    {
        Ok(marked_names_vec(&self.items, &self.checklist))
    }

    /// Full read of the items on the shopping list.
    pub fn list_items(&self) -> (r: Result<Vec<String>, StoreError>)
        requires
            self.wf(),
        ensures
            r is Ok,
            r matches Ok(names) ==> name_set(names@) == self@.list_items && names_distinct(names@),
    {
        Ok(marked_names_vec(&self.items, &self.list))
    }

    /// Full read of the recipes on the shopping list.
    pub fn list_recipes(&self) -> (r: Result<Vec<String>, StoreError>)
        requires
            self.wf(),
        ensures
            r is Ok,
            r matches Ok(names) ==> name_set(names@) == self@.list_recipes && names_distinct(
                names@,
            ),
    {
        Ok(marked_names_vec(&self.recipes, &self.list_recipes))
    }

    /// Full read of the shopping list: its items, its recipes, and the
    /// checklist.
    pub fn list(&self) -> (r: Result<crate::store::List, StoreError>)
        requires
            self.wf(),
        ensures
            r is Ok,
            r matches Ok(l) ==> name_set(l.items@) == self@.list_items && names_distinct(l.items@)
                && name_set(l.recipes@) == self@.list_recipes && names_distinct(l.recipes@)
                && name_set(l.checklist@) == self@.checklist && names_distinct(l.checklist@),
    {
        Ok(
            crate::store::List {
                items: marked_names_vec(&self.items, &self.list),
                recipes: marked_names_vec(&self.recipes, &self.list_recipes),
                checklist: marked_names_vec(&self.items, &self.checklist),
            },
        )
    }

    /// Unmark an item from the checklist; the catalog entry remains.
    pub fn delete_checklist_item(&mut self, item: &str) -> (r: Result<(), StoreError>)
        requires
            old(self).wf(),
        ensures
            final(self).wf(),
            r is Ok,
            final(self)@ == spec_delete_checklist_item(old(self)@, item@),
    {
        let name: String = item.to_owned();
        match find_row(&self.items, &name) {
            None => {
                proof {
                    lemma_marked_names_subset(self.items@, self.checklist@);
                    assert(!old(self)@.checklist.contains(item@));
                    assert(old(self)@.checklist.remove(item@) =~= old(self)@.checklist);
                    assert(self@ =~= spec_delete_checklist_item(old(self)@, item@));
                }
                Ok(())
            },
            Some(id) => {
                let ghost items0 = self.items@;
                let ghost cl0 = self.checklist@;
                remove_mark(&mut self.checklist, id);
                proof {
                    let cl1 = self.checklist@;
                    assert forall|n: Seq<char>|
                        marked_names(items0, cl1).contains(n) == marked_names(items0, cl0).remove(
                            item@,
                        ).contains(n) by {
                        if marked_names(items0, cl1).contains(n) {
                            let k = choose|k: int|
                                0 <= k < cl1.len() && has_id(items0, cl1[k]) && name_of(
                                    items0,
                                    cl1[k],
                                ) == n;
                            let x = cl1[k];
                            assert(cl1.contains(x));
                            assert(cl0.contains(x) && x != id);
                            let k0 = choose|k0: int| 0 <= k0 < cl0.len() && cl0[k0] == x;
                            assert(marked_names(items0, cl0).contains(n));
                            if n == item@ {
                                lemma_name_of_injective(items0, x, id);
                                assert(false);
                            }
                        }
                        if marked_names(items0, cl0).remove(item@).contains(n) {
                            let k = choose|k: int|
                                0 <= k < cl0.len() && has_id(items0, cl0[k]) && name_of(
                                    items0,
                                    cl0[k],
                                ) == n;
                            let x = cl0[k];
                            if x == id {
                                assert(n == item@);
                                assert(false);
                            }
                            assert(cl0.contains(x));
                            assert(cl1.contains(x));
                            let k2 = choose|k2: int| 0 <= k2 < cl1.len() && cl1[k2] == x;
                            assert(marked_names(items0, cl1).contains(n));
                        }
                    }
                    assert(marked_names(items0, cl1) =~= marked_names(items0, cl0).remove(item@));
                    assert forall|k: int| 0 <= k < cl1.len() implies has_id(
                        self.items@,
                        #[trigger] cl1[k],
                    ) by {
                        assert(cl1.contains(cl1[k]));
                        assert(cl0.contains(cl1[k]));
                        let t = choose|t: int| 0 <= t < cl0.len() && cl0[t] == cl1[k];
                        assert(has_id(items0, cl0[t]));
                    }
                    assert(self@ =~= spec_delete_checklist_item(old(self)@, item@));
                }
                Ok(())
            },
        }
    }
}

} // verus!

verus! {

/// Pushing a name onto a name list inserts it into the name set.
pub proof fn lemma_name_set_push(names: Seq<String>, x: String)
    ensures
        name_set(names.push(x)) == name_set(names).insert(x@),
{
    assert forall|n: Seq<char>|
        name_set(names.push(x)).contains(n) == name_set(names).insert(x@).contains(n) by {
        lemma_name_set_contains(names.push(x), n);
        lemma_name_set_contains(names, n);
        if name_set(names.push(x)).contains(n) {
            let i = choose|i: int| 0 <= i < names.push(x).len() && names.push(x)[i]@ == n;
            if i < names.len() {
                assert(names[i]@ == n);
            } else {
                assert(n == x@);
            }
        }
        if n == x@ {
            assert(names.push(x)[names.len() as int]@ == n);
        }
        if name_set(names).contains(n) {
            let i = choose|i: int| 0 <= i < names.len() && names[i]@ == n;
            assert(names.push(x)[i]@ == n);
        }
    }
    assert(name_set(names.push(x)) =~= name_set(names).insert(x@));
}

/// Taking one more element of a name list inserts its name into the set of
/// the prefix.
pub proof fn lemma_name_set_take_step(names: Seq<String>, k: int)
    requires
        0 <= k < names.len(),
    ensures
        name_set(names.take(k + 1)) == name_set(names.take(k)).insert(names[k]@),
{
    assert(names.take(k + 1) =~= names.take(k).push(names[k]));
    lemma_name_set_push(names.take(k), names[k]);
}

/// The ingredient names a junction table records for one recipe id.
pub open spec fn rid_ingredients(js: Seq<(u32, u32)>, items: Seq<Row>, rid: u32) -> Set<
    Seq<char>,
> {
    Set::new(
        |n: Seq<char>|
            exists|k: int|
                0 <= k < js.len() && (#[trigger] js[k]).1 == rid && has_id(items, js[k].0)
                    && name_of(items, js[k].0) == n,
    )
}

/// One junction row more either adds its item name (when it links the
/// recipe) or changes nothing.
pub proof fn lemma_rid_ingredients_take_step(
    js: Seq<(u32, u32)>,
    items: Seq<Row>,
    rid: u32,
    k: int,
)
    requires
        0 <= k < js.len(),
    ensures
        js[k].1 == rid && has_id(items, js[k].0) ==> rid_ingredients(js.take(k + 1), items, rid)
            == rid_ingredients(js.take(k), items, rid).insert(name_of(items, js[k].0)),
        js[k].1 != rid ==> rid_ingredients(js.take(k + 1), items, rid) == rid_ingredients(
            js.take(k),
            items,
            rid,
        ),
{
    let pre = js.take(k);
    let post = js.take(k + 1);
    assert(post =~= pre.push(js[k]));
    if js[k].1 == rid && has_id(items, js[k].0) {
        let nm = name_of(items, js[k].0);
        assert forall|n: Seq<char>|
            rid_ingredients(post, items, rid).contains(n) == rid_ingredients(
                pre,
                items,
                rid,
            ).insert(nm).contains(n) by {
            if rid_ingredients(post, items, rid).contains(n) {
                let t = choose|t: int|
                    0 <= t < post.len() && (#[trigger] post[t]).1 == rid && has_id(
                        items,
                        post[t].0,
                    ) && name_of(items, post[t].0) == n;
                if t < k {
                    assert(pre[t] == post[t]);
                    assert(rid_ingredients(pre, items, rid).contains(n));
                } else {
                    assert(post[t] == js[k]);
                    assert(n == nm);
                }
            }
            if n == nm {
                assert(post[k] == js[k]);
                assert(rid_ingredients(post, items, rid).contains(n));
            }
            if rid_ingredients(pre, items, rid).contains(n) {
                let t = choose|t: int|
                    0 <= t < pre.len() && (#[trigger] pre[t]).1 == rid && has_id(items, pre[t].0)
                        && name_of(items, pre[t].0) == n;
                assert(post[t] == pre[t]);
                assert(rid_ingredients(post, items, rid).contains(n));
            }
        }
        assert(rid_ingredients(post, items, rid) =~= rid_ingredients(pre, items, rid).insert(nm));
    }
    if js[k].1 != rid {
        assert forall|n: Seq<char>|
            rid_ingredients(post, items, rid).contains(n) == rid_ingredients(
                pre,
                items,
                rid,
            ).contains(n) by {
            if rid_ingredients(post, items, rid).contains(n) {
                let t = choose|t: int|
                    0 <= t < post.len() && (#[trigger] post[t]).1 == rid && has_id(
                        items,
                        post[t].0,
                    ) && name_of(items, post[t].0) == n;
                assert(t < k);
                assert(pre[t] == post[t]);
                assert(rid_ingredients(pre, items, rid).contains(n));
            }
            if rid_ingredients(pre, items, rid).contains(n) {
                let t = choose|t: int|
                    0 <= t < pre.len() && (#[trigger] pre[t]).1 == rid && has_id(items, pre[t].0)
                        && name_of(items, pre[t].0) == n;
                assert(post[t] == pre[t]);
                assert(rid_ingredients(post, items, rid).contains(n));
            }
        }
        assert(rid_ingredients(post, items, rid) =~= rid_ingredients(pre, items, rid));
    }
}

impl RelationalStore {
    /// The recorded ingredient set of a recipe: `None` when no recipe row
    /// carries the name, the (possibly empty) linked item names otherwise.
    pub fn recipe_ingredients(&self, recipe: &str) -> (r: Result<
        Option<Vec<String>>,
        StoreError,
    >)
        requires
            self.wf(),
        ensures
            r is Ok,
            r matches Ok(Some(names)) ==> self@.recipes.contains(recipe@) && name_set(names@)
                == self@.ingredients_of(recipe@) && names_distinct(names@),
            r matches Ok(None) ==> !self@.recipes.contains(recipe@),
    {
        let name: String = recipe.to_owned();
        let rid = match find_row(&self.recipes, &name) {
            None => {
                return Ok(None);
            },
            Some(rid) => rid,
        };
        let mut out: Vec<String> = Vec::new();
        let len = self.items_recipes.len();
        let mut k: usize = 0;
        proof {
            assert(self.items_recipes@.take(0) =~= Seq::<(u32, u32)>::empty());
            assert(rid_ingredients(self.items_recipes@.take(0), self.items@, rid) =~= Set::<
                Seq<char>,
            >::empty());
            assert(name_set(out@) =~= Set::<Seq<char>>::empty());
        }
        while k < len
            invariant
                len == self.items_recipes@.len(),
                0 <= k <= len,
                self.wf(),
                has_id(self.recipes@, rid),
                name_of(self.recipes@, rid) == recipe@,
                name_set(out@) == rid_ingredients(
                    self.items_recipes@.take(k as int),
                    self.items@,
                    rid,
                ),
                names_distinct(out@),
            decreases len - k,
        {
            if self.items_recipes[k].1 == rid {
                let iid = self.items_recipes[k].0;
                proof {
                    assert(has_id(self.items@, (self.items_recipes@[k as int]).0));
                }
                let n = match find_row_by_id(&self.items, iid) {
                    Some(n) => n.clone(),
                    None => {
                        proof {
                            assert(false);
                        }
                        String::new()
                    },
                };
                let ghost out0 = out@;
                if !contains_name(&out, &n) {
                    out.push(n);
                    proof {
                        lemma_name_set_push(out0, out@[out0.len() as int]);
                        assert forall|j1: int, j2: int| 0 <= j1 < j2 < out@.len() implies out@[j1]@
                            != out@[j2]@ by {
                            if j2 == out0.len() {
                                lemma_name_set_contains(out0, out@[j1]@);
                            }
                        }
                    }
                } else {
                    proof {
                        assert(name_set(out@).insert(n@) =~= name_set(out@));
                    }
                }
                proof {
                    lemma_rid_ingredients_take_step(
                        self.items_recipes@,
                        self.items@,
                        rid,
                        k as int,
                    );
                }
            } else {
                proof {
                    lemma_rid_ingredients_take_step(
                        self.items_recipes@,
                        self.items@,
                        rid,
                        k as int,
                    );
                }
            }
            k += 1;
        }
        proof {
            assert(self.items_recipes@.take(len as int) =~= self.items_recipes@);
            let js = self.items_recipes@;
            let items = self.items@;
            let recipes = self.recipes@;
            assert forall|n: Seq<char>|
                rid_ingredients(js, items, rid).contains(n) == self@.ingredients_of(
                    recipe@,
                ).contains(n) by {
                if rid_ingredients(js, items, rid).contains(n) {
                    let t = choose|t: int|
                        0 <= t < js.len() && (#[trigger] js[t]).1 == rid && has_id(items, js[t].0)
                            && name_of(items, js[t].0) == n;
                    assert(has_id(recipes, js[t].1));
                    assert(junction_pairs(js, items, recipes).contains((n, recipe@)));
                }
                if self@.ingredients_of(recipe@).contains(n) {
                    let t = choose|t: int|
                        0 <= t < js.len() && has_id(items, (#[trigger] js[t]).0) && has_id(
                            recipes,
                            js[t].1,
                        ) && name_of(items, js[t].0) == n && name_of(recipes, js[t].1) == recipe@;
                    lemma_name_of_injective(recipes, js[t].1, rid);
                    assert(rid_ingredients(js, items, rid).contains(n));
                }
            }
            assert(rid_ingredients(js, items, rid) =~= self@.ingredients_of(recipe@));
        }
        Ok(Some(out))
    }
}

} // verus!

verus! {

impl RelationalStore {
    /// Upsert a recipe, upsert every ingredient, and link each ingredient to
    /// the recipe; one atomic operation, applied fully or not at all.
    pub fn add_recipe(&mut self, recipe: &str, ingredients: &Vec<String>) -> (r: Result<
        (),
        StoreError,
    >)
        requires
            old(self).wf(),
        ensures
            final(self).wf(),
            r is Err <==> old(self).next_id as int + ingredients@.len() + 1 > u32::MAX as int,
            r is Ok ==> final(self)@ == spec_add_recipe(
                old(self)@,
                recipe@,
                name_set(ingredients@),
            ),
            r is Err ==> *final(self) == *old(self) && r == Err::<(), StoreError>(
                StoreError::CapacityExhausted,
            ),
    {
        let remaining: u32 = u32::MAX - self.next_id;
        if remaining == 0 || ingredients.len() as u64 > (remaining - 1) as u64 {
            return Err(StoreError::CapacityExhausted);
        }
        let name: String = recipe.to_owned();
        let ghost v0 = self@;
        let ghost next0 = self.next_id;
        let rid = self.ensure_recipe(&name);
        let n = ingredients.len();
        let mut k: usize = 0;
        proof {
            assert(ingredients@.take(0) =~= Seq::<String>::empty());
            assert(name_set(ingredients@.take(0)) =~= Set::<Seq<char>>::empty());
            assert(v0.items.union(Set::<Seq<char>>::empty()) =~= v0.items);
            assert(pairs_with(Set::<Seq<char>>::empty(), recipe@) =~= Set::<
                (Seq<char>, Seq<char>),
            >::empty());
            assert(v0.item_recipes.union(Set::<(Seq<char>, Seq<char>)>::empty())
                =~= v0.item_recipes);
            assert(self@ =~= (StoreView {
                items: v0.items.union(name_set(ingredients@.take(0))),
                recipes: v0.recipes.insert(recipe@),
                item_recipes: v0.item_recipes.union(
                    pairs_with(name_set(ingredients@.take(0)), recipe@),
                ),
                ..v0
            }));
        }
        while k < n
            invariant
                n == ingredients@.len(),
                0 <= k <= n,
                self.wf(),
                next0 as int + n + 1 <= u32::MAX as int,
                self.next_id as int <= next0 as int + 1 + k,
                has_id(self.recipes@, rid),
                name_of(self.recipes@, rid) == recipe@,
                self@ == (StoreView {
                    items: v0.items.union(name_set(ingredients@.take(k as int))),
                    recipes: v0.recipes.insert(recipe@),
                    item_recipes: v0.item_recipes.union(
                        pairs_with(name_set(ingredients@.take(k as int)), recipe@),
                    ),
                    ..v0
                }),
            decreases n - k,
        {
            let ghost va = self@;
            let id = self.ensure_item(&ingredients[k]);
            let ghost vb = self@;
            let ghost items_b = self.items@;
            let ghost ir_b = self.items_recipes@;
            ensure_junction(&mut self.items_recipes, id, rid);
            proof {
                let ing = ingredients@[k as int]@;
                if ir_b.contains((id, rid)) {
                    lemma_junction_pairs_member(ir_b, items_b, self.recipes@, id, rid);
                    assert(vb.item_recipes.insert((ing, recipe@)) =~= vb.item_recipes);
                } else {
                    lemma_junction_pairs_push(ir_b, items_b, self.recipes@, id, rid);
                }
                assert(junction_pairs(self.items_recipes@, self.items@, self.recipes@)
                    == vb.item_recipes.insert((ing, recipe@)));
                assert forall|t: int| 0 <= t < self.items_recipes@.len() implies has_id(
                    self.items@,
                    (#[trigger] self.items_recipes@[t]).0,
                ) && has_id(self.recipes@, self.items_recipes@[t].1) by {
                    if t < ir_b.len() {
                    }
                }
                lemma_name_set_take_step(ingredients@, k as int);
                assert(self@.items =~= v0.items.union(name_set(ingredients@.take(k as int + 1))));
                assert forall|p: (Seq<char>, Seq<char>)|
                    self@.item_recipes.contains(p) == v0.item_recipes.union(
                        pairs_with(name_set(ingredients@.take(k as int + 1)), recipe@),
                    ).contains(p) by {}
                assert(self@.item_recipes =~= v0.item_recipes.union(
                    pairs_with(name_set(ingredients@.take(k as int + 1)), recipe@),
                ));
                assert(self@ =~= (StoreView {
                    items: v0.items.union(name_set(ingredients@.take(k as int + 1))),
                    recipes: v0.recipes.insert(recipe@),
                    item_recipes: v0.item_recipes.union(
                        pairs_with(name_set(ingredients@.take(k as int + 1)), recipe@),
                    ),
                    ..v0
                }));
            }
            k += 1;
        }
        proof {
            assert(ingredients@.take(n as int) =~= ingredients@);
        }
        Ok(())
    }

    /// Mark a recipe on the shopping list and put each of its recorded
    /// ingredients on the list; fails when the recipe has no recorded
    /// ingredients.
    pub fn add_list_recipe(&mut self, recipe: &str) -> (r: Result<(), StoreError>)
        requires
            old(self).wf(),
        ensures
            final(self).wf(),
            r is Err <==> old(self)@.ingredients_of(recipe@) == Set::<Seq<char>>::empty(),
            r is Ok ==> final(self)@ == spec_add_list_recipe(old(self)@, recipe@),
            r is Err ==> *final(self) == *old(self) && r == Err::<(), StoreError>(
                StoreError::RecipeIngredientsNotFound,
            ),
    {
        let ghost v0 = self@;
        let ings = match self.recipe_ingredients(recipe) {
            Ok(Some(v)) => v,
            Ok(None) => {
                proof {
                    assert forall|i: Seq<char>| !v0.ingredients_of(recipe@).contains(i) by {
                        if v0.item_recipes.contains((i, recipe@)) {
                            let js = self.items_recipes@;
                            let t = choose|t: int|
                                0 <= t < js.len() && has_id(self.items@, (#[trigger] js[t]).0)
                                    && has_id(self.recipes@, js[t].1) && name_of(
                                    self.items@,
                                    js[t].0,
                                ) == i && name_of(self.recipes@, js[t].1) == recipe@;
                            let u = choose|u: int|
                                0 <= u < self.recipes@.len() && self.recipes@[u].id == js[t].1;
                            assert(self.recipes@[u].name@ == recipe@);
                            assert(has_name(self.recipes@, recipe@));
                        }
                    }
                    assert(v0.ingredients_of(recipe@) =~= Set::<Seq<char>>::empty());
                }
                return Err(StoreError::RecipeIngredientsNotFound);
            },
            Err(_) => {
                proof {
                    assert(false);
                }
                return Err(StoreError::RecipeIngredientsNotFound);
            },
        };
        if ings.is_empty() {
            proof {
                assert forall|i: Seq<char>| !v0.ingredients_of(recipe@).contains(i) by {
                    if v0.ingredients_of(recipe@).contains(i) {
                        lemma_name_set_contains(ings@, i);
                        let t = choose|t: int| 0 <= t < ings@.len() && ings@[t]@ == i;
                        assert(false);
                    }
                }
                assert(v0.ingredients_of(recipe@) =~= Set::<Seq<char>>::empty());
            }
            return Err(StoreError::RecipeIngredientsNotFound);
        }
        proof {
            assert(ings@[0]@ == ings@[0]@);
            lemma_name_set_contains(ings@, ings@[0]@);
            assert(v0.ingredients_of(recipe@).contains(ings@[0]@));
            assert(v0.ingredients_of(recipe@) != Set::<Seq<char>>::empty());
        }
        let name: String = recipe.to_owned();
        let rid = self.ensure_recipe(&name);
        proof {
            assert(v0.recipes.insert(recipe@) =~= v0.recipes);
            assert(self@ =~= v0);
        }
        let ghost recipes1 = self.recipes@;
        let ghost items1 = self.items@;
        let ghost lr0 = self.list_recipes@;
        ensure_mark(&mut self.list_recipes, rid);
        proof {
            if lr0.contains(rid) {
                lemma_marked_names_member(recipes1, lr0, rid);
                assert(v0.list_recipes.insert(recipe@) =~= v0.list_recipes);
            } else {
                lemma_marked_names_push(recipes1, lr0, rid);
            }
            assert forall|t: int| 0 <= t < self.list_recipes@.len() implies has_id(
                self.recipes@,
                #[trigger] self.list_recipes@[t],
            ) by {
                if t < lr0.len() {
                    assert(has_id(recipes1, lr0[t]));
                }
            }
            assert(ings@.take(0) =~= Seq::<String>::empty());
            assert(name_set(ings@.take(0)) =~= Set::<Seq<char>>::empty());
            assert(v0.list_items.union(Set::<Seq<char>>::empty()) =~= v0.list_items);
            assert(self@ =~= (StoreView {
                list_recipes: v0.list_recipes.insert(recipe@),
                list_items: v0.list_items.union(name_set(ings@.take(0))),
                ..v0
            }));
        }
        let n = ings.len();
        let mut k: usize = 0;
        while k < n
            invariant
                n == ings@.len(),
                0 <= k <= n,
                self.wf(),
                name_set(ings@) == v0.ingredients_of(recipe@),
                v0.ingredients_of(recipe@).subset_of(v0.items),
                self.items@ == items1,
                v0.items == rows_name_set(items1),
                self@ == (StoreView {
                    list_recipes: v0.list_recipes.insert(recipe@),
                    list_items: v0.list_items.union(name_set(ings@.take(k as int))),
                    ..v0
                }),
            decreases n - k,
        {
            proof {
                lemma_name_set_contains(ings@, ings@[k as int]@);
                assert(v0.items.contains(ings@[k as int]@));
            }
            let iid = match find_row(&self.items, &ings[k]) {
                Some(iid) => iid,
                None => {
                    proof {
                        assert(false);
                    }
                    return Err(StoreError::RecipeIngredientsNotFound);
                },
            };
            let ghost list0 = self.list@;
            let ghost va = self@;
            ensure_mark(&mut self.list, iid);
            proof {
                let ing = ings@[k as int]@;
                if list0.contains(iid) {
                    lemma_marked_names_member(items1, list0, iid);
                    assert(va.list_items.insert(ing) =~= va.list_items);
                } else {
                    lemma_marked_names_push(items1, list0, iid);
                }
                assert forall|t: int| 0 <= t < self.list@.len() implies has_id(
                    self.items@,
                    #[trigger] self.list@[t],
                ) by {
                    if t < list0.len() {
                        assert(has_id(items1, list0[t]));
                    }
                }
                lemma_name_set_take_step(ings@, k as int);
                assert(self@.list_items =~= v0.list_items.union(
                    name_set(ings@.take(k as int + 1)),
                ));
                assert(self@ =~= (StoreView {
                    list_recipes: v0.list_recipes.insert(recipe@),
                    list_items: v0.list_items.union(name_set(ings@.take(k as int + 1))),
                    ..v0
                }));
            }
            k += 1;
        }
        proof {
            assert(ings@.take(n as int) =~= ings@);
            assert(self@ =~= spec_add_list_recipe(v0, recipe@));
        }
        Ok(())
    }

    /// Remove a recipe, all its item-recipe junction rows, and its list
    /// mark; its ingredients remain valid catalog items.
    #[verifier::rlimit(30)]
    pub fn delete_recipe(&mut self, recipe: &str) -> (r: Result<(), StoreError>)
        requires
            old(self).wf(),
        ensures
            final(self).wf(),
            r is Ok,
            final(self)@ == spec_delete_recipe(old(self)@, recipe@),
    {
        let name: String = recipe.to_owned();
        let ghost v0 = self@;
        let rid = match find_row(&self.recipes, &name) {
            None => {
                proof {
                    assert(v0.recipes.remove(recipe@) =~= v0.recipes);
                    lemma_marked_names_subset(self.recipes@, self.list_recipes@);
                    assert(!v0.list_recipes.contains(recipe@));
                    assert(v0.list_recipes.remove(recipe@) =~= v0.list_recipes);
                    assert forall|p: (Seq<char>, Seq<char>)|
                        v0.item_recipes.contains(p) implies p.1 != recipe@ by {
                        let js = self.items_recipes@;
                        let t = choose|t: int|
                            0 <= t < js.len() && has_id(self.items@, (#[trigger] js[t]).0)
                                && has_id(self.recipes@, js[t].1) && name_of(self.items@, js[t].0)
                                == p.0 && name_of(self.recipes@, js[t].1) == p.1;
                        let u = choose|u: int|
                            0 <= u < self.recipes@.len() && self.recipes@[u].id == js[t].1;
                        assert(self.recipes@[u].name@ == p.1);
                        assert(has_name(self.recipes@, p.1));
                    }
                    assert(Set::new(
                        |p: (Seq<char>, Seq<char>)| v0.item_recipes.contains(p) && p.1 != recipe@,
                    ) =~= v0.item_recipes);
                    assert(self@ =~= spec_delete_recipe(v0, recipe@));
                }
                return Ok(());
            },
            Some(rid) => rid,
        };
        let ghost items0 = self.items@;
        let ghost recipes0 = self.recipes@;
        let ghost js0 = self.items_recipes@;
        let ghost lr0 = self.list_recipes@;
        remove_junctions_right(&mut self.items_recipes, rid);
        remove_mark(&mut self.list_recipes, rid);
        remove_row_by_id(&mut self.recipes, rid);
        proof {
            let recipes1 = self.recipes@;
            let js1 = self.items_recipes@;
            let lr1 = self.list_recipes@;
            assert(name_of(recipes0, rid) == recipe@);
            assert(rows_name_set(recipes1) =~= v0.recipes.remove(recipe@));
            assert forall|p: (Seq<char>, Seq<char>)|
                junction_pairs(js1, items0, recipes1).contains(p) == (v0.item_recipes.contains(p)
                    && p.1 != recipe@) by {
                if junction_pairs(js1, items0, recipes1).contains(p) {
                    let t = choose|t: int|
                        0 <= t < js1.len() && has_id(items0, (#[trigger] js1[t]).0) && has_id(
                            recipes1,
                            js1[t].1,
                        ) && name_of(items0, js1[t].0) == p.0 && name_of(recipes1, js1[t].1)
                            == p.1;
                    assert(js1.contains(js1[t]));
                    assert(js0.contains(js1[t]) && js1[t].1 != rid);
                    let b = js1[t].1;
                    assert(has_id(recipes0, b));
                    assert(name_of(recipes1, b) == name_of(recipes0, b));
                    let t0 = choose|t0: int| 0 <= t0 < js0.len() && js0[t0] == js1[t];
                    assert(has_id(recipes0, js0[t0].1));
                    assert(junction_pairs(js0, items0, recipes0).contains(p));
                    if p.1 == recipe@ {
                        lemma_name_of_injective(recipes0, b, rid);
                        assert(false);
                    }
                }
                if v0.item_recipes.contains(p) && p.1 != recipe@ {
                    let t = choose|t: int|
                        0 <= t < js0.len() && has_id(items0, (#[trigger] js0[t]).0) && has_id(
                            recipes0,
                            js0[t].1,
                        ) && name_of(items0, js0[t].0) == p.0 && name_of(recipes0, js0[t].1)
                            == p.1;
                    let b = js0[t].1;
                    assert(b != rid);
                    assert(js0.contains(js0[t]));
                    assert(js1.contains(js0[t]));
                    let t1 = choose|t1: int| 0 <= t1 < js1.len() && js1[t1] == js0[t];
                    assert(has_id(recipes1, b) && name_of(recipes1, b) == name_of(recipes0, b));
                    assert(junction_pairs(js1, items0, recipes1).contains(p));
                }
            }
            assert(junction_pairs(js1, items0, recipes1) =~= Set::new(
                |p: (Seq<char>, Seq<char>)| v0.item_recipes.contains(p) && p.1 != recipe@,
            ));
            assert forall|nm: Seq<char>|
                marked_names(recipes1, lr1).contains(nm) == v0.list_recipes.remove(
                    recipe@,
                ).contains(nm) by {
                if marked_names(recipes1, lr1).contains(nm) {
                    let t = choose|t: int|
                        0 <= t < lr1.len() && has_id(recipes1, lr1[t]) && name_of(recipes1, lr1[t])
                            == nm;
                    let x = lr1[t];
                    assert(lr1.contains(x));
                    assert(lr0.contains(x) && x != rid);
                    let t0 = choose|t0: int| 0 <= t0 < lr0.len() && lr0[t0] == x;
                    assert(has_id(recipes0, x));
                    assert(name_of(recipes1, x) == name_of(recipes0, x));
                    assert(marked_names(recipes0, lr0).contains(nm));
                    if nm == recipe@ {
                        lemma_name_of_injective(recipes0, x, rid);
                        assert(false);
                    }
                }
                if v0.list_recipes.remove(recipe@).contains(nm) {
                    let t = choose|t: int|
                        0 <= t < lr0.len() && has_id(recipes0, lr0[t]) && name_of(recipes0, lr0[t])
                            == nm;
                    let x = lr0[t];
                    if x == rid {
                        assert(nm == recipe@);
                        assert(false);
                    }
                    assert(lr0.contains(x));
                    assert(lr1.contains(x));
                    let t1 = choose|t1: int| 0 <= t1 < lr1.len() && lr1[t1] == x;
                    assert(has_id(recipes1, x) && name_of(recipes1, x) == name_of(recipes0, x));
                    assert(marked_names(recipes1, lr1).contains(nm));
                }
            }
            assert(marked_names(recipes1, lr1) =~= v0.list_recipes.remove(recipe@));
            assert forall|t: int| 0 <= t < js1.len() implies has_id(
                items0,
                (#[trigger] js1[t]).0,
            ) && has_id(recipes1, js1[t].1) by {
                assert(js1.contains(js1[t]));
                assert(js0.contains(js1[t]) && js1[t].1 != rid);
                let t0 = choose|t0: int| 0 <= t0 < js0.len() && js0[t0] == js1[t];
                assert(has_id(items0, js0[t0].0) && has_id(recipes0, js0[t0].1));
            }
            assert forall|t: int| 0 <= t < lr1.len() implies has_id(
                recipes1,
                #[trigger] lr1[t],
            ) by {
                assert(lr1.contains(lr1[t]));
                assert(lr0.contains(lr1[t]) && lr1[t] != rid);
                let t0 = choose|t0: int| 0 <= t0 < lr0.len() && lr0[t0] == lr1[t];
                assert(has_id(recipes0, lr0[t0]));
            }
            assert forall|t: int| 0 <= t < recipes1.len() implies (#[trigger] recipes1[t].id)
                < self.next_id by {
                assert(recipes0.contains(recipes1[t]));
                let t0 = choose|t0: int| 0 <= t0 < recipes0.len() && recipes0[t0] == recipes1[t];
                assert(recipes0[t0].id < self.next_id);
            }
            assert(self@ =~= spec_delete_recipe(v0, recipe@));
        }
        Ok(())
    }
}

} // verus!
