//! What the project store computes around its SQL: the statement that drops
//! the rows a save no longer holds, and the grouping of characters by
//! project.

use vstd::prelude::*;
use crate::fmt::{decimal, push_decimal};
use crate::text::{append_str, join, owned, str_eq};

verus! {

broadcast use vstd::string::group_string_axioms;

/// The numbered parameters `?2` to `?<n+1>`, comma-separated.
pub open spec fn placeholders(n: nat) -> Seq<char>
    decreases n,
{
    if n == 0 {
        Seq::<char>::empty()
    } else if n == 1 {
        "?2"@
    } else {
        placeholders((n - 1) as nat) + ",?"@ + decimal(n + 1)
    }
}

/// The statement that deletes the rows of `table` that belong to project
/// `?1` and are not among the `kept` ids bound to `?2`, `?3`, ...; all of
/// the project's rows when none is kept.
pub open spec fn stale_rows_text(table: Seq<char>, kept: nat) -> Seq<char> {
    if kept == 0 {
        "DELETE FROM "@ + table + " WHERE project_id = ?1"@
    } else {
        "DELETE FROM "@ + table + " WHERE project_id = ?1 AND id NOT IN ("@ + placeholders(kept) + ")"@
    }
}

/// Builds [`stale_rows_text`].
pub fn stale_rows_sql(table: &str, kept: usize) -> (r: String)
    ensures
        r@ == stale_rows_text(table@, kept as nat),
{
    let mut r = owned("DELETE FROM ");
    append_str(&mut r, table);
    if kept == 0 {
        append_str(&mut r, " WHERE project_id = ?1");
        return r;
    }
    append_str(&mut r, " WHERE project_id = ?1 AND id NOT IN (?2");
    let ghost head = "DELETE FROM "@ + table@ + " WHERE project_id = ?1 AND id NOT IN ("@;
    proof {
        reveal_strlit("?2");
        reveal_strlit(" WHERE project_id = ?1 AND id NOT IN (?2");
        reveal_strlit(" WHERE project_id = ?1 AND id NOT IN (");
        assert(r@ =~= head + placeholders(1));
    }
    let mut i: usize = 1;
    while i < kept
        invariant
            1 <= i <= kept,
            r@ == head + placeholders(i as nat),
        decreases kept - i,
    {
        append_str(&mut r, ",?");
        push_decimal(&mut r, (i as u128) + 2);
        i = i + 1;
        proof {
            assert(r@ =~= head + placeholders(i as nat));
        }
    }
    append_str(&mut r, ")");
    r
}

/// A group of rows: the project's id and name, and its items.
pub type GroupView<T> = (Seq<char>, Seq<char>, Seq<T>);

/// Position of the group of project `id`, or -1.
pub open spec fn group_position<T>(groups: Seq<GroupView<T>>, id: Seq<char>) -> int
    decreases groups.len(),
{
    if groups.len() == 0 {
        -1
    } else if groups.last().0 == id {
        groups.len() - 1
    } else {
        group_position(groups.drop_last(), id)
    }
}

/// The rows (project id, project name, item) grouped by project: one group
/// per project in order of first appearance, named as its first row names
/// it, with its items in row order.
pub open spec fn grouped<T>(rows: Seq<(Seq<char>, Seq<char>, T)>) -> Seq<GroupView<T>>
    decreases rows.len(),
{
    if rows.len() == 0 {
        seq![]
    } else {
        let g = grouped(rows.drop_last());
        let r = rows.last();
        let k = group_position(g, r.0);
        if k >= 0 {
            g.update(k, (g[k].0, g[k].1, g[k].2.push(r.2)))
        } else {
            g.push((r.0, r.1, seq![r.2]))
        }
    }
}

proof fn lemma_group_position<T>(groups: Seq<GroupView<T>>, id: Seq<char>)
    ensures
        -1 <= group_position(groups, id) < groups.len(),
        group_position(groups, id) >= 0 ==> groups[group_position(groups, id)].0 == id,
        group_position(groups, id) < 0 ==> forall|j: int| 0 <= j < groups.len() ==> (#[trigger] groups[j]).0 != id,
    decreases groups.len(),
{
    if groups.len() > 0 && groups.last().0 != id {
        lemma_group_position(groups.drop_last(), id);
        let p = group_position(groups, id);
        if p >= 0 {
            assert(groups[p] == groups.drop_last()[p]);
        } else {
            assert forall|j: int| 0 <= j < groups.len() implies (#[trigger] groups[j]).0 != id by {
                if j < groups.len() - 1 {
                    assert(groups[j] == groups.drop_last()[j]);
                }
            }
        }
    }
}

/// No two groups are of the same project.
pub open spec fn distinct_groups<T>(groups: Seq<GroupView<T>>) -> bool {
    forall|i: int, j: int| 0 <= i < j < groups.len() ==> groups[i].0 != groups[j].0
}

/// Each project has one group.
pub proof fn law_groups_distinct<T>(rows: Seq<(Seq<char>, Seq<char>, T)>)
    ensures
        distinct_groups(grouped(rows)),
    decreases rows.len(),
{
    if rows.len() > 0 {
        law_groups_distinct(rows.drop_last());
        lemma_group_position(grouped(rows.drop_last()), rows.last().0);
    }
}

/// The views of the groups.
pub open spec fn groups_view<T>(ids: Seq<String>, names: Seq<String>, items: Seq<Vec<T>>) -> Seq<GroupView<T>> {
    Seq::new(ids.len(), |i: int| (ids[i]@, names[i]@, items[i]@))
}

/// The rows as plain values.
pub open spec fn rows_view<T>(rows: Seq<(String, String, T)>) -> Seq<(Seq<char>, Seq<char>, T)> {
    rows.map_values(|r: (String, String, T)| (r.0@, r.1@, r.2))
}

/// Groups rows of (project id, project name, item) by project; see
/// [`grouped`].
pub fn group_by_project<T>(rows: Vec<(String, String, T)>) -> (r: Vec<(String, String, Vec<T>)>)
    ensures
        r@.map_values(|g: (String, String, Vec<T>)| (g.0@, g.1@, g.2@)) == grouped(rows_view(rows@)),
{
    let ghost rv = rows_view(rows@);
    let mut ids: Vec<String> = Vec::new();
    let mut names: Vec<String> = Vec::new();
    let mut items: Vec<Vec<T>> = Vec::new();
    let mut rows = rows;
    let ghost all = rows@;
    let mut taken: usize = 0;
    let n = rows.len();
    while rows.len() > 0
        invariant
            n == all.len(),
            rv == rows_view(all),
            taken + rows@.len() == n,
            rows@ == all.skip(taken as int),
            ids@.len() == names@.len(),
            ids@.len() == items@.len(),
            groups_view(ids@, names@, items@) == grouped(rv.take(taken as int)),
        decreases rows@.len(),
    {
        let ghost before = groups_view(ids@, names@, items@);
        let row = rows.remove(0);
        proof {
            assert(row == all[taken as int]);
            assert(rv.take(taken + 1).drop_last() =~= rv.take(taken as int));
            assert(rv.take(taken + 1).last() == (row.0@, row.1@, row.2));
            lemma_group_position(before, row.0@);
        }
        let (id, name, item) = row;
        let mut k = ids.len();
        assert(before.take(k as int) =~= before);
        while k > 0 && !str_eq(ids[k - 1].as_str(), id.as_str())
            invariant
                k <= ids@.len(),
                ids@.len() == names@.len(),
                ids@.len() == items@.len(),
                before == groups_view(ids@, names@, items@),
                group_position(before, id@) == group_position(before.take(k as int), id@),
            decreases k,
        {
            assert(before.take(k as int).drop_last() =~= before.take(k - 1));
            k = k - 1;
        }
        proof {
            if k > 0 {
                assert(before.take(k as int).last() == before[k - 1]);
            } else {
                assert(before.take(0) =~= Seq::<GroupView<T>>::empty());
            }
        }
        if k > 0 {
            let mut g = items.remove(k - 1);
            g.push(item);
            items.insert(k - 1, g);
            proof {
                assert(groups_view(ids@, names@, items@) =~= before.update(
                    k - 1,
                    (before[k - 1].0, before[k - 1].1, before[k - 1].2.push(row.2)),
                ));
            }
        } else {
            let mut g: Vec<T> = Vec::new();
            g.push(item);
            ids.push(id);
            names.push(name);
            items.push(g);
            proof {
                assert(groups_view(ids@, names@, items@) =~= before.push((row.0@, row.1@, seq![row.2])));
            }
        }
        taken = taken + 1;
    }
    proof {
        assert(rv.take(n as int) =~= rv);
    }
    let mut r: Vec<(String, String, Vec<T>)> = Vec::new();
    let ghost target = groups_view(ids@, names@, items@);
    let m = ids.len();
    while ids.len() > 0
        invariant
            ids@.len() == names@.len(),
            ids@.len() == items@.len(),
            r@.len() + ids@.len() == m,
            target.len() == m,
            forall|j: int| 0 <= j < ids@.len() ==> (ids@[j]@, names@[j]@, items@[j]@) == #[trigger] target[r@.len() + j],
            forall|j: int| 0 <= j < r@.len() ==> (r@[j].0@, r@[j].1@, r@[j].2@) == #[trigger] target[j],
        decreases ids@.len(),
    {
        proof {
            assert((ids@[0]@, names@[0]@, items@[0]@) == target[r@.len() + 0int]);
        }
        let id = ids.remove(0);
        let name = names.remove(0);
        let its = items.remove(0);
        r.push((id, name, its));
        proof {
            assert forall|j: int| 0 <= j < ids@.len() implies (ids@[j]@, names@[j]@, items@[j]@) == #[trigger] target[r@.len() + j] by {
                assert(target[r@.len() + j] == target[(r@.len() - 1) + (j + 1)]);
            }
        }
    }
    assert(r@.map_values(|g: (String, String, Vec<T>)| (g.0@, g.1@, g.2@)) =~= target);
    r
}

} // verus!
