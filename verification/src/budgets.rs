//! Budgets: the amount that applies in a month, and spend rolled up through the tag
//! hierarchy (a transaction is tagged with a specific category, such as Water, rarely with
//! its parent, such as Utilities, so a parent's spend has to roll up from below).

use crate::dashboard::month_start_text;
use crate::models::{ChildSpend, Tag};
use vstd::prelude::*;

verus! {

/// The first day of the month and the first day of the month after it, as date text.
pub fn month_bounds(year: i32, month: u32) -> (r: (String, String))
    requires
        month == 12 ==> year < i32::MAX,
        month != 12 ==> month < u32::MAX,
    ensures
        r.0@ == month_start_text(year as int, month as int),
        r.1@ == (if month == 12 {
            month_start_text(year + 1, 1)
        } else {
            month_start_text(year as int, month + 1)
        }),
{
    crate::dashboard::month_bounds(year, month)
}

/// The amount a budget has in a month: the month's override where there is one, else the
/// budget's own amount; and whether it is an override.
pub fn budget_month_amount(default_amount_cents: i64, override_amount_cents: Option<i64>) -> (r: (i64, bool))
    ensures
        r.0 == match override_amount_cents {
            Some(a) => a,
            None => default_amount_cents,
        },
        r.1 == override_amount_cents is Some,
{
    match override_amount_cents {
        Some(a) => (a, true),
        None => (default_amount_cents, false),
    }
}

/// A tag with the spend of the month's expenses tagged with it directly.
#[derive(Debug)]
pub struct TagSpend {
    pub tag: Tag,
    pub direct_spend_cents: i64,
}

pub open spec fn is_child(nodes: Seq<TagSpend>, k: int, i: int) -> bool {
    nodes[k].tag.parent_id == Some(nodes[i].tag.id)
}

/// The spend of node `i` and of everything below it, exploring `fuel` levels deep.
pub open spec fn subtree_spend(nodes: Seq<TagSpend>, i: int, fuel: nat) -> int
    decreases fuel, 1int,
{
    if fuel == 0 {
        0
    } else {
        nodes[i].direct_spend_cents + children_spend(nodes, i, (fuel - 1) as nat, nodes.len())
    }
}

/// The spend below the children of node `i` among the first `k` nodes.
pub open spec fn children_spend(nodes: Seq<TagSpend>, i: int, fuel: nat, k: nat) -> int
    decreases fuel, 2 + k,
{
    if k == 0 {
        0
    } else {
        children_spend(nodes, i, fuel, (k - 1) as nat) + (if k - 1 < nodes.len() && is_child(
            nodes,
            k - 1,
            i,
        ) {
            subtree_spend(nodes, k - 1, fuel)
        } else {
            0
        })
    }
}

/// Rolling up node `i` ends within `fuel` levels (no tag below it is its own ancestor) and
/// no running total overflows.
pub open spec fn rollup_ok(nodes: Seq<TagSpend>, i: int, fuel: nat) -> bool
    decreases fuel,
{
    &&& fuel > 0
    &&& 0 <= i < nodes.len()
    &&& forall|k: nat|
        k <= nodes.len() ==> i64::MIN <= nodes[i].direct_spend_cents + #[trigger] children_spend(
            nodes,
            i,
            (fuel - 1) as nat,
            k,
        ) <= i64::MAX
    &&& forall|k: int|
        0 <= k < nodes.len() && #[trigger] is_child(nodes, k, i) ==> rollup_ok(
            nodes,
            k,
            (fuel - 1) as nat,
        )
}

fn is_child_of(nodes: &Vec<TagSpend>, k: usize, i: usize) -> (r: bool)
    requires
        k < nodes@.len(),
        i < nodes@.len(),
    ensures
        r == is_child(nodes@, k as int, i as int),
{
    match nodes[k].tag.parent_id {
        Some(p) => p == nodes[i].tag.id,
        None => false,
    }
}

fn subtree_total(nodes: &Vec<TagSpend>, i: usize, fuel: usize) -> (r: i64)
    requires
        rollup_ok(nodes@, i as int, fuel as nat),
    ensures
        r == subtree_spend(nodes@, i as int, fuel as nat),
    decreases fuel,
{
    let n = nodes.len();
    let mut total = nodes[i].direct_spend_cents;
    let mut k: usize = 0;
    assert(children_spend(nodes@, i as int, (fuel - 1) as nat, 0) == 0);
    while k < n
        invariant
            n == nodes@.len(),
            k <= n,
            i < n,
            fuel > 0,
            rollup_ok(nodes@, i as int, fuel as nat),
            total == nodes@[i as int].direct_spend_cents + children_spend(
                nodes@,
                i as int,
                (fuel - 1) as nat,
                k as nat,
            ),
        decreases n - k,
    {
        assert(i64::MIN <= nodes@[i as int].direct_spend_cents + children_spend(
            nodes@,
            i as int,
            (fuel - 1) as nat,
            (k + 1) as nat,
        ) <= i64::MAX);
        if is_child_of(nodes, k, i) {
            let sub = subtree_total(nodes, k, fuel - 1);
            total = total + sub;
        }
        k += 1;
    }
    total
}

/// The spend of a tag plus all of its descendants, recursively: `nodes` holds every tag with
/// its own direct spend, and `root` is the index of the tag in it.
pub fn spend_for_tag_recursive(nodes: &Vec<TagSpend>, root: usize) -> (r: i64)
    requires
        rollup_ok(nodes@, root as int, nodes@.len()),
    ensures
        r == subtree_spend(nodes@, root as int, nodes@.len()),
{
    subtree_total(nodes, root, nodes.len())
}

fn try_subtree_total(nodes: &Vec<TagSpend>, i: usize, fuel: usize) -> (r: Option<i64>)
    requires
        i < nodes@.len(),
    ensures
        r is Some <==> rollup_ok(nodes@, i as int, fuel as nat),
        r matches Some(v) ==> v == subtree_spend(nodes@, i as int, fuel as nat),
    decreases fuel,
{
    if fuel == 0 {
        return None;
    }
    let n = nodes.len();
    let mut total = nodes[i].direct_spend_cents;
    let mut k: usize = 0;
    let ghost direct = nodes@[i as int].direct_spend_cents as int;
    assert(children_spend(nodes@, i as int, (fuel - 1) as nat, 0) == 0);
    while k < n
        invariant
            n == nodes@.len(),
            k <= n,
            i < n,
            fuel > 0,
            direct == nodes@[i as int].direct_spend_cents,
            total == direct + children_spend(nodes@, i as int, (fuel - 1) as nat, k as nat),
            forall|j: nat|
                j <= k ==> i64::MIN <= direct + #[trigger] children_spend(
                    nodes@,
                    i as int,
                    (fuel - 1) as nat,
                    j,
                ) <= i64::MAX,
            forall|c: int|
                0 <= c < k && #[trigger] is_child(nodes@, c, i as int) ==> rollup_ok(
                    nodes@,
                    c,
                    (fuel - 1) as nat,
                ),
        decreases n - k,
    {
        if is_child_of(nodes, k, i) {
            match try_subtree_total(nodes, k, fuel - 1) {
                None => {
                    return None;
                },
                Some(sub) => {
                    let t: i128 = total as i128 + sub as i128;
                    assert(t == direct + children_spend(
                        nodes@,
                        i as int,
                        (fuel - 1) as nat,
                        (k + 1) as nat,
                    ));
                    if t < i64::MIN as i128 || t > i64::MAX as i128 {
                        return None;
                    }
                    total = t as i64;
                },
            }
        } else {
            assert(children_spend(nodes@, i as int, (fuel - 1) as nat, (k + 1) as nat)
                == children_spend(nodes@, i as int, (fuel - 1) as nat, k as nat));
        }
        k += 1;
    }
    Some(total)
}

/// The spend of a tag plus all of its descendants, where it can be rolled up: `None` where
/// `root` is no index of `nodes`, a tag below it is its own ancestor (the roll-up would not
/// end), or a running total overflows.
pub fn try_spend_for_tag(nodes: &Vec<TagSpend>, root: usize) -> (r: Option<i64>)
    ensures
        r is Some <==> rollup_ok(nodes@, root as int, nodes@.len()),
        r matches Some(v) ==> v == subtree_spend(nodes@, root as int, nodes@.len()),
{
    if root >= nodes.len() {
        return None;
    }
    try_subtree_total(nodes, root, nodes.len())
}

proof fn lemma_children_fuel(nodes: Seq<TagSpend>, i: int, f: nat, g: nat, k: nat)
    requires
        rollup_ok(nodes, i, f),
        f <= g,
        k <= nodes.len(),
    ensures
        children_spend(nodes, i, (g - 1) as nat, k) == children_spend(nodes, i, (f - 1) as nat, k),
    decreases f, k,
{
    if k > 0 {
        lemma_children_fuel(nodes, i, f, g, (k - 1) as nat);
        if is_child(nodes, k - 1, i) {
            lemma_rollup_fuel(nodes, k - 1, (f - 1) as nat, (g - 1) as nat);
        }
    }
}

/// Exploring more levels than a subtree has does not change its spend.
pub proof fn lemma_rollup_fuel(nodes: Seq<TagSpend>, i: int, f: nat, g: nat)
    requires
        rollup_ok(nodes, i, f),
        f <= g,
    ensures
        subtree_spend(nodes, i, g) == subtree_spend(nodes, i, f),
        rollup_ok(nodes, i, g),
    decreases f, nodes.len() + 1,
{
    lemma_children_fuel(nodes, i, f, g, nodes.len());
    assert forall|k: nat| k <= nodes.len() implies i64::MIN <= nodes[i].direct_spend_cents
        + #[trigger] children_spend(nodes, i, (g - 1) as nat, k) <= i64::MAX by {
        lemma_children_fuel(nodes, i, f, g, k);
    }
    assert forall|k: int| 0 <= k < nodes.len() && #[trigger] is_child(nodes, k, i) implies rollup_ok(
        nodes,
        k,
        (g - 1) as nat,
    ) by {
        lemma_rollup_fuel(nodes, k, (f - 1) as nat, (g - 1) as nat);
    }
}

/// The total of a run of child spends.
pub open spec fn total_spent(s: Seq<ChildSpend>) -> int
    decreases s.len(),
{
    if s.len() == 0 {
        0
    } else {
        total_spent(s.drop_last()) + s.last().spent_cents
    }
}

/// The indices of the children of node `parent` among the first `k` nodes, in order.
pub open spec fn child_indices(nodes: Seq<TagSpend>, parent: int, k: nat) -> Seq<int>
    decreases k,
{
    if k == 0 {
        Seq::empty()
    } else {
        let rest = child_indices(nodes, parent, (k - 1) as nat);
        if k - 1 < nodes.len() && is_child(nodes, k - 1, parent) {
            rest.push(k - 1)
        } else {
            rest
        }
    }
}

proof fn lemma_child_indices_members(nodes: Seq<TagSpend>, parent: int, k: nat)
    requires
        k <= nodes.len(),
    ensures
        forall|c: int|
            #![trigger child_indices(nodes, parent, k).contains(c)]
            child_indices(nodes, parent, k).contains(c) <==> 0 <= c < k
                && nodes[c].tag.parent_id == Some(nodes[parent].tag.id),
        forall|i: int, j: int|
            0 <= i < j < child_indices(nodes, parent, k).len() ==> #[trigger] child_indices(
                nodes,
                parent,
                k,
            )[i] < #[trigger] child_indices(nodes, parent, k)[j],
        forall|i: int|
            0 <= i < child_indices(nodes, parent, k).len() ==> 0 <= #[trigger] child_indices(
                nodes,
                parent,
                k,
            )[i] < k,
    decreases k,
{
    if k > 0 {
        let k1 = (k - 1) as nat;
        lemma_child_indices_members(nodes, parent, k1);
        let rest = child_indices(nodes, parent, k1);
        let cur = child_indices(nodes, parent, k);
        if is_child(nodes, k - 1, parent) {
            assert(cur == rest.push(k - 1));
            assert forall|c: int| cur.contains(c) <==> 0 <= c < k && nodes[c].tag.parent_id == Some(
                nodes[parent].tag.id,
            ) by {
                if cur.contains(c) {
                    let i = choose|i: int| 0 <= i < cur.len() && cur[i] == c;
                    if i < rest.len() {
                        assert(rest[i] == c);
                        assert(rest.contains(c));
                    }
                }
                if 0 <= c < k - 1 && nodes[c].tag.parent_id == Some(nodes[parent].tag.id) {
                    assert(rest.contains(c));
                    let i = choose|i: int| 0 <= i < rest.len() && rest[i] == c;
                    assert(cur[i] == c);
                }
                if c == k - 1 {
                    assert(cur[rest.len() as int] == c);
                }
            }
        } else {
            assert(cur == rest);
        }
    }
}

/// The breakdown of a tag lists each of its direct children (each node whose parent is the
/// tag), whatever its spend, once and in the order of `nodes`: an entry's position is a child
/// of the tag, every child has an entry, and the entries come in increasing node order.
pub proof fn lemma_breakdown_lists_every_child(nodes: Seq<TagSpend>, parent: int)
    requires
        0 <= parent < nodes.len(),
    ensures
        forall|k: int|
            0 <= k < nodes.len() ==> (nodes[k].tag.parent_id == Some(nodes[parent].tag.id)
                <==> #[trigger] child_indices(nodes, parent, nodes.len()).contains(k)),
        forall|i: int, j: int|
            0 <= i < j < child_indices(nodes, parent, nodes.len()).len() ==> #[trigger] child_indices(
                nodes,
                parent,
                nodes.len(),
            )[i] < #[trigger] child_indices(nodes, parent, nodes.len())[j],
        forall|i: int|
            0 <= i < child_indices(nodes, parent, nodes.len()).len() ==> 0 <= #[trigger] child_indices(
                nodes,
                parent,
                nodes.len(),
            )[i] < nodes.len(),
{
    lemma_child_indices_members(nodes, parent, nodes.len());
}

fn copy_tag(t: &Tag) -> (r: Tag)
    ensures
        r == *t,
{
    Tag {
        id: t.id,
        name: t.name.clone(),
        color: match &t.color {
            Some(c) => Some(c.clone()),
            None => None,
        },
        parent_id: t.parent_id,
    }
}

/// The direct children of a tag, each with its own rolled-up spend, in the order of `nodes`:
/// the breakdown of a parent-tag budget.
pub fn tag_breakdown(nodes: &Vec<TagSpend>, parent: usize) -> (r: Vec<ChildSpend>)
    requires
        parent < nodes@.len(),
        forall|k: int|
            0 <= k < nodes@.len() && #[trigger] is_child(nodes@, k, parent as int) ==> rollup_ok(
                nodes@,
                k,
                nodes@.len(),
            ),
    ensures
        r@.len() == child_indices(nodes@, parent as int, nodes@.len()).len(),
        forall|j: int|
            0 <= j < r@.len() ==> {
                let k = #[trigger] child_indices(nodes@, parent as int, nodes@.len())[j];
                &&& r@[j].tag == nodes@[k].tag
                &&& r@[j].spent_cents == subtree_spend(nodes@, k, nodes@.len())
            },
        total_spent(r@) == children_spend(nodes@, parent as int, nodes@.len(), nodes@.len()),
{
    let n = nodes.len();
    let mut out: Vec<ChildSpend> = Vec::new();
    let mut k: usize = 0;
    while k < n
        invariant
            n == nodes@.len(),
            k <= n,
            parent < n,
            forall|c: int|
                0 <= c < nodes@.len() && #[trigger] is_child(nodes@, c, parent as int) ==> rollup_ok(
                    nodes@,
                    c,
                    nodes@.len(),
                ),
            out@.len() == child_indices(nodes@, parent as int, k as nat).len(),
            forall|j: int|
                0 <= j < out@.len() ==> {
                    let c = #[trigger] child_indices(nodes@, parent as int, k as nat)[j];
                    &&& 0 <= c < k
                    &&& out@[j].tag == nodes@[c].tag
                    &&& out@[j].spent_cents == subtree_spend(nodes@, c, nodes@.len())
                },
            total_spent(out@) == children_spend(nodes@, parent as int, nodes@.len(), k as nat),
        decreases n - k,
    {
        let ghost before = out@;
        if is_child_of(nodes, k, parent) {
            let spent_cents = subtree_total(nodes, k, n);
            let tag = copy_tag(&nodes[k].tag);
            out.push(ChildSpend { tag, spent_cents });
            assert(out@.drop_last() =~= before);
        }
        k += 1;
    }
    out
}

/// The breakdown of a tag, where each of its direct children can be rolled up: `None` where
/// `parent` is no index of `nodes` or a child's roll-up would not end or would overflow.
pub fn try_tag_breakdown(nodes: &Vec<TagSpend>, parent: usize) -> (r: Option<Vec<ChildSpend>>)
    ensures
        r is Some <==> parent < nodes@.len() && forall|k: int|
            0 <= k < nodes@.len() && #[trigger] is_child(nodes@, k, parent as int) ==> rollup_ok(
                nodes@,
                k,
                nodes@.len(),
            ),
        r matches Some(v) ==> {
            &&& v@.len() == child_indices(nodes@, parent as int, nodes@.len()).len()
            &&& forall|j: int|
                0 <= j < v@.len() ==> {
                    let k = #[trigger] child_indices(nodes@, parent as int, nodes@.len())[j];
                    &&& v@[j].tag == nodes@[k].tag
                    &&& v@[j].spent_cents == subtree_spend(nodes@, k, nodes@.len())
                }
            &&& total_spent(v@) == children_spend(nodes@, parent as int, nodes@.len(), nodes@.len())
        },
{
    let n = nodes.len();
    if parent >= n {
        return None;
    }
    let mut k: usize = 0;
    while k < n
        invariant
            n == nodes@.len(),
            k <= n,
            parent < n,
            forall|c: int|
                0 <= c < k && #[trigger] is_child(nodes@, c, parent as int) ==> rollup_ok(
                    nodes@,
                    c,
                    nodes@.len(),
                ),
        decreases n - k,
    {
        if is_child_of(nodes, k, parent) {
            if try_spend_for_tag(nodes, k).is_none() {
                return None;
            }
        }
        k += 1;
    }
    Some(tag_breakdown(nodes, parent))
}

/// A tag's rolled-up spend is its own direct spend plus the rolled-up spends of its direct
/// children: the entries of its breakdown add up to the rest of its total.
pub proof fn lemma_rollup_is_own_plus_breakdown(nodes: Seq<TagSpend>, parent: int)
    requires
        rollup_ok(nodes, parent, nodes.len()),
    ensures
        subtree_spend(nodes, parent, nodes.len()) == nodes[parent].direct_spend_cents
            + children_spend(nodes, parent, nodes.len(), nodes.len()),
        forall|k: int|
            0 <= k < nodes.len() && #[trigger] is_child(nodes, k, parent) ==> rollup_ok(
                nodes,
                k,
                nodes.len(),
            ),
{
    lemma_rollup_fuel(nodes, parent, nodes.len(), nodes.len() + 1);
    lemma_children_fuel(nodes, parent, nodes.len(), nodes.len() + 1, nodes.len());
    assert forall|k: int| 0 <= k < nodes.len() && #[trigger] is_child(nodes, k, parent) implies rollup_ok(
        nodes,
        k,
        nodes.len(),
    ) by {
        lemma_rollup_fuel(nodes, k, (nodes.len() - 1) as nat, nodes.len());
    }
}

} // verus!
