//! Rules on categories (tags): a tag may not be its own parent, and a tag that a
//! recurring item or a budget still uses may not be deleted.

use crate::text::{count_phrase, count_phrase_text, join_strings, join_texts};
use vstd::prelude::*;

verus! {

/// Refuses to make a tag its own parent.
pub fn validate_parent(id: i64, parent_id: Option<i64>) -> (r: Result<(), String>)
    ensures
        r is Err <==> parent_id == Some(id),
        r matches Err(e) ==> e@ == "a tag can't be its own parent"@,
{
    if parent_id == Some(id) {
        return Err(String::from_str("a tag can't be its own parent"));
    }
    Ok(())
}

/// The pieces of the refusal to delete a tag: one per kind of item that still uses it.
pub open spec fn tag_blocker_parts(recurring_count: int, budget_count: int) -> Seq<Seq<char>> {
    (if recurring_count > 0 {
        seq![count_phrase(recurring_count, "recurring item"@)]
    } else {
        Seq::empty()
    }) + (if budget_count > 0 {
        seq![count_phrase(budget_count, "budget"@)]
    } else {
        Seq::empty()
    })
}

/// Why a tag cannot be deleted, if it cannot: a recurring item or a budget still uses it
/// (deleting the tag would take those with it). Transactions tagged with it do not block
/// the delete: they only lose the tag.
pub fn tag_delete_blocker(recurring_count: i64, budget_count: i64) -> (r: Option<String>)
    ensures
        r is None <==> recurring_count <= 0 && budget_count <= 0,
        r matches Some(m) ==> m@ == "Can't delete - "@ + join_texts(
            tag_blocker_parts(recurring_count as int, budget_count as int),
            " and "@,
        ) + " still use this category. Remove those first."@,
{
    if recurring_count > 0 || budget_count > 0 {
        let mut parts: Vec<String> = Vec::new();
        if recurring_count > 0 {
            parts.push(count_phrase_text(recurring_count, "recurring item"));
        }
        if budget_count > 0 {
            parts.push(count_phrase_text(budget_count, "budget"));
        }
        let mut m = String::from_str("Can't delete - ");
        m.append(join_strings(&parts, " and ").as_str());
        m.append(" still use this category. Remove those first.");
        proof {
            assert(parts@.map_values(|p: String| p@) =~= tag_blocker_parts(
                recurring_count as int,
                budget_count as int,
            ));
        }
        return Some(m);
    }
    None
}

} // verus!
