//! Converting a backup of the earlier schema (subscriptions with many tags, budgets scoped
//! to a ledger) into the current one. The plan suggests an answer wherever one is
//! unambiguous and flags everything else for review; applying it follows the choices made
//! for each subscription and budget.

use crate::data::ids_of_text;
use crate::text::{int_text, join_strings, join_texts, push_int, text_eq};
use vstd::prelude::*;

verus! {

#[derive(Debug)]
pub struct LegacyAccount {
    pub id: i64,
    pub name: String,
    pub ledger: String,
    pub starting_balance_cents: i64,
    pub active: bool,
    pub is_default: bool,
    pub created_at: String,
    pub updated_at: String,
}

#[derive(Debug)]
pub struct LegacyTag {
    pub id: i64,
    pub name: String,
    pub color: Option<String>,
}

#[derive(Debug)]
pub struct LegacySubscription {
    pub id: i64,
    pub account_id: i64,
    pub name: String,
    pub amount_cents: i64,
    pub kind: String,
    pub interval_unit: String,
    pub interval_count: i64,
    pub start_date: String,
    pub next_charge_date: String,
    pub end_date: Option<String>,
    pub active: bool,
    pub paused_until: Option<String>,
    pub notes: Option<String>,
    pub tag_ids: String,
    pub created_at: String,
    pub updated_at: String,
}

#[derive(Debug)]
pub struct LegacyBudget {
    pub id: i64,
    pub ledger: Option<String>,
    pub tag_id: Option<i64>,
    pub amount_cents: i64,
    pub show_on_dashboard: bool,
    pub created_at: String,
    pub updated_at: String,
}

#[derive(Debug)]
pub struct TagOption {
    pub id: i64,
    pub name: String,
}

#[derive(Debug)]
pub struct AccountOption {
    pub id: i64,
    pub name: String,
}

#[derive(Debug)]
pub struct SubscriptionResolution {
    pub subscription_id: i64,
    pub subscription_name: String,
    pub candidate_tags: Vec<TagOption>,
    pub suggested_tag_id: Option<i64>,
    pub suggested_new_tag_name: String,
    pub needs_review: bool,
    pub dropped_fields_note: Option<String>,
}

#[derive(Debug)]
pub struct BudgetResolution {
    pub budget_id: i64,
    pub ledger: Option<String>,
    pub matching_accounts: Vec<AccountOption>,
    pub suggested_account_id: Option<i64>,
    pub needs_review: bool,
}

#[derive(Debug)]
pub struct LegacyMigrationPlan {
    pub accounts: usize,
    pub tags: usize,
    pub transactions: usize,
    pub occurrences_dropped: usize,
    pub all_tags: Vec<TagOption>,
    pub all_accounts: Vec<AccountOption>,
    pub subscription_resolutions: Vec<SubscriptionResolution>,
    pub budget_resolutions: Vec<BudgetResolution>,
}

#[derive(Debug)]
pub struct SubscriptionChoice {
    pub subscription_id: i64,
    pub tag_id: Option<i64>,
    pub new_tag_name: Option<String>,
}

#[derive(Clone, Copy, Debug, PartialEq, Eq, Structural)]
pub struct BudgetChoice {
    pub budget_id: i64,
    pub account_id: Option<i64>,
}

#[derive(Clone, Copy, Debug, PartialEq, Eq, Structural)]
pub struct LegacyImportSummary {
    pub accounts: usize,
    pub tags: usize,
    pub transactions: usize,
    pub recurring: usize,
    pub budgets: usize,
    pub occurrences_dropped: usize,
}

/// What an optional text holds, as characters.
pub open spec fn opt_text(o: Option<String>) -> Option<Seq<char>> {
    match o {
        Some(s) => Some(s@),
        None => None,
    }
}

/// The note on fields of a subscription that the current schema has no place for: that
/// it was paused, that it had an end date, both, or neither (no note).
pub open spec fn dropped_note_text(paused: bool, had_end: bool) -> Option<Seq<char>> {
    if paused && had_end {
        Some("was paused"@ + ", "@ + "had an end date"@)
    } else if paused {
        Some("was paused"@)
    } else if had_end {
        Some("had an end date"@)
    } else {
        None
    }
}

/// Notes the fields of a subscription that are dropped in the conversion.
pub fn dropped_fields_note(sub: &LegacySubscription) -> (r: Option<String>)
    ensures
        opt_text(r) == dropped_note_text(sub.paused_until is Some, sub.end_date is Some),
{
    let mut dropped: Vec<String> = Vec::new();
    if sub.paused_until.is_some() {
        dropped.push(String::from_str("was paused"));
    }
    if sub.end_date.is_some() {
        dropped.push(String::from_str("had an end date"));
    }
    if dropped.len() == 0 {
        None
    } else {
        let note = join_strings(&dropped, ", ");
        proof {
            let texts = dropped@.map_values(|p: String| p@);
            if sub.paused_until is Some && sub.end_date is Some {
                assert(texts =~= seq!["was paused"@, "had an end date"@]);
                assert(texts.drop_last() =~= seq!["was paused"@]);
                assert(join_texts(texts.drop_last(), ", "@) == "was paused"@);
                assert(join_texts(texts, ", "@) == "was paused"@ + ", "@ + "had an end date"@);
            } else if sub.paused_until is Some {
                assert(texts =~= seq!["was paused"@]);
            } else {
                assert(texts =~= seq!["had an end date"@]);
            }
        }
        Some(note)
    }
}

/// The index of the last of the first `k` tags with this id (a later row with the same id
/// replaces an earlier one, as a map filled in row order does).
pub open spec fn last_tag_index(tags: Seq<LegacyTag>, id: i64, k: int) -> Option<int>
    decreases k,
{
    if k <= 0 {
        None
    } else if tags[k - 1].id == id {
        Some(k - 1)
    } else {
        last_tag_index(tags, id, k - 1)
    }
}

/// The index of the last of the first `k` accounts with this id.
pub open spec fn last_account_index(accounts: Seq<LegacyAccount>, id: i64, k: int) -> Option<int>
    decreases k,
{
    if k <= 0 {
        None
    } else if accounts[k - 1].id == id {
        Some(k - 1)
    } else {
        last_account_index(accounts, id, k - 1)
    }
}

pub open spec fn tag_option_view(o: TagOption) -> (i64, Seq<char>) {
    (o.id, o.name@)
}

pub open spec fn account_option_view(o: AccountOption) -> (i64, Seq<char>) {
    (o.id, o.name@)
}

/// The tags among `ids` that exist, as (id, name), in the order of `ids`.
pub open spec fn candidate_list(tags: Seq<LegacyTag>, ids: Seq<i64>) -> Seq<(i64, Seq<char>)>
    decreases ids.len(),
{
    if ids.len() == 0 {
        Seq::empty()
    } else {
        candidate_list(tags, ids.drop_last()) + match last_tag_index(
            tags,
            ids.last(),
            tags.len() as int,
        ) {
            Some(i) => seq![(tags[i].id, tags[i].name@)],
            None => Seq::empty(),
        }
    }
}

/// The accounts with these ids, as (id, name), in the order of `ids`.
pub open spec fn account_option_list(accounts: Seq<LegacyAccount>, ids: Seq<i64>) -> Seq<
    (i64, Seq<char>),
>
    decreases ids.len(),
{
    if ids.len() == 0 {
        Seq::empty()
    } else {
        account_option_list(accounts, ids.drop_last()) + match last_account_index(
            accounts,
            ids.last(),
            accounts.len() as int,
        ) {
            Some(i) => seq![(accounts[i].id, accounts[i].name@)],
            None => Seq::empty(),
        }
    }
}

/// The ids not yet claimed by an earlier subscription, in order.
pub open spec fn unclaimed(ids: Seq<i64>, claimed: Seq<i64>) -> Seq<i64>
    decreases ids.len(),
{
    if ids.len() == 0 {
        Seq::empty()
    } else {
        unclaimed(ids.drop_last(), claimed) + (if claimed.contains(ids.last()) {
            Seq::empty()
        } else {
            seq![ids.last()]
        })
    }
}

/// The suggested tag of a subscription, and whether it needs review: none for a
/// subscription without tags; its one tag where it has exactly one and that one is still
/// free; else the first free tag (if any), flagged for review.
pub open spec fn suggestion(ids: Seq<i64>, available: Seq<i64>) -> (Option<i64>, bool) {
    if ids.len() == 0 {
        (None, false)
    } else if ids.len() == 1 && available.len() == 1 {
        (Some(available[0]), false)
    } else {
        (if available.len() > 0 {
            Some(available[0])
        } else {
            None
        }, true)
    }
}

/// The tags claimed by the suggestions for the first `k` subscriptions, in order: a
/// recurring item needs a tag of its own.
pub open spec fn claimed_after(subs: Seq<LegacySubscription>, k: int) -> Seq<i64>
    decreases k,
{
    if k <= 0 {
        Seq::empty()
    } else {
        let c = claimed_after(subs, k - 1);
        let ids = ids_of_text(subs[k - 1].tag_ids@);
        match suggestion(ids, unclaimed(ids, c)).0 {
            Some(t) => c.push(t),
            None => c,
        }
    }
}

proof fn lemma_unclaimed_excludes(ids: Seq<i64>, claimed: Seq<i64>)
    ensures
        forall|j: int|
            0 <= j < unclaimed(ids, claimed).len() ==> !claimed.contains(
                #[trigger] unclaimed(ids, claimed)[j],
            ),
    decreases ids.len(),
{
    if ids.len() > 0 {
        lemma_unclaimed_excludes(ids.drop_last(), claimed);
        let rest = unclaimed(ids.drop_last(), claimed);
        let tail = if claimed.contains(ids.last()) {
            Seq::<i64>::empty()
        } else {
            seq![ids.last()]
        };
        assert forall|j: int| 0 <= j < unclaimed(ids, claimed).len() implies !claimed.contains(
            #[trigger] unclaimed(ids, claimed)[j],
        ) by {
            assert(unclaimed(ids, claimed) == rest + tail);
            if j < rest.len() {
                assert((rest + tail)[j] == rest[j]);
            } else {
                assert((rest + tail)[j] == tail[j - rest.len()]);
            }
        }
    }
}

proof fn lemma_claimed_grows(subs: Seq<LegacySubscription>, j: int, k: int)
    requires
        0 <= j <= k,
    ensures
        forall|t: i64| claimed_after(subs, j).contains(t) ==> claimed_after(subs, k).contains(t),
    decreases k - j,
{
    if j < k {
        lemma_claimed_grows(subs, j, k - 1);
        assert forall|t: i64| claimed_after(subs, k - 1).contains(t) implies claimed_after(
            subs,
            k,
        ).contains(t) by {
            let c = claimed_after(subs, k - 1);
            let i = choose|i: int| 0 <= i < c.len() && c[i] == t;
            let ids = ids_of_text(subs[k - 1].tag_ids@);
            match suggestion(ids, unclaimed(ids, c)).0 {
                Some(x) => {
                    assert(c.push(x)[i] == t);
                },
                None => {},
            }
        }
    }
}

/// No tag is suggested for two subscriptions: each suggestion is a tag that no earlier
/// suggestion claimed, since a recurring item needs a tag of its own.
pub proof fn lemma_suggestions_distinct(subs: Seq<LegacySubscription>, j: int, k: int)
    requires
        0 <= j < k < subs.len(),
    ensures
        ({
            let ids_j = ids_of_text(subs[j].tag_ids@);
            let ids_k = ids_of_text(subs[k].tag_ids@);
            let sj = suggestion(ids_j, unclaimed(ids_j, claimed_after(subs, j))).0;
            let sk = suggestion(ids_k, unclaimed(ids_k, claimed_after(subs, k))).0;
            sj is Some && sk is Some ==> sj != sk
        }),
{
    let ids_j = ids_of_text(subs[j].tag_ids@);
    let ids_k = ids_of_text(subs[k].tag_ids@);
    let cj = claimed_after(subs, j);
    let ck = claimed_after(subs, k);
    let sj = suggestion(ids_j, unclaimed(ids_j, cj)).0;
    let sk = suggestion(ids_k, unclaimed(ids_k, ck)).0;
    if sj is Some && sk is Some {
        let t = sj->0;
        assert(claimed_after(subs, j + 1) == cj.push(t));
        assert(cj.push(t)[cj.len() as int] == t);
        assert(claimed_after(subs, j + 1).contains(t));
        lemma_claimed_grows(subs, j + 1, k);
        lemma_unclaimed_excludes(ids_k, ck);
        assert(unclaimed(ids_k, ck).len() > 0);
        assert(sk->0 == unclaimed(ids_k, ck)[0]);
    }
}

/// The resolution proposed for a subscription, given the tags claimed before it.
pub open spec fn resolution_matches(
    r: SubscriptionResolution,
    tags: Seq<LegacyTag>,
    sub: LegacySubscription,
    claimed: Seq<i64>,
) -> bool {
    let ids = ids_of_text(sub.tag_ids@);
    let s = suggestion(ids, unclaimed(ids, claimed));
    &&& r.subscription_id == sub.id
    &&& r.subscription_name@ == sub.name@
    &&& r.suggested_new_tag_name@ == sub.name@
    &&& r.candidate_tags@.map_values(|o: TagOption| tag_option_view(o)) == candidate_list(tags, ids)
    &&& r.suggested_tag_id == s.0
    &&& r.needs_review == s.1
    &&& opt_text(r.dropped_fields_note) == dropped_note_text(
        sub.paused_until is Some,
        sub.end_date is Some,
    )
}

proof fn lemma_unclaimed_from_ids(ids: Seq<i64>, claimed: Seq<i64>)
    ensures
        forall|j: int|
            0 <= j < unclaimed(ids, claimed).len() ==> ids.contains(#[trigger] unclaimed(ids, claimed)[j]),
        unclaimed(ids, claimed).len() <= ids.len(),
    decreases ids.len(),
{
    if ids.len() > 0 {
        lemma_unclaimed_from_ids(ids.drop_last(), claimed);
        let rest = unclaimed(ids.drop_last(), claimed);
        let tail = if claimed.contains(ids.last()) {
            Seq::<i64>::empty()
        } else {
            seq![ids.last()]
        };
        assert forall|j: int| 0 <= j < unclaimed(ids, claimed).len() implies ids.contains(
            #[trigger] unclaimed(ids, claimed)[j],
        ) by {
            assert(unclaimed(ids, claimed) == rest + tail);
            if j < rest.len() {
                assert((rest + tail)[j] == rest[j]);
                let i = choose|i: int| 0 <= i < ids.drop_last().len() && ids.drop_last()[i] == rest[j];
                assert(ids[i] == rest[j]);
            } else {
                assert((rest + tail)[j] == ids.last());
                assert(ids[ids.len() - 1] == ids.last());
            }
        }
    }
}

/// When a converted subscription is flagged for review, and what it is offered: a
/// subscription with no tags, or with exactly one tag that no earlier subscription claimed,
/// needs no review; every other one (two or more tags, or a single tag already claimed) is
/// flagged. A suggested tag is one of its own tags that no earlier subscription claimed,
/// and where such a tag exists one is suggested.
pub proof fn lemma_review_rule(r: SubscriptionResolution, tags: Seq<LegacyTag>, sub: LegacySubscription, claimed: Seq<i64>)
    requires
        resolution_matches(r, tags, sub, claimed),
    ensures
        ({
            let ids = ids_of_text(sub.tag_ids@);
            &&& !r.needs_review <==> (ids.len() == 0 || (ids.len() == 1 && !claimed.contains(ids[0])))
            &&& r.suggested_tag_id matches Some(t) ==> ids.contains(t) && !claimed.contains(t)
            &&& (exists|i: int| 0 <= i < ids.len() && !claimed.contains(ids[i])) ==> r.suggested_tag_id is Some
        }),
{
    let ids = ids_of_text(sub.tag_ids@);
    let avail = unclaimed(ids, claimed);
    lemma_unclaimed_from_ids(ids, claimed);
    lemma_unclaimed_excludes(ids, claimed);
    if ids.len() == 1 {
        assert(ids.drop_last() =~= Seq::<i64>::empty());
        assert(unclaimed(Seq::<i64>::empty(), claimed) =~= Seq::<i64>::empty());
        assert(ids.last() == ids[0]);
        if !claimed.contains(ids[0]) {
            assert(avail =~= seq![ids[0]]);
        } else {
            assert(avail =~= Seq::<i64>::empty());
        }
    }
    if r.suggested_tag_id is Some {
        assert(avail.len() > 0);
        assert(avail[0] == r.suggested_tag_id->0);
    }
    if exists|i: int| 0 <= i < ids.len() && !claimed.contains(ids[i]) {
        let i = choose|i: int| 0 <= i < ids.len() && !claimed.contains(ids[i]);
        lemma_unclaimed_keeps(ids, claimed, i);
    }
}

proof fn lemma_unclaimed_keeps(ids: Seq<i64>, claimed: Seq<i64>, i: int)
    requires
        0 <= i < ids.len(),
        !claimed.contains(ids[i]),
    ensures
        unclaimed(ids, claimed).len() > 0,
    decreases ids.len(),
{
    if i < ids.len() - 1 {
        lemma_unclaimed_keeps(ids.drop_last(), claimed, i);
        assert(ids.drop_last()[i] == ids[i]);
    } else {
        assert(ids.last() == ids[i]);
    }
}

/// The ids of the first `k` accounts on a ledger, in order.
pub open spec fn ledger_accounts(accounts: Seq<LegacyAccount>, ledger: Seq<char>, k: int) -> Seq<i64>
    decreases k,
{
    if k <= 0 {
        Seq::empty()
    } else {
        ledger_accounts(accounts, ledger, k - 1) + (if accounts[k - 1].ledger@ == ledger {
            seq![accounts[k - 1].id]
        } else {
            Seq::empty()
        })
    }
}

/// The resolution proposed for a budget: an overall budget stays one; a ledger budget
/// gets the accounts on its ledger, the first of them suggested, and a review unless there
/// is exactly one.
pub open spec fn budget_resolution_matches(
    r: BudgetResolution,
    accounts: Seq<LegacyAccount>,
    b: LegacyBudget,
) -> bool {
    &&& r.budget_id == b.id
    &&& opt_text(r.ledger) == opt_text(b.ledger)
    &&& match b.ledger {
        None => r.matching_accounts@.len() == 0 && r.suggested_account_id is None && !r.needs_review,
        Some(l) => {
            let ids = ledger_accounts(accounts, l@, accounts.len() as int);
            &&& r.matching_accounts@.map_values(|o: AccountOption| account_option_view(o))
                == account_option_list(accounts, ids)
            &&& r.suggested_account_id == (if ids.len() > 0 {
                Some(ids[0])
            } else {
                None
            })
            &&& r.needs_review == (ids.len() != 1)
        },
    }
}

fn copy_opt_text(o: &Option<String>) -> (r: Option<String>)
    ensures
        r == *o,
{
    match o {
        Some(s) => Some(s.clone()),
        None => None,
    }
}

fn find_tag(tags: &Vec<LegacyTag>, id: i64) -> (r: Option<usize>)
    ensures
        match (r, last_tag_index(tags@, id, tags@.len() as int)) {
            (Some(i), Some(j)) => i == j,
            (None, None) => true,
            _ => false,
        },
        r matches Some(i) ==> i < tags@.len(),
{
    let mut k = tags.len();
    while k > 0
        invariant
            k <= tags@.len(),
            last_tag_index(tags@, id, tags@.len() as int) == last_tag_index(tags@, id, k as int),
        decreases k,
    {
        if tags[k - 1].id == id {
            return Some(k - 1);
        }
        k -= 1;
    }
    None
}

fn find_account(accounts: &Vec<LegacyAccount>, id: i64) -> (r: Option<usize>)
    ensures
        match (r, last_account_index(accounts@, id, accounts@.len() as int)) {
            (Some(i), Some(j)) => i == j,
            (None, None) => true,
            _ => false,
        },
        r matches Some(i) ==> i < accounts@.len(),
{
    let mut k = accounts.len();
    while k > 0
        invariant
            k <= accounts@.len(),
            last_account_index(accounts@, id, accounts@.len() as int) == last_account_index(
                accounts@,
                id,
                k as int,
            ),
        decreases k,
    {
        if accounts[k - 1].id == id {
            return Some(k - 1);
        }
        k -= 1;
    }
    None
}

fn contains_id(v: &Vec<i64>, id: i64) -> (r: bool)
    ensures
        r == v@.contains(id),
{
    let mut i: usize = 0;
    while i < v.len()
        invariant
            i <= v@.len(),
            forall|j: int| 0 <= j < i ==> v@[j] != id,
        decreases v@.len() - i,
    {
        if v[i] == id {
            return true;
        }
        i += 1;
    }
    false
}

fn tag_options(tags: &Vec<LegacyTag>, ids: &Vec<i64>) -> (r: Vec<TagOption>)
    ensures
        r@.map_values(|o: TagOption| tag_option_view(o)) == candidate_list(tags@, ids@),
{
    let mut out: Vec<TagOption> = Vec::new();
    let mut i: usize = 0;
    while i < ids.len()
        invariant
            i <= ids@.len(),
            out@.map_values(|o: TagOption| tag_option_view(o)) == candidate_list(
                tags@,
                ids@.take(i as int),
            ),
        decreases ids@.len() - i,
    {
        let ghost before = out@;
        assert(ids@.take(i + 1).drop_last() =~= ids@.take(i as int));
        match find_tag(tags, ids[i]) {
            Some(t) => {
                out.push(TagOption { id: tags[t].id, name: tags[t].name.clone() });
                assert(out@.map_values(|o: TagOption| tag_option_view(o)) =~= before.map_values(
                    |o: TagOption| tag_option_view(o),
                ).push((tags@[t as int].id, tags@[t as int].name@)));
            },
            None => {},
        }
        i += 1;
    }
    assert(ids@.take(ids@.len() as int) =~= ids@);
    out
}

fn unclaimed_ids(ids: &Vec<i64>, claimed: &Vec<i64>) -> (r: Vec<i64>)
    ensures
        r@ == unclaimed(ids@, claimed@),
{
    let mut out: Vec<i64> = Vec::new();
    let mut i: usize = 0;
    while i < ids.len()
        invariant
            i <= ids@.len(),
            out@ == unclaimed(ids@.take(i as int), claimed@),
        decreases ids@.len() - i,
    {
        assert(ids@.take(i + 1).drop_last() =~= ids@.take(i as int));
        if !contains_id(claimed, ids[i]) {
            out.push(ids[i]);
        }
        assert(out@ =~= unclaimed(ids@.take(i + 1), claimed@));
        i += 1;
    }
    assert(ids@.take(ids@.len() as int) =~= ids@);
    out
}

/// The resolution proposed for one subscription, given the tags that earlier ones claimed.
pub fn resolve_subscription(tags: &Vec<LegacyTag>, sub: &LegacySubscription, claimed: &Vec<i64>) -> (r: SubscriptionResolution)
    ensures
        resolution_matches(r, tags@, *sub, claimed@),
{
    let tag_ids = crate::data::parse_ids(sub.tag_ids.as_str());
    let candidate_tags = tag_options(tags, &tag_ids);
    let available = unclaimed_ids(&tag_ids, claimed);
    let (suggested_tag_id, needs_review) = if tag_ids.len() == 0 {
        (None, false)
    } else if tag_ids.len() == 1 && available.len() == 1 {
        (Some(available[0]), false)
    } else {
        (if available.len() > 0 {
            Some(available[0])
        } else {
            None
        }, true)
    };
    SubscriptionResolution {
        subscription_id: sub.id,
        subscription_name: sub.name.clone(),
        candidate_tags,
        suggested_tag_id,
        suggested_new_tag_name: sub.name.clone(),
        needs_review,
        dropped_fields_note: dropped_fields_note(sub),
    }
}

fn ledger_account_ids(accounts: &Vec<LegacyAccount>, ledger: &str) -> (r: Vec<i64>)
    ensures
        r@ == ledger_accounts(accounts@, ledger@, accounts@.len() as int),
{
    let mut out: Vec<i64> = Vec::new();
    let mut k: usize = 0;
    while k < accounts.len()
        invariant
            k <= accounts@.len(),
            out@ == ledger_accounts(accounts@, ledger@, k as int),
        decreases accounts@.len() - k,
    {
        if text_eq(accounts[k].ledger.as_str(), ledger) {
            out.push(accounts[k].id);
        }
        assert(out@ =~= ledger_accounts(accounts@, ledger@, k + 1));
        k += 1;
    }
    out
}

fn account_options(accounts: &Vec<LegacyAccount>, ids: &Vec<i64>) -> (r: Vec<AccountOption>)
    ensures
        r@.map_values(|o: AccountOption| account_option_view(o)) == account_option_list(
            accounts@,
            ids@,
        ),
{
    let mut out: Vec<AccountOption> = Vec::new();
    let mut i: usize = 0;
    while i < ids.len()
        invariant
            i <= ids@.len(),
            out@.map_values(|o: AccountOption| account_option_view(o)) == account_option_list(
                accounts@,
                ids@.take(i as int),
            ),
        decreases ids@.len() - i,
    {
        let ghost before = out@;
        assert(ids@.take(i + 1).drop_last() =~= ids@.take(i as int));
        match find_account(accounts, ids[i]) {
            Some(a) => {
                out.push(AccountOption { id: accounts[a].id, name: accounts[a].name.clone() });
                assert(out@.map_values(|o: AccountOption| account_option_view(o))
                    =~= before.map_values(|o: AccountOption| account_option_view(o)).push(
                    (accounts@[a as int].id, accounts@[a as int].name@),
                ));
            },
            None => {},
        }
        i += 1;
    }
    assert(ids@.take(ids@.len() as int) =~= ids@);
    out
}

/// The resolution proposed for one budget.
pub fn resolve_budget(accounts: &Vec<LegacyAccount>, b: &LegacyBudget) -> (r: BudgetResolution)
    ensures
        budget_resolution_matches(r, accounts@, *b),
{
    let (matching_accounts, suggested_account_id, needs_review) = match &b.ledger {
        None => (Vec::new(), None, false),
        Some(ledger) => {
            let ids = ledger_account_ids(accounts, ledger.as_str());
            let opts = account_options(accounts, &ids);
            let suggested = if ids.len() > 0 {
                Some(ids[0])
            } else {
                None
            };
            (opts, suggested, ids.len() != 1)
        },
    };
    BudgetResolution {
        budget_id: b.id,
        ledger: copy_opt_text(&b.ledger),
        matching_accounts,
        suggested_account_id,
        needs_review,
    }
}

/// The migration plan of a legacy backup: the counts of what comes over as it is, every
/// tag and account as an option, and a proposed resolution for each subscription (in order,
/// each seeing the tags that the suggestions before it claimed) and for each budget.
pub fn plan_legacy_import(
    accounts: &Vec<LegacyAccount>,
    tags: &Vec<LegacyTag>,
    transactions: usize,
    subscriptions: &Vec<LegacySubscription>,
    occurrences: usize,
    budgets: &Vec<LegacyBudget>,
) -> (r: LegacyMigrationPlan)
    ensures
        r.accounts == accounts@.len(),
        r.tags == tags@.len(),
        r.transactions == transactions,
        r.occurrences_dropped == occurrences,
        r.all_tags@.len() == tags@.len(),
        forall|j: int|
            0 <= j < tags@.len() ==> tag_option_view(#[trigger] r.all_tags@[j]) == (
                tags@[j].id,
                tags@[j].name@,
            ),
        r.all_accounts@.len() == accounts@.len(),
        forall|j: int|
            0 <= j < accounts@.len() ==> account_option_view(#[trigger] r.all_accounts@[j]) == (
                accounts@[j].id,
                accounts@[j].name@,
            ),
        r.subscription_resolutions@.len() == subscriptions@.len(),
        forall|k: int|
            0 <= k < subscriptions@.len() ==> resolution_matches(
                #[trigger] r.subscription_resolutions@[k],
                tags@,
                subscriptions@[k],
                claimed_after(subscriptions@, k),
            ),
        r.budget_resolutions@.len() == budgets@.len(),
        forall|k: int|
            0 <= k < budgets@.len() ==> budget_resolution_matches(
                #[trigger] r.budget_resolutions@[k],
                accounts@,
                budgets@[k],
            ),
{
    let mut claimed: Vec<i64> = Vec::new();
    let mut subscription_resolutions: Vec<SubscriptionResolution> = Vec::new();
    let mut k: usize = 0;
    while k < subscriptions.len()
        invariant
            k <= subscriptions@.len(),
            claimed@ == claimed_after(subscriptions@, k as int),
            subscription_resolutions@.len() == k,
            forall|j: int|
                0 <= j < k ==> resolution_matches(
                    #[trigger] subscription_resolutions@[j],
                    tags@,
                    subscriptions@[j],
                    claimed_after(subscriptions@, j),
                ),
        decreases subscriptions@.len() - k,
    {
        let res = resolve_subscription(tags, &subscriptions[k], &claimed);
        if let Some(t) = res.suggested_tag_id {
            claimed.push(t);
        }
        subscription_resolutions.push(res);
        k += 1;
    }
    let mut budget_resolutions: Vec<BudgetResolution> = Vec::new();
    let mut b: usize = 0;
    while b < budgets.len()
        invariant
            b <= budgets@.len(),
            budget_resolutions@.len() == b,
            forall|j: int|
                0 <= j < b ==> budget_resolution_matches(
                    #[trigger] budget_resolutions@[j],
                    accounts@,
                    budgets@[j],
                ),
        decreases budgets@.len() - b,
    {
        budget_resolutions.push(resolve_budget(accounts, &budgets[b]));
        b += 1;
    }
    let mut all_tags: Vec<TagOption> = Vec::new();
    let mut t: usize = 0;
    while t < tags.len()
        invariant
            t <= tags@.len(),
            all_tags@.len() == t,
            forall|j: int|
                0 <= j < t ==> tag_option_view(#[trigger] all_tags@[j]) == (
                    tags@[j].id,
                    tags@[j].name@,
                ),
        decreases tags@.len() - t,
    {
        all_tags.push(TagOption { id: tags[t].id, name: tags[t].name.clone() });
        t += 1;
    }
    let mut all_accounts: Vec<AccountOption> = Vec::new();
    let mut a: usize = 0;
    while a < accounts.len()
        invariant
            a <= accounts@.len(),
            all_accounts@.len() == a,
            forall|j: int|
                0 <= j < a ==> account_option_view(#[trigger] all_accounts@[j]) == (
                    accounts@[j].id,
                    accounts@[j].name@,
                ),
        decreases accounts@.len() - a,
    {
        all_accounts.push(AccountOption { id: accounts[a].id, name: accounts[a].name.clone() });
        a += 1;
    }
    LegacyMigrationPlan {
        accounts: accounts.len(),
        tags: tags.len(),
        transactions,
        occurrences_dropped: occurrences,
        all_tags,
        all_accounts,
        subscription_resolutions,
        budget_resolutions,
    }
}

/// How the tag of a converted subscription is found: an existing tag, or a new tag to
/// create with this name.
#[derive(Debug)]
pub enum TagChoiceAction {
    Existing(i64),
    CreateTag(String),
}

/// The index of the last of the first `k` subscription choices for this subscription (a
/// later choice for the same subscription replaces an earlier one).
pub open spec fn last_choice_index(choices: Seq<SubscriptionChoice>, id: i64, k: int) -> Option<int>
    decreases k,
{
    if k <= 0 {
        None
    } else if choices[k - 1].subscription_id == id {
        Some(k - 1)
    } else {
        last_choice_index(choices, id, k - 1)
    }
}

/// The index of the last of the first `k` budget choices for this budget.
pub open spec fn last_budget_choice_index(choices: Seq<BudgetChoice>, id: i64, k: int) -> Option<int>
    decreases k,
{
    if k <= 0 {
        None
    } else if choices[k - 1].budget_id == id {
        Some(k - 1)
    } else {
        last_budget_choice_index(choices, id, k - 1)
    }
}

pub open spec fn is_err_with<T>(r: Result<T, String>, text: Seq<char>) -> bool {
    match r {
        Err(m) => m@ == text,
        Ok(_) => false,
    }
}

pub open spec fn creates_tag_named(r: Result<TagChoiceAction, String>, name: Seq<char>) -> bool {
    match r {
        Ok(TagChoiceAction::CreateTag(n)) => n@ == name,
        _ => false,
    }
}

/// The "subscription #id (name)" part of the refusals.
pub open spec fn subscription_label(id: i64, name: Seq<char>) -> Seq<char> {
    int_text(id as int) + " ("@ + name + ")"@
}

/// The tag a converted subscription gets, from the choice made for it: the chosen tag
/// where one was chosen, else a new tag with the chosen name. A subscription without a
/// choice, or whose choice names neither, is refused.
pub fn resolve_subscription_tag(sub_id: i64, sub_name: &str, choices: &Vec<SubscriptionChoice>) -> (r: Result<TagChoiceAction, String>)
    ensures
        match last_choice_index(choices@, sub_id, choices@.len() as int) {
            None => is_err_with(
                r,
                "Missing a resolution for subscription #"@ + subscription_label(sub_id, sub_name@),
            ),
            Some(i) => match (choices@[i].tag_id, choices@[i].new_tag_name) {
                (Some(t), _) => r matches Ok(TagChoiceAction::Existing(x)) && x == t,
                (None, Some(n)) => creates_tag_named(r, n@),
                (None, None) => is_err_with(
                    r,
                    "Subscription #"@ + int_text(sub_id as int) + " ("@ + sub_name@
                        + ") needs either an existing tag or a new tag name"@,
                ),
            },
        },
{
    let mut k = choices.len();
    while k > 0
        invariant
            k <= choices@.len(),
            last_choice_index(choices@, sub_id, choices@.len() as int) == last_choice_index(
                choices@,
                sub_id,
                k as int,
            ),
        decreases k,
    {
        if choices[k - 1].subscription_id == sub_id {
            let c = &choices[k - 1];
            return match (c.tag_id, &c.new_tag_name) {
                (Some(id), _) => Ok(TagChoiceAction::Existing(id)),
                (None, Some(name)) => Ok(TagChoiceAction::CreateTag(name.clone())),
                (None, None) => {
                    let mut m = String::from_str("Subscription #");
                    push_int(&mut m, sub_id);
                    m.append(" (");
                    m.append(sub_name);
                    m.append(") needs either an existing tag or a new tag name");
                    assert(m@ =~= "Subscription #"@ + int_text(sub_id as int) + " ("@ + sub_name@
                        + ") needs either an existing tag or a new tag name"@);
                    Err(m)
                },
            };
        }
        k -= 1;
    }
    let mut m = String::from_str("Missing a resolution for subscription #");
    push_int(&mut m, sub_id);
    m.append(" (");
    m.append(sub_name);
    m.append(")");
    assert(m@ =~= "Missing a resolution for subscription #"@ + subscription_label(sub_id, sub_name@));
    Err(m)
}

/// The account a converted budget gets: the one chosen for it, or none (any account) where
/// no choice was made.
pub fn budget_account_choice(budget_id: i64, choices: &Vec<BudgetChoice>) -> (r: Option<i64>)
    ensures
        r == match last_budget_choice_index(choices@, budget_id, choices@.len() as int) {
            Some(i) => choices@[i].account_id,
            None => None,
        },
{
    let mut k = choices.len();
    while k > 0
        invariant
            k <= choices@.len(),
            last_budget_choice_index(choices@, budget_id, choices@.len() as int)
                == last_budget_choice_index(choices@, budget_id, k as int),
        decreases k,
    {
        if choices[k - 1].budget_id == budget_id {
            return choices[k - 1].account_id;
        }
        k -= 1;
    }
    None
}

/// The notes of a converted subscription: its own notes, with the note on dropped fields
/// appended as `[migrated: ...]` where there is one.
pub fn migrated_notes(notes: &Option<String>, dropped: &Option<String>) -> (r: Option<String>)
    ensures
        opt_text(r) == match (opt_text(*notes), opt_text(*dropped)) {
            (n, None) => n,
            (Some(e), Some(d)) => Some(e + " [migrated: "@ + d + "]"@),
            (None, Some(d)) => Some("[migrated: "@ + d + "]"@),
        },
{
    match (notes, dropped) {
        (n, None) => copy_opt_text(n),
        (Some(existing), Some(note)) => {
            let mut m = existing.clone();
            m.append(" [migrated: ");
            m.append(note.as_str());
            m.append("]");
            Some(m)
        },
        (None, Some(note)) => {
            let mut m = String::from_str("[migrated: ");
            m.append(note.as_str());
            m.append("]");
            Some(m)
        },
    }
}

/// The figures a finished legacy import reports: the tags include those created for
/// subscriptions without one, and every occurrence of the old schema is dropped.
pub fn legacy_import_summary(
    accounts: usize,
    tags: usize,
    tags_created: usize,
    transactions: usize,
    recurring: usize,
    budgets: usize,
    occurrences_dropped: usize,
) -> (r: LegacyImportSummary)
    requires
        tags + tags_created <= usize::MAX,
    ensures
        r == (LegacyImportSummary {
            accounts,
            tags: (tags + tags_created) as usize,
            transactions,
            recurring,
            budgets,
            occurrences_dropped,
        }),
{
    LegacyImportSummary {
        accounts,
        tags: tags + tags_created,
        transactions,
        recurring,
        budgets,
        occurrences_dropped,
    }
}

/// The ids listed in a legacy `'|'`-joined tag column.
pub fn parse_ids(s: &str) -> (r: Vec<i64>)
    ensures
        r@ == ids_of_text(s@),
{
    crate::data::parse_ids(s)
}

} // verus!
