//! Rules on the database as a whole: a restore is only allowed into a fresh install.

use vstd::prelude::*;

verus! {

/// The tables (with the words a refusal uses for them) that must be empty before a backup
/// is restored, in the order they are checked.
pub fn fresh_import_tables() -> (r: Vec<(&'static str, &'static str)>)
    ensures
        r@.len() == 4,
        r@[0].0@ == "accounts"@ && r@[0].1@ == "accounts"@,
        r@[1].0@ == "transactions"@ && r@[1].1@ == "transactions"@,
        r@[2].0@ == "recurring"@ && r@[2].1@ == "recurring items"@,
        r@[3].0@ == "budgets"@ && r@[3].1@ == "budgets"@,
{
    let mut v = Vec::new();
    v.push(("accounts", "accounts"));
    v.push(("transactions", "transactions"));
    v.push(("recurring", "recurring items"));
    v.push(("budgets", "budgets"));
    v
}

/// The names of the three cross-ledger tags that installs before the seed removal were given
/// automatically; a database holding only these still counts as fresh.
pub fn seed_tag_names() -> (r: Vec<&'static str>)
    ensures
        r@.len() == 3,
        r@[0]@ == "Owner's Draw"@,
        r@[1]@ == "Business Loan"@,
        r@[2]@ == "Loan Repayment"@,
{
    let mut v = Vec::new();
    v.push("Owner's Draw");
    v.push("Business Loan");
    v.push("Loan Repayment");
    v
}

/// Refuses a restore into a database that already holds `count` rows of what `label`
/// names.
pub fn refuse_if_populated(label: &str, count: i64) -> (r: Result<(), String>)
    ensures
        r is Err <==> count > 0,
        r matches Err(m) ==> m@ == "This database already has "@ + label@
            + " in it - restoring a backup is only supported into a fresh install."@,
{
    if count > 0 {
        let mut m = String::from_str("This database already has ");
        m.append(label);
        m.append(" in it - restoring a backup is only supported into a fresh install.");
        return Err(m);
    }
    Ok(())
}

} // verus!
