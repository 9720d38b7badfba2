//! Verified core of a personal budget tracker: calendar arithmetic for recurring
//! items, the debt amortization schedule, month and budget totals, and the rules that
//! shape and check data before it is written to or read from storage.

pub mod accounts;
pub mod budgets;
pub mod calendar;
pub mod dashboard;
pub mod data;
pub mod db;
pub mod debt_math;
pub mod debts;
pub mod legacy_import;
pub mod models;
pub mod occurrences;
pub mod recurrence;
pub mod recurring;
pub mod subscriptions;
pub mod tags;
pub mod transactions;
pub mod text;
