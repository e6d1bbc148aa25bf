//! A text based double-entry accounting ledger: parser and semantic model.
//!
//! A ledger text is cut into token lines (`lexer`), the lines are read as
//! directives (`statement`, `parser`), and the directives are applied in
//! order to a `ledger`, which owns the account `store`, the `currency`
//! store and the books of each day. Transactions are balanced on the way
//! (`transaction`), over exact `decimal` amounts. `laws` holds what is
//! proved of all of them.

pub mod account;
pub mod amount;
pub mod assoc;
pub mod currency;
pub mod date;
pub mod decimal;
pub mod error;
pub mod laws;
pub mod ledger;
pub mod lexer;
pub mod parser;
pub mod statement;
pub mod store;
pub mod text;
pub mod transaction;

pub use parser::parse;
