//! The errors of the ledger: a short fixed message and a context that says
//! what was wrong.

use crate::date::{date_text, Date};
use crate::text::{digits_spec, push_digits};
use vstd::prelude::*;
use vstd::string::*;

verus! {

/// An error with a fixed message and a context value.
#[derive(Debug)]
pub struct LedgerError<T>(pub &'static str, pub T);

impl LedgerError<()> {
    /// An error without any context.
    pub fn new(msg: &'static str) -> (e: LedgerError<()>)
        ensures
            e.0 == msg,
    {
        LedgerError(msg, ())
    }

    /// The same error with `ctx` as its context.
    pub fn with_context<U>(self, ctx: U) -> (e: LedgerError<U>)
        ensures
            e.0 == self.0,
            e.1 == ctx,
    {
        LedgerError(self.0, ctx)
    }
}

/// What went wrong, with the text, account, date or unit concerned.
#[derive(Debug)]
pub enum ErrorContext {
    /// The text of line `line` (counted from 1) is not a statement.
    Syntax { line: usize },
    /// The text is shaped like a date but names no day of the calendar.
    InvalidDate { text: String },
    /// The text does not begin with one of the five account kinds.
    InvalidAccount { text: String },
    /// The text is not a decimal number, or is too long to hold.
    InvalidNominal { text: String },
    /// The account has no record that covers the date.
    AccountNotOpened { account: String, date: Date },
    /// No account has this path of segment indices.
    NoActivities,
    /// A segment index that no segment has.
    UndefinedAccount,
    /// The unit was never declared.
    UnitNotDeclared { unit: String },
    /// More than one exchange of a transaction has no amount.
    TooManyElided,
    /// An amount is left out and no other amount is there to balance it.
    NoAnchor,
    /// An amount in unit `from` carries no price in unit `to`.
    MissingPrice { from: usize, to: usize },
    /// A sum or product is too large to hold.
    Overflow,
    /// An `include` was met where no file can be read.
    Include { path: String },
}

/// The mathematical form of an [`ErrorContext`].
pub enum ErrorView {
    Syntax { line: nat },
    InvalidDate { text: Seq<char> },
    InvalidAccount { text: Seq<char> },
    InvalidNominal { text: Seq<char> },
    AccountNotOpened { account: Seq<char>, date: Date },
    NoActivities,
    UndefinedAccount,
    UnitNotDeclared { unit: Seq<char> },
    TooManyElided,
    NoAnchor,
    MissingPrice { from: nat, to: nat },
    Overflow,
    Include { path: Seq<char> },
}

impl View for ErrorContext {
    type V = ErrorView;

    open spec fn view(&self) -> ErrorView {
        match *self {
            ErrorContext::Syntax { line } => ErrorView::Syntax { line: line as nat },
            ErrorContext::InvalidDate { text } => ErrorView::InvalidDate { text: text@ },
            ErrorContext::InvalidAccount { text } => ErrorView::InvalidAccount { text: text@ },
            ErrorContext::InvalidNominal { text } => ErrorView::InvalidNominal { text: text@ },
            ErrorContext::AccountNotOpened { account, date } => ErrorView::AccountNotOpened {
                account: account@,
                date,
            },
            ErrorContext::NoActivities => ErrorView::NoActivities,
            ErrorContext::UndefinedAccount => ErrorView::UndefinedAccount,
            ErrorContext::UnitNotDeclared { unit } => ErrorView::UnitNotDeclared { unit: unit@ },
            ErrorContext::TooManyElided => ErrorView::TooManyElided,
            ErrorContext::NoAnchor => ErrorView::NoAnchor,
            ErrorContext::MissingPrice { from, to } => ErrorView::MissingPrice {
                from: from as nat,
                to: to as nat,
            },
            ErrorContext::Overflow => ErrorView::Overflow,
            ErrorContext::Include { path } => ErrorView::Include { path: path@ },
        }
    }
}

/// The error type of the whole library.
pub type Error = LedgerError<ErrorContext>;

/// The fixed message that goes with each kind of context.
pub open spec fn summary_spec(ctx: ErrorView) -> Seq<char> {
    match ctx {
        ErrorView::Syntax { .. } => "syntax error"@,
        ErrorView::InvalidDate { .. } => "invalid date"@,
        ErrorView::InvalidAccount { .. } => "input is not a valid token for Account"@,
        ErrorView::InvalidNominal { .. } => "invalid nominal"@,
        ErrorView::AccountNotOpened { .. } => "account is not opened"@,
        ErrorView::NoActivities => "valid account with no activities"@,
        ErrorView::UndefinedAccount => "undefined account"@,
        ErrorView::UnitNotDeclared { .. } => "unit is not declared"@,
        ErrorView::TooManyElided => "only 1 account can has its amount elided"@,
        ErrorView::NoAnchor => "no amount to balance the elided one against"@,
        ErrorView::MissingPrice { .. } => "no price between two units"@,
        ErrorView::Overflow => "amount out of range"@,
        ErrorView::Include { .. } => "include needs a file reader"@,
    }
}

/// The full message: the fixed one with the context written into it.
pub open spec fn message_spec(ctx: ErrorView) -> Seq<char> {
    match ctx {
        ErrorView::Syntax { line } => "syntax error at line "@ + digits_spec(line),
        ErrorView::InvalidDate { text } => "invalid date `"@ + text + "'"@,
        ErrorView::InvalidAccount { text } => "input `"@ + text
            + "' is not a valid token for Account"@,
        ErrorView::InvalidNominal { text } => "invalid nominal: '"@ + text + "'"@,
        ErrorView::AccountNotOpened { account, date } => "account `"@ + account
            + "' is not opened at "@ + date_text(date),
        ErrorView::UnitNotDeclared { unit } => "unit `"@ + unit + "' is not declared"@,
        ErrorView::MissingPrice { from, to } => "no price converts unit "@ + digits_spec(from)
            + " to unit "@ + digits_spec(to),
        ErrorView::Include { path } => "include `"@ + path + "' needs a file reader"@,
        _ => summary_spec(ctx),
    }
}

/// `e` reports `ctx`, under the fixed message that belongs to it.
pub open spec fn reports(e: Error, ctx: ErrorView) -> bool {
    e.1@ == ctx && e.0@ == summary_spec(ctx)
}

impl ErrorContext {
    /// The fixed message that goes with this kind of context.
    pub fn summary(&self) -> (r: &'static str)
        ensures
            r@ == summary_spec(self@),
    {
        match self {
            ErrorContext::Syntax { .. } => "syntax error",
            ErrorContext::InvalidDate { .. } => "invalid date",
            ErrorContext::InvalidAccount { .. } => "input is not a valid token for Account",
            ErrorContext::InvalidNominal { .. } => "invalid nominal",
            ErrorContext::AccountNotOpened { .. } => "account is not opened",
            ErrorContext::NoActivities => "valid account with no activities",
            ErrorContext::UndefinedAccount => "undefined account",
            ErrorContext::UnitNotDeclared { .. } => "unit is not declared",
            ErrorContext::TooManyElided => "only 1 account can has its amount elided",
            ErrorContext::NoAnchor => "no amount to balance the elided one against",
            ErrorContext::MissingPrice { .. } => "no price between two units",
            ErrorContext::Overflow => "amount out of range",
            ErrorContext::Include { .. } => "include needs a file reader",
        }
    }
}

/// The error that reports `ctx`.
pub fn fail(ctx: ErrorContext) -> (e: Error)
    ensures
        reports(e, ctx@),
        e.1 == ctx,
{
    LedgerError::new(ctx.summary()).with_context(ctx)
}

impl LedgerError<ErrorContext> {
    /// The full message, with the context written into it.
    pub fn message(&self) -> (r: String)
        ensures
            r@ == message_spec(self.1@),
    {
        let mut out = String::new();
        match &self.1 {
            ErrorContext::Syntax { line } => {
                out.append("syntax error at line ");
                push_digits(&mut out, *line as u64);
            },
            ErrorContext::InvalidDate { text } => {
                out.append("invalid date `");
                out.append(text.as_str());
                out.append("'");
            },
            ErrorContext::InvalidAccount { text } => {
                out.append("input `");
                out.append(text.as_str());
                out.append("' is not a valid token for Account");
            },
            ErrorContext::InvalidNominal { text } => {
                out.append("invalid nominal: '");
                out.append(text.as_str());
                out.append("'");
            },
            ErrorContext::AccountNotOpened { account, date } => {
                out.append("account `");
                out.append(account.as_str());
                out.append("' is not opened at ");
                date.push_to(&mut out);
            },
            ErrorContext::UnitNotDeclared { unit } => {
                out.append("unit `");
                out.append(unit.as_str());
                out.append("' is not declared");
            },
            ErrorContext::MissingPrice { from, to } => {
                out.append("no price converts unit ");
                push_digits(&mut out, *from as u64);
                out.append(" to unit ");
                push_digits(&mut out, *to as u64);
            },
            ErrorContext::Include { path } => {
                out.append("include `");
                out.append(path.as_str());
                out.append("' needs a file reader");
            },
            other => {
                out.append(other.summary());
            },
        }
        assert(out@ =~= message_spec(self.1@));
        out
    }
}

} // verus!
