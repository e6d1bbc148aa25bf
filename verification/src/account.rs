//! Accounts such as `Assets:Bank:Jawir`: their written form, their resolved
//! form, and the store that interns their segments and tracks when each
//! account is open.

use crate::error::{fail, reports, Error, ErrorContext, ErrorView};
use crate::text::{
    first_index, join_spec, lemma_first_index_bounds, split, split_spec, starts_with, strs_view,
};
use vstd::prelude::*;
use vstd::string::*;

verus! {

/// The five kinds of account.
#[derive(Clone, Copy, Debug, PartialEq, Eq, Structural, Hash)]
pub enum AccountKind {
    Assets,
    Expenses,
    Liabilities,
    Income,
    Equity,
}

/// An account as it is written: its kind and the segments of its path.
#[derive(Clone, Debug, PartialEq)]
pub enum ParsedAccount<'a> {
    Assets(Vec<&'a str>),
    Expenses(Vec<&'a str>),
    Liabilities(Vec<&'a str>),
    Income(Vec<&'a str>),
    Equity(Vec<&'a str>),
}

/// An account as the store knows it: its kind and, for each segment of its
/// path, the index of that segment in the store's table.
#[derive(Clone, Debug, PartialEq)]
pub enum TxnAccount {
    Assets(Vec<usize>),
    Expenses(Vec<usize>),
    Liabilities(Vec<usize>),
    Income(Vec<usize>),
    Equity(Vec<usize>),
}

/// The mathematical form of a [`ParsedAccount`].
pub struct AccountPath {
    pub kind: AccountKind,
    pub segments: Seq<Seq<char>>,
}

/// The mathematical form of a [`TxnAccount`].
pub struct AccountRef {
    pub kind: AccountKind,
    pub path: Seq<usize>,
}

impl<'a> View for ParsedAccount<'a> {
    type V = AccountPath;

    open spec fn view(&self) -> AccountPath {
        match *self {
            ParsedAccount::Assets(v) => AccountPath {
                kind: AccountKind::Assets,
                segments: strs_view(v@),
            },
            ParsedAccount::Expenses(v) => AccountPath {
                kind: AccountKind::Expenses,
                segments: strs_view(v@),
            },
            ParsedAccount::Liabilities(v) => AccountPath {
                kind: AccountKind::Liabilities,
                segments: strs_view(v@),
            },
            ParsedAccount::Income(v) => AccountPath {
                kind: AccountKind::Income,
                segments: strs_view(v@),
            },
            ParsedAccount::Equity(v) => AccountPath {
                kind: AccountKind::Equity,
                segments: strs_view(v@),
            },
        }
    }
}

impl View for TxnAccount {
    type V = AccountRef;

    open spec fn view(&self) -> AccountRef {
        match *self {
            TxnAccount::Assets(v) => AccountRef { kind: AccountKind::Assets, path: v@ },
            TxnAccount::Expenses(v) => AccountRef { kind: AccountKind::Expenses, path: v@ },
            TxnAccount::Liabilities(v) => AccountRef { kind: AccountKind::Liabilities, path: v@ },
            TxnAccount::Income(v) => AccountRef { kind: AccountKind::Income, path: v@ },
            TxnAccount::Equity(v) => AccountRef { kind: AccountKind::Equity, path: v@ },
        }
    }
}

/// The name that a kind is written with.
pub open spec fn kind_name(kind: AccountKind) -> Seq<char> {
    match kind {
        AccountKind::Assets => "Assets"@,
        AccountKind::Expenses => "Expenses"@,
        AccountKind::Liabilities => "Liabilities"@,
        AccountKind::Income => "Income"@,
        AccountKind::Equity => "Equity"@,
    }
}

/// The account as it is written: the kind's name, a colon, and the segments
/// with colons between them.
pub open spec fn display_spec(a: AccountPath) -> Seq<char> {
    kind_name(a.kind) + seq![':'] + join_spec(a.segments, ':')
}

/// The kind whose name and colon `s` begins with, if any.
pub open spec fn kind_of_text(s: Seq<char>) -> Option<AccountKind> {
    if (kind_name(AccountKind::Assets) + seq![':']).is_prefix_of(s) {
        Some(AccountKind::Assets)
    } else if (kind_name(AccountKind::Expenses) + seq![':']).is_prefix_of(s) {
        Some(AccountKind::Expenses)
    } else if (kind_name(AccountKind::Liabilities) + seq![':']).is_prefix_of(s) {
        Some(AccountKind::Liabilities)
    } else if (kind_name(AccountKind::Income) + seq![':']).is_prefix_of(s) {
        Some(AccountKind::Income)
    } else if (kind_name(AccountKind::Equity) + seq![':']).is_prefix_of(s) {
        Some(AccountKind::Equity)
    } else {
        None
    }
}

/// What stands after the first colon of `s`, cut at every colon.
pub open spec fn base_name_spec(s: Seq<char>) -> Seq<Seq<char>> {
    split_spec(s, ':').skip(1)
}

/// The account that `s` writes, if it begins with a kind's name and a colon.
pub open spec fn parse_spec(s: Seq<char>) -> Option<AccountPath> {
    match kind_of_text(s) {
        Some(kind) => Some(AccountPath { kind, segments: base_name_spec(s) }),
        None => None,
    }
}

impl AccountKind {
    /// The name that the kind is written with.
    pub fn name(&self) -> (r: &'static str)
        ensures
            r@ == kind_name(*self),
    {
        match self {
            AccountKind::Assets => "Assets",
            AccountKind::Expenses => "Expenses",
            AccountKind::Liabilities => "Liabilities",
            AccountKind::Income => "Income",
            AccountKind::Equity => "Equity",
        }
    }

    /// The kind whose name and colon `text` begins with, if any.
    pub fn of_text(text: &str) -> (r: Option<AccountKind>)
        ensures
            r == kind_of_text(text@),
    {
        proof {
            reveal_strlit("Assets:");
            reveal_strlit("Expenses:");
            reveal_strlit("Liabilities:");
            reveal_strlit("Income:");
            reveal_strlit("Equity:");
            reveal_strlit("Assets");
            reveal_strlit("Expenses");
            reveal_strlit("Liabilities");
            reveal_strlit("Income");
            reveal_strlit("Equity");
            assert("Assets:"@ =~= "Assets"@ + seq![':']);
            assert("Expenses:"@ =~= "Expenses"@ + seq![':']);
            assert("Liabilities:"@ =~= "Liabilities"@ + seq![':']);
            assert("Income:"@ =~= "Income"@ + seq![':']);
            assert("Equity:"@ =~= "Equity"@ + seq![':']);
        }
        if starts_with(text, "Assets:") {
            Some(AccountKind::Assets)
        } else if starts_with(text, "Expenses:") {
            Some(AccountKind::Expenses)
        } else if starts_with(text, "Liabilities:") {
            Some(AccountKind::Liabilities)
        } else if starts_with(text, "Income:") {
            Some(AccountKind::Income)
        } else if starts_with(text, "Equity:") {
            Some(AccountKind::Equity)
        } else {
            None
        }
    }
}

impl<'a> ParsedAccount<'a> {
    /// The segments written in `s`: what stands after its first colon, cut at
    /// every colon.
    pub fn base_name(s: &'a str) -> (r: Vec<&'a str>)
        ensures
            strs_view(r@) == base_name_spec(s@),
    {
        let mut parts = split(s, ':');
        proof {
            lemma_split_nonempty(s@, ':');
            assert(strs_view(parts@).len() == parts@.len());
        }
        let ghost before = parts@;
        parts.remove(0);
        assert(strs_view(parts@) =~= strs_view(before).skip(1));
        parts
    }

    /// The account of this kind with these segments.
    pub fn from_parts(kind: AccountKind, segments: Vec<&'a str>) -> (r: ParsedAccount<'a>)
        ensures
            r@ == (AccountPath { kind, segments: strs_view(segments@) }),
    {
        match kind {
            AccountKind::Assets => ParsedAccount::Assets(segments),
            AccountKind::Expenses => ParsedAccount::Expenses(segments),
            AccountKind::Liabilities => ParsedAccount::Liabilities(segments),
            AccountKind::Income => ParsedAccount::Income(segments),
            AccountKind::Equity => ParsedAccount::Equity(segments),
        }
    }

    /// The account's kind.
    pub fn kind(&self) -> (r: AccountKind)
        ensures
            r == self@.kind,
    {
        match self {
            ParsedAccount::Assets(_) => AccountKind::Assets,
            ParsedAccount::Expenses(_) => AccountKind::Expenses,
            ParsedAccount::Liabilities(_) => AccountKind::Liabilities,
            ParsedAccount::Income(_) => AccountKind::Income,
            ParsedAccount::Equity(_) => AccountKind::Equity,
        }
    }

    /// The segments of the account's path.
    pub fn segments(&self) -> (r: &Vec<&'a str>)
        ensures
            strs_view(r@) == self@.segments,
    {
        match self {
            ParsedAccount::Assets(v) => v,
            ParsedAccount::Expenses(v) => v,
            ParsedAccount::Liabilities(v) => v,
            ParsedAccount::Income(v) => v,
            ParsedAccount::Equity(v) => v,
        }
    }

    /// Reads an account: the name of a kind, a colon, and the segments with
    /// colons between them. Any other text is an `InvalidAccount` error.
    pub fn parse(token: &'a str) -> (r: Result<ParsedAccount<'a>, Error>)
        ensures
            match r {
                Ok(a) => parse_spec(token@) == Some(a@),
                Err(e) => parse_spec(token@) is None && reports(
                    e,
                    ErrorView::InvalidAccount { text: token@ },
                ),
            },
    {
        match AccountKind::of_text(token) {
            Some(kind) => Ok(ParsedAccount::from_parts(kind, ParsedAccount::base_name(token))),
            None => Err(fail(ErrorContext::InvalidAccount { text: token.to_owned() })),
        }
    }

    /// The account as it is written, such as `Assets:Bank:Jawir`.
    pub fn display(&self) -> (r: String)
        ensures
            r@ == display_spec(self@),
    {
        let mut out = String::new();
        out.append(self.kind().name());
        proof {
            reveal_strlit(":");
        }
        out.append(":");
        let segments = self.segments();
        let n = segments.len();
        let ghost head = out@;
        let mut i: usize = 0;
        proof {
            assert(strs_view(segments@).skip(0) =~= strs_view(segments@));
            assert(head + join_spec(strs_view(segments@), ':') =~= out@ + Seq::<char>::empty()
                + join_spec(strs_view(segments@).skip(0), ':'));
        }
        while i < n
            invariant
                i <= n,
                n == segments@.len(),
                ":"@ == seq![':'],
                head + join_spec(strs_view(segments@), ':') == out@ + (if 0 < i < n {
                    seq![':']
                } else {
                    Seq::<char>::empty()
                }) + join_spec(strs_view(segments@).skip(i as int), ':'),
            decreases n - i,
        {
            let ghost rest = strs_view(segments@).skip(i as int);
            proof {
                assert(rest[0] == segments@[i as int]@);
                assert(rest.drop_first() =~= strs_view(segments@).skip(i + 1));
                assert(strs_view(segments@).skip(0) =~= strs_view(segments@));
            }
            if i > 0 {
                out.append(":");
            }
            out.append(segments[i]);
            i += 1;
            proof {
                let next = strs_view(segments@).skip(i as int);
                if i < n {
                    assert(join_spec(rest, ':') =~= rest[0] + seq![':'] + join_spec(next, ':'));
                } else {
                    assert(join_spec(next, ':') =~= Seq::<char>::empty());
                    assert(join_spec(rest, ':') =~= rest[0]);
                }
                assert(head + join_spec(strs_view(segments@), ':') =~= out@ + (if 0 < i < n {
                    seq![':']
                } else {
                    Seq::<char>::empty()
                }) + join_spec(next, ':'));
            }
        }
        proof {
            assert(strs_view(segments@).skip(0) =~= strs_view(segments@));
            assert(join_spec(strs_view(segments@).skip(n as int), ':') =~= Seq::<char>::empty());
            assert(out@ =~= head + join_spec(strs_view(segments@), ':'));
        }
        out
    }
}

/// A text cut at a separator gives at least one piece.
pub proof fn lemma_split_nonempty(s: Seq<char>, sep: char)
    ensures
        split_spec(s, sep).len() >= 1,
    decreases s.len(),
{
    let i = first_index(s, sep);
    lemma_first_index_bounds(s, sep);
    if 0 <= i < s.len() {
        lemma_split_nonempty(s.skip(i + 1), sep);
    }
}

impl TxnAccount {
    /// The account of this kind with this path of segment indices.
    pub fn from_parts(kind: AccountKind, path: Vec<usize>) -> (r: TxnAccount)
        ensures
            r@ == (AccountRef { kind, path: path@ }),
    {
        match kind {
            AccountKind::Assets => TxnAccount::Assets(path),
            AccountKind::Expenses => TxnAccount::Expenses(path),
            AccountKind::Liabilities => TxnAccount::Liabilities(path),
            AccountKind::Income => TxnAccount::Income(path),
            AccountKind::Equity => TxnAccount::Equity(path),
        }
    }

    /// The account's kind.
    pub fn kind(&self) -> (r: AccountKind)
        ensures
            r == self@.kind,
    {
        match self {
            TxnAccount::Assets(_) => AccountKind::Assets,
            TxnAccount::Expenses(_) => AccountKind::Expenses,
            TxnAccount::Liabilities(_) => AccountKind::Liabilities,
            TxnAccount::Income(_) => AccountKind::Income,
            TxnAccount::Equity(_) => AccountKind::Equity,
        }
    }

    /// The indices of the segments of the account's path.
    pub fn path(&self) -> (r: &Vec<usize>)
        ensures
            r@ == self@.path,
    {
        match self {
            TxnAccount::Assets(v) => v,
            TxnAccount::Expenses(v) => v,
            TxnAccount::Liabilities(v) => v,
            TxnAccount::Income(v) => v,
            TxnAccount::Equity(v) => v,
        }
    }
}

} // verus!
