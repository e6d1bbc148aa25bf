//! Transactions: the legs as they are written, the balancing that fills in
//! the one amount that may be left out, and the checks on the result.

use crate::account::{display_spec, AccountPath, AccountRef, ParsedAccount, TxnAccount};
use crate::amount::{
    difference_spec, quotes_view, sum_spec, zero_spec, Amount, AmountView, ParsedAmount,
    ParsedAmountView, QuoteView, TxnPrice,
};
use crate::date::Date;
use crate::error::{fail, reports, Error, ErrorContext, ErrorView};
use vstd::prelude::*;
use vstd::string::*;

verus! {

/// How far a transaction has come.
#[derive(Clone, Copy, Debug, PartialEq, Eq, Structural)]
pub enum TransactionState {
    /// Written `*`.
    Settled,
    /// Written `!`.
    Unsettled,
    /// Written `#`.
    Recurring,
    /// Never written: a transaction that the ledger itself put in.
    Virtual,
}

/// The first line of a transaction as it is written.
#[derive(Clone, Copy, Debug, PartialEq)]
pub struct TxnHeader<'th> {
    pub state: TransactionState,
    pub payee: Option<&'th str>,
    pub title: &'th str,
}

/// The legs of a transaction as they are written: the account of each, and
/// its amount where one is given. The two lists go together, item by item.
#[derive(Debug, PartialEq)]
pub struct ParsedTransaction<'tl> {
    pub accounts: Vec<ParsedAccount<'tl>>,
    pub exchanges: Vec<Option<ParsedAmount<'tl>>>,
}

/// One leg of a transaction. `elided` marks the leg whose amount was not
/// written but computed.
#[derive(Debug, PartialEq)]
pub struct Exchange {
    pub account: TxnAccount,
    pub amount: Amount,
    pub elided: bool,
}

/// A transaction with every reference resolved and every leg filled in.
#[derive(Debug, PartialEq)]
pub struct Transaction {
    pub state: TransactionState,
    pub payee: Option<String>,
    pub title: String,
    pub exchanges: Vec<Exchange>,
}

/// The statement that an account holds a given amount on a day.
#[derive(Debug, PartialEq)]
pub struct BalanceAssertion {
    pub account: TxnAccount,
    pub amount: Amount,
}

/// The wish to balance `target` against `source`.
#[derive(Debug, PartialEq)]
pub struct PadTransaction {
    pub target: TxnAccount,
    pub source: TxnAccount,
}

/// Which checks `Transaction::errors` makes.
#[derive(Clone, Copy, Debug, PartialEq, Eq, Structural)]
pub enum BalanceCheck {
    /// The number of legs, and that they add up to zero.
    WithSum,
    /// The number of legs only.
    WithoutSum,
}

/// What `Transaction::errors` can find.
#[derive(Debug)]
pub enum TxnError {
    /// Fewer than two legs.
    Unbalanced,
    /// The legs do not add up to zero.
    NotZeroSum,
    /// The legs cannot be added up.
    Other(Error),
}

/// The mathematical form of a [`TxnHeader`].
pub struct HeaderView {
    pub state: TransactionState,
    pub payee: Option<Seq<char>>,
    pub title: Seq<char>,
}

/// The mathematical form of a [`ParsedTransaction`].
pub struct ParsedTransactionView {
    pub accounts: Seq<AccountPath>,
    pub exchanges: Seq<Option<ParsedAmountView>>,
}

/// A leg whose references are resolved, before balancing.
pub struct LegView {
    pub account: AccountRef,
    pub amount: Option<AmountView>,
}

/// The mathematical form of an [`Exchange`].
pub struct ExchangeView {
    pub account: AccountRef,
    pub amount: AmountView,
    pub elided: bool,
}

/// The mathematical form of a [`Transaction`].
pub struct TransactionView {
    pub state: TransactionState,
    pub payee: Option<Seq<char>>,
    pub title: Seq<char>,
    pub exchanges: Seq<ExchangeView>,
}

/// The mathematical form of a [`BalanceAssertion`].
pub struct BalanceView {
    pub account: AccountRef,
    pub amount: AmountView,
}

/// The mathematical form of a [`PadTransaction`].
pub struct PadView {
    pub target: AccountRef,
    pub source: AccountRef,
}

impl View for BalanceAssertion {
    type V = BalanceView;

    open spec fn view(&self) -> BalanceView {
        BalanceView { account: self.account@, amount: self.amount@ }
    }
}

impl View for PadTransaction {
    type V = PadView;

    open spec fn view(&self) -> PadView {
        PadView { target: self.target@, source: self.source@ }
    }
}

/// The mathematical form of a [`TxnError`].
pub enum TxnErrorView {
    Unbalanced,
    NotZeroSum,
    Other(ErrorView),
}

impl<'th> View for TxnHeader<'th> {
    type V = HeaderView;

    open spec fn view(&self) -> HeaderView {
        HeaderView {
            state: self.state,
            payee: match self.payee {
                Some(p) => Some(p@),
                None => None,
            },
            title: self.title@,
        }
    }
}

/// The view of a written amount that may be missing.
pub open spec fn optional_amount_view(a: Option<ParsedAmount<'_>>) -> Option<ParsedAmountView> {
    match a {
        Some(a) => Some(a@),
        None => None,
    }
}

impl<'tl> View for ParsedTransaction<'tl> {
    type V = ParsedTransactionView;

    open spec fn view(&self) -> ParsedTransactionView {
        ParsedTransactionView {
            accounts: Seq::new(self.accounts@.len(), |i: int| self.accounts@[i]@),
            exchanges: Seq::new(
                self.exchanges@.len(),
                |i: int| optional_amount_view(self.exchanges@[i]),
            ),
        }
    }
}

impl View for Exchange {
    type V = ExchangeView;

    open spec fn view(&self) -> ExchangeView {
        ExchangeView { account: self.account@, amount: self.amount@, elided: self.elided }
    }
}

/// The views of a sequence of exchanges.
pub open spec fn exchanges_view(exchanges: Seq<Exchange>) -> Seq<ExchangeView> {
    Seq::new(exchanges.len(), |i: int| exchanges[i]@)
}

impl View for Transaction {
    type V = TransactionView;

    open spec fn view(&self) -> TransactionView {
        TransactionView {
            state: self.state,
            payee: match self.payee {
                Some(p) => Some(p@),
                None => None,
            },
            title: self.title@,
            exchanges: exchanges_view(self.exchanges@),
        }
    }
}

impl View for TxnError {
    type V = TxnErrorView;

    open spec fn view(&self) -> TxnErrorView {
        match *self {
            TxnError::Unbalanced => TxnErrorView::Unbalanced,
            TxnError::NotZeroSum => TxnErrorView::NotZeroSum,
            TxnError::Other(e) => TxnErrorView::Other(e.1@),
        }
    }
}

/// What resolves the references of a transaction: for a date and a written
/// account, its resolved form; for a unit code, its index.
pub struct LookupView {
    pub accounts: spec_fn(Date, AccountPath) -> Option<AccountRef>,
    pub units: spec_fn(Seq<char>) -> Option<usize>,
}

/// What a ledger must answer for a transaction to be resolved against it.
pub trait ReferenceLookup {
    /// Whether the ledger is in a state in which it can be asked.
    spec fn lookup_ready(&self) -> bool;

    /// What the ledger answers.
    spec fn lookups(&self) -> LookupView;

    /// Resolves `account` for use on `date`.
    fn account_lookup(&self, date: &Date, account: &ParsedAccount<'_>) -> (r: Result<
        TxnAccount,
        Error,
    >)
        requires
            self.lookup_ready(),
        ensures
            match r {
                Ok(t) => (self.lookups().accounts)(*date, account@) == Some(t@),
                Err(e) => (self.lookups().accounts)(*date, account@) is None && reports(
                    e,
                    ErrorView::AccountNotOpened { account: display_spec(account@), date: *date },
                ),
            },
    ;

    /// Resolves the unit `unit`.
    fn unit_lookup(&self, date: &Date, unit: &str) -> (r: Result<usize, Error>)
        requires
            self.lookup_ready(),
        ensures
            match r {
                Ok(i) => (self.lookups().units)(unit@) == Some(i),
                Err(e) => (self.lookups().units)(unit@) is None && reports(
                    e,
                    ErrorView::UnitNotDeclared { unit: unit@ },
                ),
            },
    ;
}

/// How many of the items are `None`.
pub open spec fn count_none<T>(items: Seq<Option<T>>) -> nat
    decreases items.len(),
{
    if items.len() == 0 {
        0
    } else {
        count_none(items.drop_last()) + if items.last() is None {
            1nat
        } else {
            0nat
        }
    }
}

/// The written amount with its units resolved by `lookup`; the error names
/// the first unit that is not declared.
pub open spec fn resolve_amount_spec(lookup: LookupView, amount: ParsedAmountView) -> Result<
    AmountView,
    ErrorView,
> {
    match (lookup.units)(amount.currency) {
        Some(currency) => match amount.price {
            Some(price) => match (lookup.units)(price.currency) {
                Some(quoted) => Ok(
                    AmountView {
                        nominal: amount.nominal,
                        currency,
                        prices: seq![QuoteView { nominal: price.nominal, currency: quoted }],
                    },
                ),
                None => Err(ErrorView::UnitNotDeclared { unit: price.currency }),
            },
            None => Ok(AmountView { nominal: amount.nominal, currency, prices: Seq::empty() }),
        },
        None => Err(ErrorView::UnitNotDeclared { unit: amount.currency }),
    }
}

/// One written leg resolved by `lookup` for `date`: first the account, then
/// the amount.
pub open spec fn resolve_leg_spec(
    lookup: LookupView,
    date: Date,
    account: AccountPath,
    amount: Option<ParsedAmountView>,
) -> Result<LegView, ErrorView> {
    match (lookup.accounts)(date, account) {
        Some(r) => match amount {
            Some(a) => match resolve_amount_spec(lookup, a) {
                Ok(resolved) => Ok(LegView { account: r, amount: Some(resolved) }),
                Err(e) => Err(e),
            },
            None => Ok(LegView { account: r, amount: None }),
        },
        None => Err(ErrorView::AccountNotOpened { account: display_spec(account), date }),
    }
}

/// The first `count` written legs resolved in order; the error is that of
/// the first leg that fails.
pub open spec fn resolve_legs_spec(
    lookup: LookupView,
    date: Date,
    parsed: ParsedTransactionView,
    count: nat,
) -> Result<Seq<LegView>, ErrorView>
    decreases count,
{
    if count == 0 {
        Ok(Seq::empty())
    } else {
        match resolve_legs_spec(lookup, date, parsed, (count - 1) as nat) {
            Ok(front) => match resolve_leg_spec(
                lookup,
                date,
                parsed.accounts[count - 1],
                parsed.exchanges[count - 1],
            ) {
                Ok(leg) => Ok(front.push(leg)),
                Err(e) => Err(e),
            },
            Err(e) => Err(e),
        }
    }
}

/// The unit of the first leg that has an amount.
pub open spec fn anchor_spec(legs: Seq<LegView>) -> Option<usize>
    decreases legs.len(),
{
    if legs.len() == 0 {
        None
    } else {
        match legs[0].amount {
            Some(a) => Some(a.currency),
            None => anchor_spec(legs.drop_first()),
        }
    }
}

/// The amounts that are written, added up in order in the unit `anchor`,
/// starting from zero.
pub open spec fn explicit_total_spec(legs: Seq<LegView>, anchor: usize) -> Result<
    AmountView,
    ErrorView,
>
    decreases legs.len(),
{
    if legs.len() == 0 {
        Ok(zero_spec(anchor))
    } else {
        match explicit_total_spec(legs.drop_last(), anchor) {
            Ok(total) => match legs.last().amount {
                Some(a) => sum_spec(total, a),
                None => Ok(total),
            },
            Err(e) => Err(e),
        }
    }
}

/// The amount that the leg without one must have for the legs to add up to
/// zero: zero of the anchor unit, minus the total of the written amounts.
pub open spec fn inferred_spec(legs: Seq<LegView>) -> Result<AmountView, ErrorView> {
    match anchor_spec(legs) {
        Some(anchor) => match explicit_total_spec(legs, anchor) {
            Ok(total) => difference_spec(zero_spec(anchor), total),
            Err(e) => Err(e),
        },
        None => Err(ErrorView::NoAnchor),
    }
}

/// The legs as exchanges: each written amount as it is, and `inferred` where
/// none is written.
pub open spec fn filled_spec(legs: Seq<LegView>, inferred: AmountView) -> Seq<ExchangeView> {
    Seq::new(
        legs.len(),
        |i: int|
            match legs[i].amount {
                Some(a) => ExchangeView { account: legs[i].account, amount: a, elided: false },
                None => ExchangeView { account: legs[i].account, amount: inferred, elided: true },
            },
    )
}

/// The amounts of the legs.
pub open spec fn leg_amounts(legs: Seq<LegView>) -> Seq<Option<AmountView>> {
    Seq::new(legs.len(), |i: int| legs[i].amount)
}

/// The exchanges of the balanced transaction. More than one leg without an
/// amount is an error. With none, the legs stand as written, whether they
/// add up or not. With one, it gets the inferred amount.
pub open spec fn balance_spec(legs: Seq<LegView>) -> Result<Seq<ExchangeView>, ErrorView> {
    if count_none(leg_amounts(legs)) > 1 {
        Err(ErrorView::TooManyElided)
    } else if count_none(leg_amounts(legs)) == 0 {
        Ok(filled_spec(legs, zero_spec(0)))
    } else {
        match inferred_spec(legs) {
            Ok(inferred) => Ok(filled_spec(legs, inferred)),
            Err(e) => Err(e),
        }
    }
}

/// The transaction that `header` and the written legs make on `date`
/// against `lookup`: too many missing amounts are refused first, then the
/// legs are resolved in order, then balanced.
pub open spec fn create_spec(
    lookup: LookupView,
    date: Date,
    header: HeaderView,
    parsed: ParsedTransactionView,
) -> Result<TransactionView, ErrorView> {
    if count_none(parsed.exchanges) > 1 {
        Err(ErrorView::TooManyElided)
    } else {
        match resolve_legs_spec(lookup, date, parsed, parsed.accounts.len()) {
            Ok(legs) => match balance_spec(legs) {
                Ok(exchanges) => Ok(
                    TransactionView {
                        state: header.state,
                        payee: header.payee,
                        title: header.title,
                        exchanges,
                    },
                ),
                Err(e) => Err(e),
            },
            Err(e) => Err(e),
        }
    }
}

/// The unit of the first exchange whose amount was written.
pub open spec fn exchange_anchor_spec(exchanges: Seq<ExchangeView>) -> Option<usize>
    decreases exchanges.len(),
{
    if exchanges.len() == 0 {
        None
    } else if !exchanges[0].elided {
        Some(exchanges[0].amount.currency)
    } else {
        exchange_anchor_spec(exchanges.drop_first())
    }
}

/// All the amounts added up in order in the unit `anchor`, starting from
/// zero.
pub open spec fn fold_spec(exchanges: Seq<ExchangeView>, anchor: usize) -> Result<
    AmountView,
    ErrorView,
>
    decreases exchanges.len(),
{
    if exchanges.len() == 0 {
        Ok(zero_spec(anchor))
    } else {
        match fold_spec(exchanges.drop_last(), anchor) {
            Ok(total) => sum_spec(total, exchanges.last().amount),
            Err(e) => Err(e),
        }
    }
}

/// The sum of all the exchanges, in the unit of the first whose amount was
/// written.
pub open spec fn total_spec(exchanges: Seq<ExchangeView>) -> Result<AmountView, ErrorView> {
    match exchange_anchor_spec(exchanges) {
        Some(anchor) => fold_spec(exchanges, anchor),
        None => Err(ErrorView::NoAnchor),
    }
}

/// The amounts above zero added up in order in the unit `anchor`.
pub open spec fn debit_fold_spec(exchanges: Seq<ExchangeView>, anchor: usize) -> Result<
    AmountView,
    ErrorView,
>
    decreases exchanges.len(),
{
    if exchanges.len() == 0 {
        Ok(zero_spec(anchor))
    } else {
        match debit_fold_spec(exchanges.drop_last(), anchor) {
            Ok(total) => if exchanges.last().amount.nominal.mantissa > 0 {
                sum_spec(total, exchanges.last().amount)
            } else {
                Ok(total)
            },
            Err(e) => Err(e),
        }
    }
}

/// The sum of the exchanges whose amount is above zero.
pub open spec fn debited_spec(exchanges: Seq<ExchangeView>) -> Result<AmountView, ErrorView> {
    match exchange_anchor_spec(exchanges) {
        Some(anchor) => debit_fold_spec(exchanges, anchor),
        None => Err(ErrorView::NoAnchor),
    }
}

/// What is wrong with the exchanges under `check`, if anything.
pub open spec fn errors_spec(exchanges: Seq<ExchangeView>, check: BalanceCheck) -> Option<
    TxnErrorView,
> {
    if exchanges.len() <= 1 {
        Some(TxnErrorView::Unbalanced)
    } else if check == BalanceCheck::WithoutSum {
        None
    } else {
        match total_spec(exchanges) {
            Ok(total) => if total.nominal.mantissa == 0 {
                None
            } else {
                Some(TxnErrorView::NotZeroSum)
            },
            Err(e) => Some(TxnErrorView::Other(e)),
        }
    }
}

/// One leg with its references resolved, before balancing: the account, and
/// the amount where one was written.
#[derive(Debug, PartialEq)]
pub struct Leg {
    pub account: TxnAccount,
    pub amount: Option<Amount>,
}

impl View for Leg {
    type V = LegView;

    open spec fn view(&self) -> LegView {
        LegView {
            account: self.account@,
            amount: match self.amount {
                Some(a) => Some(a@),
                None => None,
            },
        }
    }
}

/// The views of a sequence of legs.
pub open spec fn legs_view(legs: Seq<Leg>) -> Seq<LegView> {
    Seq::new(legs.len(), |i: int| legs[i]@)
}

fn copy_account(account: &TxnAccount) -> (r: TxnAccount)
    ensures
        r@ == account@,
{
    let path = account.path();
    let mut copy: Vec<usize> = Vec::new();
    let mut i: usize = 0;
    while i < path.len()
        invariant
            i <= path.len(),
            copy@ == path@.take(i as int),
        decreases path.len() - i,
    {
        copy.push(path[i]);
        i += 1;
        assert(copy@ =~= path@.take(i as int));
    }
    assert(path@.take(path.len() as int) =~= path@);
    TxnAccount::from_parts(account.kind(), copy)
}

/// How many of the legs have no amount.
fn count_elided(legs: &Vec<Leg>) -> (count: usize)
    ensures
        count == count_none(leg_amounts(legs_view(legs@))),
{
    let ghost amounts = leg_amounts(legs_view(legs@));
    let mut count: usize = 0;
    let mut i: usize = 0;
    while i < legs.len()
        invariant
            i <= legs.len(),
            amounts == leg_amounts(legs_view(legs@)),
            count <= i,
            count == count_none(amounts.take(i as int)),
        decreases legs.len() - i,
    {
        proof {
            assert(amounts.take(i + 1).drop_last() =~= amounts.take(i as int));
            assert(amounts.take(i + 1).last() == amounts[i as int]);
        }
        if legs[i].amount.is_none() {
            count += 1;
        }
        i += 1;
    }
    assert(amounts.take(legs.len() as int) =~= amounts);
    count
}

/// The unit of the first leg that has an amount.
fn anchor_of(legs: &Vec<Leg>) -> (r: Option<usize>)
    ensures
        r == anchor_spec(legs_view(legs@)),
{
    let ghost all = legs_view(legs@);
    let mut i: usize = 0;
    assert(all.skip(0) =~= all);
    while i < legs.len()
        invariant
            i <= legs.len(),
            all == legs_view(legs@),
            anchor_spec(all) == anchor_spec(all.skip(i as int)),
        decreases legs.len() - i,
    {
        proof {
            assert(all.skip(i as int)[0] == legs@[i as int]@);
            assert(all.skip(i as int).drop_first() =~= all.skip(i + 1));
        }
        match &legs[i].amount {
            Some(a) => {
                return Some(a.currency);
            },
            None => {},
        }
        i += 1;
    }
    None
}

/// The written amounts added up in the unit `anchor`.
fn explicit_total(legs: &Vec<Leg>, anchor: usize) -> (r: Result<Amount, Error>)
    ensures
        match r {
            Ok(total) => explicit_total_spec(legs_view(legs@), anchor) == Ok::<
                AmountView,
                ErrorView,
            >(total@),
            Err(e) => explicit_total_spec(legs_view(legs@), anchor) is Err && reports(
                e,
                explicit_total_spec(legs_view(legs@), anchor)->Err_0,
            ),
        },
{
    let ghost all = legs_view(legs@);
    let mut total = Amount::zero(anchor);
    let mut i: usize = 0;
    while i < legs.len()
        invariant
            i <= legs.len(),
            all == legs_view(legs@),
            explicit_total_spec(all.take(i as int), anchor) == Ok::<AmountView, ErrorView>(total@),
        decreases legs.len() - i,
    {
        proof {
            assert(all.take(i + 1).drop_last() =~= all.take(i as int));
            assert(all.take(i + 1).last() == legs@[i as int]@);
        }
        match &legs[i].amount {
            Some(a) => {
                match total.add(a) {
                    Ok(next) => {
                        total = next;
                    },
                    Err(e) => {
                        proof {
                            lemma_explicit_total_fails(all, anchor, i + 1);
                        }
                        return Err(e);
                    },
                }
            },
            None => {},
        }
        i += 1;
    }
    assert(all.take(legs.len() as int) =~= all);
    Ok(total)
}

/// Once the total of the first `count` legs fails, the total of all of them
/// fails in the same way.
proof fn lemma_explicit_total_fails(legs: Seq<LegView>, anchor: usize, count: int)
    requires
        0 <= count <= legs.len(),
        explicit_total_spec(legs.take(count), anchor) is Err,
    ensures
        explicit_total_spec(legs, anchor) == explicit_total_spec(legs.take(count), anchor),
    decreases legs.len() - count,
{
    if count == legs.len() {
        assert(legs.take(count) =~= legs);
    } else {
        assert(legs.take(count + 1).drop_last() =~= legs.take(count));
        lemma_explicit_total_fails(legs, anchor, count + 1);
    }
}

impl Transaction {
    /// Balances resolved legs into a transaction. More than one leg without
    /// an amount is refused. With exactly one, it gets zero of the anchor
    /// unit minus the total of the written amounts, and is marked elided.
    pub fn balance(header: &TxnHeader<'_>, legs: &Vec<Leg>) -> (r: Result<Transaction, Error>)
        ensures
            match r {
                Ok(t) => balance_spec(legs_view(legs@)) == Ok::<Seq<ExchangeView>, ErrorView>(
                    t@.exchanges,
                ) && t@.state == header@.state && t@.payee == header@.payee && t@.title
                    == header@.title,
                Err(e) => balance_spec(legs_view(legs@)) is Err && reports(
                    e,
                    balance_spec(legs_view(legs@))->Err_0,
                ),
            },
    {
        let ghost all = legs_view(legs@);
        let elided = count_elided(legs);
        if elided > 1 {
            return Err(fail(ErrorContext::TooManyElided));
        }
        let inferred = if elided == 0 {
            Amount::zero(0)
        } else {
            let anchor = match anchor_of(legs) {
                Some(anchor) => anchor,
                None => {
                    return Err(fail(ErrorContext::NoAnchor));
                },
            };
            let total = match explicit_total(legs, anchor) {
                Ok(total) => total,
                Err(e) => {
                    return Err(e);
                },
            };
            match Amount::zero(anchor).sub(&total) {
                Ok(inferred) => inferred,
                Err(e) => {
                    return Err(e);
                },
            }
        };
        let mut exchanges: Vec<Exchange> = Vec::new();
        let mut i: usize = 0;
        while i < legs.len()
            invariant
                i <= legs.len(),
                all == legs_view(legs@),
                exchanges@.len() == i,
                forall|k: int|
                    0 <= k < i ==> (#[trigger] exchanges@[k])@ == filled_spec(all, inferred@)[k],
            decreases legs.len() - i,
        {
            let account = copy_account(&legs[i].account);
            let exchange = match &legs[i].amount {
                Some(a) => Exchange { account, amount: a.duplicate(), elided: false },
                None => Exchange { account, amount: inferred.duplicate(), elided: true },
            };
            assert(all[i as int] == legs@[i as int]@);
            exchanges.push(exchange);
            i += 1;
        }
        assert(exchanges_view(exchanges@) =~= filled_spec(all, inferred@));
        let payee = match header.payee {
            Some(p) => Some(p.to_owned()),
            None => None,
        };
        Ok(Transaction { state: header.state, payee, title: header.title.to_owned(), exchanges })
    }

    /// The unit of the first exchange whose amount was written.
    fn anchor(&self) -> (r: Option<usize>)
        ensures
            r == exchange_anchor_spec(self@.exchanges),
    {
        let ghost all = exchanges_view(self.exchanges@);
        let mut i: usize = 0;
        assert(all.skip(0) =~= all);
        while i < self.exchanges.len()
            invariant
                i <= self.exchanges.len(),
                all == exchanges_view(self.exchanges@),
                exchange_anchor_spec(all) == exchange_anchor_spec(all.skip(i as int)),
            decreases self.exchanges.len() - i,
        {
            proof {
                assert(all.skip(i as int)[0] == self.exchanges@[i as int]@);
                assert(all.skip(i as int).drop_first() =~= all.skip(i + 1));
            }
            if !self.exchanges[i].elided {
                return Some(self.exchanges[i].amount.currency);
            }
            i += 1;
        }
        None
    }

    /// The sum of all the exchanges, the inferred one included, in the unit
    /// of the first exchange whose amount was written.
    pub fn sum(&self) -> (r: Result<Amount, Error>)
        ensures
            match r {
                Ok(total) => total_spec(self@.exchanges) == Ok::<AmountView, ErrorView>(total@),
                Err(e) => total_spec(self@.exchanges) is Err && reports(
                    e,
                    total_spec(self@.exchanges)->Err_0,
                ),
            },
    {
        let anchor = match self.anchor() {
            Some(anchor) => anchor,
            None => {
                return Err(fail(ErrorContext::NoAnchor));
            },
        };
        let ghost all = exchanges_view(self.exchanges@);
        let mut total = Amount::zero(anchor);
        let mut i: usize = 0;
        while i < self.exchanges.len()
            invariant
                i <= self.exchanges.len(),
                all == exchanges_view(self.exchanges@),
                exchange_anchor_spec(all) == Some(anchor),
                fold_spec(all.take(i as int), anchor) == Ok::<AmountView, ErrorView>(total@),
            decreases self.exchanges.len() - i,
        {
            proof {
                assert(all.take(i + 1).drop_last() =~= all.take(i as int));
                assert(all.take(i + 1).last() == self.exchanges@[i as int]@);
            }
            match total.add(&self.exchanges[i].amount) {
                Ok(next) => {
                    total = next;
                },
                Err(e) => {
                    proof {
                        lemma_fold_fails(all, anchor, i + 1);
                    }
                    return Err(e);
                },
            }
            i += 1;
        }
        assert(all.take(self.exchanges.len() as int) =~= all);
        Ok(total)
    }

    /// The sum of the exchanges whose amount is above zero, in the unit of
    /// the first exchange whose amount was written.
    pub fn total_debited(&self) -> (r: Result<Amount, Error>)
        ensures
            match r {
                Ok(total) => debited_spec(self@.exchanges) == Ok::<AmountView, ErrorView>(total@),
                Err(e) => debited_spec(self@.exchanges) is Err && reports(
                    e,
                    debited_spec(self@.exchanges)->Err_0,
                ),
            },
    {
        let anchor = match self.anchor() {
            Some(anchor) => anchor,
            None => {
                return Err(fail(ErrorContext::NoAnchor));
            },
        };
        let ghost all = exchanges_view(self.exchanges@);
        let mut total = Amount::zero(anchor);
        let mut i: usize = 0;
        while i < self.exchanges.len()
            invariant
                i <= self.exchanges.len(),
                all == exchanges_view(self.exchanges@),
                exchange_anchor_spec(all) == Some(anchor),
                debit_fold_spec(all.take(i as int), anchor) == Ok::<AmountView, ErrorView>(total@),
            decreases self.exchanges.len() - i,
        {
            proof {
                assert(all.take(i + 1).drop_last() =~= all.take(i as int));
                assert(all.take(i + 1).last() == self.exchanges@[i as int]@);
            }
            if self.exchanges[i].amount.nominal.is_positive() {
                match total.add(&self.exchanges[i].amount) {
                    Ok(next) => {
                        total = next;
                    },
                    Err(e) => {
                        proof {
                            lemma_debit_fold_fails(all, anchor, i + 1);
                        }
                        return Err(e);
                    },
                }
            }
            i += 1;
        }
        assert(all.take(self.exchanges.len() as int) =~= all);
        Ok(total)
    }

    /// What is wrong with the transaction, if anything. Fewer than two
    /// exchanges are always reported. `WithSum` also adds the exchanges up:
    /// a sum other than zero is reported, and so is a sum that cannot be
    /// made.
    pub fn errors(&self, check: BalanceCheck) -> (r: Option<TxnError>)
        ensures
            match r {
                Some(e) => errors_spec(self@.exchanges, check) == Some(e@),
                None => errors_spec(self@.exchanges, check) is None,
            },
    {
        if self.exchanges.len() <= 1 {
            return Some(TxnError::Unbalanced);
        }
        match check {
            BalanceCheck::WithoutSum => None,
            BalanceCheck::WithSum => match self.sum() {
                Ok(total) => if total.is_zero() {
                    None
                } else {
                    Some(TxnError::NotZeroSum)
                },
                Err(e) => Some(TxnError::Other(e)),
            },
        }
    }
}

/// Once the sum of the first `count` exchanges fails, the sum of all of them
/// fails in the same way.
proof fn lemma_fold_fails(exchanges: Seq<ExchangeView>, anchor: usize, count: int)
    requires
        0 <= count <= exchanges.len(),
        fold_spec(exchanges.take(count), anchor) is Err,
    ensures
        fold_spec(exchanges, anchor) == fold_spec(exchanges.take(count), anchor),
    decreases exchanges.len() - count,
{
    if count == exchanges.len() {
        assert(exchanges.take(count) =~= exchanges);
    } else {
        assert(exchanges.take(count + 1).drop_last() =~= exchanges.take(count));
        lemma_fold_fails(exchanges, anchor, count + 1);
    }
}

proof fn lemma_debit_fold_fails(exchanges: Seq<ExchangeView>, anchor: usize, count: int)
    requires
        0 <= count <= exchanges.len(),
        debit_fold_spec(exchanges.take(count), anchor) is Err,
    ensures
        debit_fold_spec(exchanges, anchor) == debit_fold_spec(exchanges.take(count), anchor),
    decreases exchanges.len() - count,
{
    if count == exchanges.len() {
        assert(exchanges.take(count) =~= exchanges);
    } else {
        assert(exchanges.take(count + 1).drop_last() =~= exchanges.take(count));
        lemma_debit_fold_fails(exchanges, anchor, count + 1);
    }
}

/// The written amount with its units resolved by `ledger`.
fn resolve_amount<RL: ReferenceLookup>(ledger: &RL, date: &Date, amount: &ParsedAmount<'_>) -> (r:
    Result<Amount, Error>)
    requires
        ledger.lookup_ready(),
    ensures
        match r {
            Ok(a) => resolve_amount_spec(ledger.lookups(), amount@) == Ok::<
                AmountView,
                ErrorView,
            >(a@),
            Err(e) => resolve_amount_spec(ledger.lookups(), amount@) is Err && reports(
                e,
                resolve_amount_spec(ledger.lookups(), amount@)->Err_0,
            ),
        },
{
    let currency = match ledger.unit_lookup(date, amount.currency) {
        Ok(c) => c,
        Err(e) => {
            return Err(e);
        },
    };
    let mut prices: Vec<TxnPrice> = Vec::new();
    match &amount.price {
        Some(p) => {
            let quoted = match ledger.unit_lookup(date, p.currency) {
                Ok(c) => c,
                Err(e) => {
                    return Err(e);
                },
            };
            prices.push(TxnPrice { nominal: p.nominal, currency: quoted });
            assert(quotes_view(prices@) =~= seq![
                QuoteView { nominal: p.nominal@, currency: quoted },
            ]);
        },
        None => {
            assert(quotes_view(prices@) =~= Seq::<QuoteView>::empty());
        },
    }
    Ok(Amount { nominal: amount.nominal, currency, prices })
}

/// Once the first `count` legs fail to resolve, all of them fail in the same
/// way.
proof fn lemma_resolve_legs_fails(
    lookup: LookupView,
    date: Date,
    parsed: ParsedTransactionView,
    count: nat,
    all: nat,
)
    requires
        count <= all,
        resolve_legs_spec(lookup, date, parsed, count) is Err,
    ensures
        resolve_legs_spec(lookup, date, parsed, all) == resolve_legs_spec(
            lookup,
            date,
            parsed,
            count,
        ),
    decreases all - count,
{
    if count < all {
        lemma_resolve_legs_fails(lookup, date, parsed, count, (all - 1) as nat);
    }
}

impl Transaction {
    /// Makes the transaction that `header` and the written legs describe on
    /// `date`. More than one leg without an amount is refused before
    /// anything is looked up. Then every account and every unit is resolved
    /// against `ledger`, in order, and the first failure is the error. Last,
    /// the legs are balanced. The two lists of `parsed_trx` must have the
    /// same length.
    pub fn create<RL: ReferenceLookup>(
        ledger: &RL,
        date: Date,
        header: &TxnHeader<'_>,
        parsed_trx: &ParsedTransaction<'_>,
    ) -> (r: Result<Transaction, Error>)
        requires
            ledger.lookup_ready(),
            parsed_trx.accounts@.len() == parsed_trx.exchanges@.len(),
        ensures
            match r {
                Ok(t) => create_spec(ledger.lookups(), date, header@, parsed_trx@) == Ok::<
                    TransactionView,
                    ErrorView,
                >(t@),
                Err(e) => create_spec(ledger.lookups(), date, header@, parsed_trx@) is Err
                    && reports(e, create_spec(ledger.lookups(), date, header@, parsed_trx@)->Err_0),
            },
    {
        let ghost parsed = parsed_trx@;
        let n = parsed_trx.accounts.len();
        let mut elided: usize = 0;
        let mut i: usize = 0;
        while i < n
            invariant
                i <= n,
                n == parsed_trx.exchanges@.len(),
                parsed == parsed_trx@,
                elided <= i,
                elided == count_none(parsed.exchanges.take(i as int)),
            decreases n - i,
        {
            proof {
                assert(parsed.exchanges.take(i + 1).drop_last() =~= parsed.exchanges.take(i as int));
                assert(parsed.exchanges.take(i + 1).last() == optional_amount_view(
                    parsed_trx.exchanges@[i as int],
                ));
            }
            if parsed_trx.exchanges[i].is_none() {
                elided += 1;
            }
            i += 1;
        }
        assert(parsed.exchanges.take(n as int) =~= parsed.exchanges);
        if elided > 1 {
            return Err(fail(ErrorContext::TooManyElided));
        }
        let mut legs: Vec<Leg> = Vec::new();
        let mut i: usize = 0;
        assert(legs_view(legs@) =~= Seq::<LegView>::empty());
        while i < n
            invariant
                i <= n,
                n == parsed_trx.accounts@.len(),
                n == parsed_trx.exchanges@.len(),
                parsed == parsed_trx@,
                count_none(parsed.exchanges) <= 1,
                ledger.lookup_ready(),
                resolve_legs_spec(ledger.lookups(), date, parsed, i as nat) == Ok::<
                    Seq<LegView>,
                    ErrorView,
                >(legs_view(legs@)),
            decreases n - i,
        {
            let ghost before = legs_view(legs@);
            proof {
                assert(parsed.accounts[i as int] == parsed_trx.accounts@[i as int]@);
                assert(parsed.exchanges[i as int] == optional_amount_view(
                    parsed_trx.exchanges@[i as int],
                ));
            }
            let account = match ledger.account_lookup(&date, &parsed_trx.accounts[i]) {
                Ok(a) => a,
                Err(e) => {
                    proof {
                        lemma_resolve_legs_fails(
                            ledger.lookups(),
                            date,
                            parsed,
                            (i + 1) as nat,
                            n as nat,
                        );
                    }
                    return Err(e);
                },
            };
            let amount = match &parsed_trx.exchanges[i] {
                Some(a) => match resolve_amount(ledger, &date, a) {
                    Ok(resolved) => Some(resolved),
                    Err(e) => {
                        proof {
                            lemma_resolve_legs_fails(
                            ledger.lookups(),
                            date,
                            parsed,
                            (i + 1) as nat,
                            n as nat,
                        );
                        }
                        return Err(e);
                    },
                },
                None => None,
            };
            let leg = Leg { account, amount };
            legs.push(leg);
            assert(legs_view(legs@) =~= before.push(leg@));
            i += 1;
        }
        Transaction::balance(header, &legs)
    }
}

} // verus!
