//! The ledger: the account store, the units, the options, and for every day
//! the book of what was recorded on it.
//!
//! Statements are applied one by one, in the order of the source, and may
//! only name what an earlier statement introduced: an account must have
//! been opened, and a unit declared with `unit`, before it is used. A
//! `pad` or a `balance` statement is recorded as it stands; no transaction
//! is made up for the one, and no running balance is held against the
//! other.

use crate::account::{display_spec, AccountPath, ParsedAccount, TxnAccount};
use crate::amount::{Amount, AmountView, ParsedAmount, ParsedAmountView};
use crate::assoc::{lemma_pairs_insert, lemma_pairs_map, lemma_pairs_update, no_repeats, pairs_map};
use crate::currency::{amount_resolve_spec, CurrencyStore};
use crate::date::{date_lt, Date};
use crate::error::{fail, reports, Error, ErrorContext, ErrorView};
use crate::statement::{
    directive_ready, legs_match, single_spec, syntax, Directive, DirectiveView, Statement,
    StatementView,
};
use crate::store::{close_spec, intern_one, open_spec, resolve_spec, AccountStore, StoreView};
use crate::text::{strings_view, strs_view};
use crate::transaction::{
    create_spec, BalanceAssertion, BalanceView, LookupView, PadTransaction, PadView,
    ParsedTransaction, ReferenceLookup, Transaction, TransactionView, TxnHeader,
};
use vstd::prelude::*;
use vstd::string::*;

verus! {

/// What was recorded on one day, each list in the order of the source.
#[derive(Debug)]
pub struct DayBook {
    custom: Vec<Vec<String>>,
    pads: Vec<PadTransaction>,
    balance_asserts: Vec<BalanceAssertion>,
    transactions: Vec<Transaction>,
}

/// The mathematical form of a [`DayBook`].
pub struct DayBookView {
    pub custom: Seq<Seq<Seq<char>>>,
    pub pads: Seq<PadView>,
    pub balance_asserts: Seq<BalanceView>,
    pub transactions: Seq<TransactionView>,
}

/// A price that was declared: on `date`, one of the unit `unit` is worth
/// `amount`.
#[derive(Debug)]
pub struct PriceQuote {
    pub date: Date,
    pub unit: usize,
    pub amount: Amount,
}

/// The mathematical form of a [`PriceQuote`].
pub struct PriceQuoteView {
    pub date: Date,
    pub unit: usize,
    pub amount: AmountView,
}

/// The mathematical form of a [`Ledger`].
pub struct LedgerView {
    pub accounts: StoreView,
    pub bookings: Map<Date, DayBookView>,
    pub options: Map<Seq<char>, Seq<char>>,
    pub units: Seq<Seq<char>>,
    pub prices: Seq<PriceQuoteView>,
}

impl View for DayBook {
    type V = DayBookView;

    closed spec fn view(&self) -> DayBookView {
        DayBookView {
            custom: Seq::new(self.custom@.len(), |i: int| strings_view(self.custom@[i]@)),
            pads: Seq::new(self.pads@.len(), |i: int| self.pads@[i]@),
            balance_asserts: Seq::new(
                self.balance_asserts@.len(),
                |i: int| self.balance_asserts@[i]@,
            ),
            transactions: Seq::new(self.transactions@.len(), |i: int| self.transactions@[i]@),
        }
    }
}

impl View for PriceQuote {
    type V = PriceQuoteView;

    open spec fn view(&self) -> PriceQuoteView {
        PriceQuoteView { date: self.date, unit: self.unit, amount: self.amount@ }
    }
}

/// A book in which nothing is recorded.
pub open spec fn empty_book() -> DayBookView {
    DayBookView {
        custom: Seq::empty(),
        pads: Seq::empty(),
        balance_asserts: Seq::empty(),
        transactions: Seq::empty(),
    }
}

/// The book of `date`, empty where the ledger has none.
pub open spec fn book_on(ledger: LedgerView, date: Date) -> DayBookView {
    if ledger.bookings.contains_key(date) {
        ledger.bookings[date]
    } else {
        empty_book()
    }
}

/// The ledger with `book` as the book of `date`.
pub open spec fn with_book(ledger: LedgerView, date: Date, book: DayBookView) -> LedgerView {
    LedgerView {
        accounts: ledger.accounts,
        bookings: ledger.bookings.insert(date, book),
        options: ledger.options,
        units: ledger.units,
        prices: ledger.prices,
    }
}

/// The ledger with `accounts` as its account store.
pub open spec fn with_accounts(ledger: LedgerView, accounts: StoreView) -> LedgerView {
    LedgerView {
        accounts,
        bookings: ledger.bookings,
        options: ledger.options,
        units: ledger.units,
        prices: ledger.prices,
    }
}

/// What the ledger answers when references are resolved against it:
/// accounts by its store, units by its declared codes.
pub open spec fn ledger_lookups(ledger: LedgerView) -> LookupView {
    LookupView {
        accounts: |date: Date, account: AccountPath| resolve_spec(ledger.accounts, account, date),
        units: |unit: Seq<char>| crate::currency::lookup_spec(ledger.units, unit),
    }
}

/// The error for an account that cannot be used on `date`.
pub open spec fn not_opened(account: AccountPath, date: Date) -> ErrorView {
    ErrorView::AccountNotOpened { account: display_spec(account), date }
}

/// A `pad` statement: both accounts are resolved on `date`, the target
/// first, and the pair is recorded in the book of that day.
pub open spec fn pad_spec(ledger: LedgerView, date: Date, target: AccountPath, source: AccountPath)
    -> Result<LedgerView, ErrorView> {
    match resolve_spec(ledger.accounts, target, date) {
        Some(t) => match resolve_spec(ledger.accounts, source, date) {
            Some(s) => {
                let book = book_on(ledger, date);
                Ok(
                    with_book(
                        ledger,
                        date,
                        DayBookView {
                            custom: book.custom,
                            pads: book.pads.push(PadView { target: t, source: s }),
                            balance_asserts: book.balance_asserts,
                            transactions: book.transactions,
                        },
                    ),
                )
            },
            None => Err(not_opened(source, date)),
        },
        None => Err(not_opened(target, date)),
    }
}

/// A `balance` statement: the account is resolved on `date`, then the
/// amount, and the assertion is recorded in the book of that day.
pub open spec fn balance_statement_spec(
    ledger: LedgerView,
    date: Date,
    account: AccountPath,
    amount: ParsedAmountView,
) -> Result<LedgerView, ErrorView> {
    match resolve_spec(ledger.accounts, account, date) {
        Some(r) => match amount_resolve_spec(ledger.units, amount) {
            Ok(a) => {
                let book = book_on(ledger, date);
                Ok(
                    with_book(
                        ledger,
                        date,
                        DayBookView {
                            custom: book.custom,
                            pads: book.pads,
                            balance_asserts: book.balance_asserts.push(
                                BalanceView { account: r, amount: a },
                            ),
                            transactions: book.transactions,
                        },
                    ),
                )
            },
            Err(e) => Err(e),
        },
        None => Err(not_opened(account, date)),
    }
}

/// A `price` statement: the priced unit is looked up, then the amount is
/// resolved, and the quote is appended to the ledger's prices.
pub open spec fn price_spec(ledger: LedgerView, date: Date, unit: Seq<char>, amount: ParsedAmountView)
    -> Result<LedgerView, ErrorView> {
    match crate::currency::lookup_spec(ledger.units, unit) {
        Some(index) => match amount_resolve_spec(ledger.units, amount) {
            Ok(a) => Ok(
                LedgerView {
                    accounts: ledger.accounts,
                    bookings: ledger.bookings,
                    options: ledger.options,
                    units: ledger.units,
                    prices: ledger.prices.push(PriceQuoteView { date, unit: index, amount: a }),
                },
            ),
            Err(e) => Err(e),
        },
        None => Err(ErrorView::UnitNotDeclared { unit }),
    }
}

/// The ledger after a statement, or the error that the statement fails
/// with; a failed statement leaves the ledger as it was.
pub open spec fn apply_spec(ledger: LedgerView, statement: StatementView) -> Result<
    LedgerView,
    ErrorView,
> {
    match statement {
        StatementView::Custom(date, args) => {
            let book = book_on(ledger, date);
            Ok(
                with_book(
                    ledger,
                    date,
                    DayBookView {
                        custom: book.custom.push(args),
                        pads: book.pads,
                        balance_asserts: book.balance_asserts,
                        transactions: book.transactions,
                    },
                ),
            )
        },
        StatementView::OpenAccount(date, account) => Ok(
            with_accounts(ledger, open_spec(ledger.accounts, account, date)),
        ),
        StatementView::CloseAccount(date, account) => match close_spec(
            ledger.accounts,
            account,
            date,
        ) {
            Some(accounts) => Ok(with_accounts(ledger, accounts)),
            None => Err(not_opened(account, date)),
        },
        StatementView::Pad(date, target, source) => pad_spec(ledger, date, target, source),
        StatementView::Balance(date, account, amount) => balance_statement_spec(
            ledger,
            date,
            account,
            amount,
        ),
        StatementView::Transaction(date, header, legs) => match create_spec(
            ledger_lookups(ledger),
            date,
            header,
            legs,
        ) {
            Ok(transaction) => {
                let book = book_on(ledger, date);
                Ok(
                    with_book(
                        ledger,
                        date,
                        DayBookView {
                            custom: book.custom,
                            pads: book.pads,
                            balance_asserts: book.balance_asserts,
                            transactions: book.transactions.push(transaction),
                        },
                    ),
                )
            },
            Err(e) => Err(e),
        },
        StatementView::Price(date, unit, amount) => price_spec(ledger, date, unit, amount),
    }
}

/// The ledger after a directive. An `include` cannot be followed here: it
/// is reported as an error that names the path.
pub open spec fn apply_directive_spec(ledger: LedgerView, directive: DirectiveView) -> Result<
    LedgerView,
    ErrorView,
> {
    match directive {
        DirectiveView::Include(path) => Err(ErrorView::Include { path }),
        DirectiveView::Setting(key, value) => Ok(
            LedgerView {
                accounts: ledger.accounts,
                bookings: ledger.bookings,
                options: ledger.options.insert(key, value),
                units: ledger.units,
                prices: ledger.prices,
            },
        ),
        DirectiveView::Unit(code) => Ok(
            LedgerView {
                accounts: ledger.accounts,
                bookings: ledger.bookings,
                options: ledger.options,
                units: intern_one(ledger.units, code),
                prices: ledger.prices,
            },
        ),
        DirectiveView::Statement(statement) => apply_spec(ledger, statement),
    }
}

/// The ledger after all the directives, applied in order; the first error
/// ends it.
pub open spec fn run_spec(ledger: LedgerView, directives: Seq<DirectiveView>) -> Result<
    LedgerView,
    ErrorView,
>
    decreases directives.len(),
{
    if directives.len() == 0 {
        Ok(ledger)
    } else {
        match apply_directive_spec(ledger, directives[0]) {
            Ok(next) => run_spec(next, directives.drop_first()),
            Err(e) => Err(e),
        }
    }
}

/// A ledger in which nothing is recorded.
pub open spec fn empty_ledger() -> LedgerView {
    LedgerView {
        accounts: StoreView { segments: Seq::empty(), activities: Map::empty() },
        bookings: Map::empty(),
        options: Map::empty(),
        units: Seq::empty(),
        prices: Seq::empty(),
    }
}

#[derive(Debug)]
struct DayEntry {
    date: Date,
    book: DayBook,
}

#[derive(Debug)]
struct Setting {
    key: String,
    value: String,
}

spec fn dates_of(entries: Seq<DayEntry>) -> Seq<Date> {
    Seq::new(entries.len(), |i: int| entries[i].date)
}

spec fn books_of(entries: Seq<DayEntry>) -> Seq<DayBookView> {
    Seq::new(entries.len(), |i: int| entries[i].book@)
}

spec fn keys_of(settings: Seq<Setting>) -> Seq<Seq<char>> {
    Seq::new(settings.len(), |i: int| settings[i].key@)
}

spec fn values_of(settings: Seq<Setting>) -> Seq<Seq<char>> {
    Seq::new(settings.len(), |i: int| settings[i].value@)
}

/// The days come one after the other, each later than the one before.
spec fn ascending(dates: Seq<Date>) -> bool {
    forall|i: int, j: int| 0 <= i < j < dates.len() ==> date_lt(dates[i], dates[j])
}

/// An accounting ledger.
#[derive(Debug)]
pub struct Ledger {
    accounts: AccountStore,
    bookings: Vec<DayEntry>,
    options: Vec<Setting>,
    units: CurrencyStore,
    prices: Vec<PriceQuote>,
}

impl View for Ledger {
    type V = LedgerView;

    closed spec fn view(&self) -> LedgerView {
        LedgerView {
            accounts: self.accounts@,
            bookings: pairs_map(dates_of(self.bookings@), books_of(self.bookings@)),
            options: pairs_map(keys_of(self.options@), values_of(self.options@)),
            units: self.units@,
            prices: Seq::new(self.prices@.len(), |i: int| self.prices@[i]@),
        }
    }
}

impl DayBook {
    /// A book in which nothing is recorded.
    pub fn new() -> (book: DayBook)
        ensures
            book@ == empty_book(),
    {
        let book = DayBook {
            custom: Vec::new(),
            pads: Vec::new(),
            balance_asserts: Vec::new(),
            transactions: Vec::new(),
        };
        assert(book@.custom =~= Seq::<Seq<Seq<char>>>::empty());
        assert(book@.pads =~= Seq::<PadView>::empty());
        assert(book@.balance_asserts =~= Seq::<BalanceView>::empty());
        assert(book@.transactions =~= Seq::<TransactionView>::empty());
        book
    }

    /// The arguments of the day's `custom` statements.
    pub fn custom(&self) -> (r: &Vec<Vec<String>>)
        ensures
            r@.len() == self@.custom.len(),
            forall|i: int| 0 <= i < r@.len() ==> strings_view(#[trigger] r@[i]@) == self@.custom[i],
    {
        &self.custom
    }

    /// The day's `pad` statements.
    pub fn pads(&self) -> (r: &Vec<PadTransaction>)
        ensures
            r@.len() == self@.pads.len(),
            forall|i: int| 0 <= i < r@.len() ==> (#[trigger] r@[i])@ == self@.pads[i],
    {
        &self.pads
    }

    /// The day's `balance` statements.
    pub fn balance_assertions(&self) -> (r: &Vec<BalanceAssertion>)
        ensures
            r@.len() == self@.balance_asserts.len(),
            forall|i: int| 0 <= i < r@.len() ==> (#[trigger] r@[i])@ == self@.balance_asserts[i],
    {
        &self.balance_asserts
    }

    /// The day's transactions.
    pub fn transactions(&self) -> (r: &Vec<Transaction>)
        ensures
            r@.len() == self@.transactions.len(),
            forall|i: int| 0 <= i < r@.len() ==> (#[trigger] r@[i])@ == self@.transactions[i],
    {
        &self.transactions
    }
}

impl Ledger {
    /// The ledger's invariant: both stores are well formed, the books stand
    /// in the order of their days, and no option is set twice.
    pub closed spec fn well_formed(&self) -> bool {
        &&& self.accounts.well_formed()
        &&& self.units.well_formed()
        &&& ascending(dates_of(self.bookings@))
        &&& no_repeats(keys_of(self.options@))
    }

    /// A ledger in which nothing is recorded.
    pub fn new() -> (ledger: Ledger)
        ensures
            ledger.well_formed(),
            ledger@ == empty_ledger(),
    {
        let ledger = Ledger {
            accounts: AccountStore::new(),
            bookings: Vec::new(),
            options: Vec::new(),
            units: CurrencyStore::new(),
            prices: Vec::new(),
        };
        proof {
            assert(ledger@.prices =~= Seq::<PriceQuoteView>::empty());
            assert(ledger@.accounts == (StoreView {
                segments: Seq::empty(),
                activities: Map::empty(),
            }));
        }
        ledger
    }

    /// The account store.
    pub fn accounts(&self) -> (r: &AccountStore)
        requires
            self.well_formed(),
        ensures
            r@ == self@.accounts,
            r.well_formed(),
    {
        &self.accounts
    }

    /// The declared units.
    pub fn units(&self) -> (r: &CurrencyStore)
        requires
            self.well_formed(),
        ensures
            r@ == self@.units,
            r.well_formed(),
    {
        &self.units
    }

    /// The declared prices, in the order of their statements.
    pub fn prices(&self) -> (r: &Vec<PriceQuote>)
        ensures
            r@.len() == self@.prices.len(),
            forall|i: int| 0 <= i < r@.len() ==> (#[trigger] r@[i])@ == self@.prices[i],
    {
        &self.prices
    }

    /// The position of the option `key`, if it is set.
    fn find_option(&self, key: &str) -> (r: Option<usize>)
        ensures
            match r {
                Some(i) => i < self.options@.len() && self.options@[i as int].key@ == key@,
                None => !keys_of(self.options@).contains(key@),
            },
    {
        let mut i: usize = 0;
        while i < self.options.len()
            invariant
                i <= self.options.len(),
                forall|j: int| 0 <= j < i ==> keys_of(self.options@)[j] != key@,
            decreases self.options.len() - i,
        {
            if *self.options[i].key.as_str() == *key {
                return Some(i);
            }
            i += 1;
        }
        None
    }

    /// Sets the option `key` to `val`, whatever it was.
    pub fn set_option(&mut self, key: &str, val: &str)
        requires
            old(self).well_formed(),
        ensures
            final(self).well_formed(),
            final(self)@ == (LedgerView {
                accounts: old(self)@.accounts,
                bookings: old(self)@.bookings,
                options: old(self)@.options.insert(key@, val@),
                units: old(self)@.units,
                prices: old(self)@.prices,
            }),
    {
        let ghost keys = keys_of(self.options@);
        let ghost values = values_of(self.options@);
        let setting = Setting { key: key.to_owned(), value: val.to_owned() };
        match self.find_option(key) {
            Some(i) => {
                self.options.set(i, setting);
                proof {
                    assert(keys_of(self.options@) =~= keys);
                    assert(values_of(self.options@) =~= values.update(i as int, val@));
                    lemma_pairs_update(keys, values, i as int, val@);
                }
            },
            None => {
                self.options.push(setting);
                proof {
                    assert(keys_of(self.options@) =~= keys.push(key@));
                    assert(values_of(self.options@) =~= values.push(val@));
                    assert(keys.push(key@).drop_last() =~= keys);
                    assert(values.push(val@).drop_last() =~= values);
                    assert forall|a: int, b: int| 0 <= a < b < keys.push(key@).len() implies keys.push(
                        key@,
                    )[a] != keys.push(key@)[b] by {
                        if b == keys.len() {
                            assert(keys.contains(keys[a]));
                        }
                    }
                }
            },
        }
    }

    /// The value of the option `key`, if it is set.
    pub fn get_option(&self, key: &str) -> (r: Option<&String>)
        requires
            self.well_formed(),
        ensures
            match r {
                Some(value) => self@.options.contains_key(key@) && value@ == self@.options[key@],
                None => !self@.options.contains_key(key@),
            },
    {
        proof {
            lemma_pairs_map(keys_of(self.options@), values_of(self.options@));
        }
        match self.find_option(key) {
            Some(i) => {
                assert(keys_of(self.options@)[i as int] == key@);
                assert(values_of(self.options@)[i as int] == self.options@[i as int].value@);
                Some(&self.options[i].value)
            },
            None => None,
        }
    }

    /// Where the book of `date` is, or where it would have to be put.
    fn find_book(&self, date: &Date) -> (r: Result<usize, usize>)
        requires
            self.well_formed(),
        ensures
            match r {
                Ok(i) => i < self.bookings@.len() && self.bookings@[i as int].date == *date,
                Err(i) => i <= self.bookings@.len() && !dates_of(self.bookings@).contains(*date)
                    && (forall|j: int| 0 <= j < i ==> date_lt(dates_of(self.bookings@)[j], *date))
                    && (forall|j: int|
                    i <= j < self.bookings@.len() ==> date_lt(*date, dates_of(self.bookings@)[j])),
            },
    {
        let ghost dates = dates_of(self.bookings@);
        let mut i: usize = 0;
        while i < self.bookings.len()
            invariant
                i <= self.bookings.len(),
                dates == dates_of(self.bookings@),
                ascending(dates),
                forall|j: int| 0 <= j < i ==> date_lt(dates[j], *date),
            decreases self.bookings.len() - i,
        {
            let entry_date = self.bookings[i].date;
            assert(entry_date == dates[i as int]);
            if entry_date == *date {
                return Ok(i);
            }
            if date.lt(&entry_date) {
                assert forall|j: int| i <= j < dates.len() implies date_lt(*date, dates[j]) by {
                    if j > i {
                        assert(date_lt(dates[i as int], dates[j]));
                    }
                }
                assert(!dates.contains(*date)) by {
                    if dates.contains(*date) {
                        let k = choose|k: int| 0 <= k < dates.len() && dates[k] == *date;
                        if k < i {
                            assert(date_lt(dates[k], *date));
                        } else {
                            assert(date_lt(*date, dates[k]));
                        }
                    }
                }
                return Err(i);
            }
            i += 1;
        }
        assert(!dates.contains(*date)) by {
            if dates.contains(*date) {
                let k = choose|k: int| 0 <= k < dates.len() && dates[k] == *date;
                assert(date_lt(dates[k], *date));
            }
        }
        Err(i)
    }

    /// The book of `date`, if anything was recorded on that day.
    pub fn get_bookings_on(&self, date: &Date) -> (r: Option<&DayBook>)
        requires
            self.well_formed(),
        ensures
            match r {
                Some(book) => self@.bookings.contains_key(*date) && book@ == self@.bookings[*date],
                None => !self@.bookings.contains_key(*date),
            },
    {
        proof {
            lemma_ascending_no_repeats(dates_of(self.bookings@));
            lemma_pairs_map(dates_of(self.bookings@), books_of(self.bookings@));
        }
        match self.find_book(date) {
            Ok(i) => {
                assert(dates_of(self.bookings@)[i as int] == *date);
                assert(books_of(self.bookings@)[i as int] == self.bookings@[i as int].book@);
                Some(&self.bookings[i].book)
            },
            Err(_) => None,
        }
    }

    /// The days on which something was recorded, earliest first.
    pub fn dates(&self) -> (r: Vec<Date>)
        requires
            self.well_formed(),
        ensures
            forall|d: Date| r@.contains(d) <==> self@.bookings.contains_key(d),
            forall|i: int, j: int| 0 <= i < j < r@.len() ==> date_lt(r@[i], r@[j]),
    {
        let ghost dates = dates_of(self.bookings@);
        let mut r: Vec<Date> = Vec::new();
        let mut i: usize = 0;
        while i < self.bookings.len()
            invariant
                i <= self.bookings.len(),
                dates == dates_of(self.bookings@),
                r@ == dates.take(i as int),
            decreases self.bookings.len() - i,
        {
            r.push(self.bookings[i].date);
            i += 1;
            assert(r@ =~= dates.take(i as int));
        }
        proof {
            assert(dates.take(dates.len() as int) =~= dates);
            lemma_ascending_no_repeats(dates);
            lemma_pairs_map(dates, books_of(self.bookings@));
        }
        r
    }

    /// Makes sure that `date` has a book, and says where it is.
    fn ensure_book(&mut self, date: Date) -> (idx: usize)
        requires
            old(self).well_formed(),
        ensures
            final(self).well_formed(),
            idx < final(self).bookings@.len(),
            final(self).bookings@[idx as int].date == date,
            final(self).bookings@[idx as int].book@ == book_on(old(self)@, date),
            final(self)@ == with_book(old(self)@, date, book_on(old(self)@, date)),
            final(self).accounts == old(self).accounts,
            final(self).units == old(self).units,
    {
        let ghost dates = dates_of(self.bookings@);
        let ghost books = books_of(self.bookings@);
        proof {
            lemma_ascending_no_repeats(dates);
            lemma_pairs_map(dates, books);
        }
        match self.find_book(&date) {
            Ok(i) => {
                proof {
                    assert(dates[i as int] == date);
                    assert(books[i as int] == self.bookings@[i as int].book@);
                    assert(self@.bookings =~= self@.bookings.insert(date, book_on(self@, date)));
                }
                i
            },
            Err(i) => {
                let entry = DayEntry { date, book: DayBook::new() };
                self.bookings.insert(i, entry);
                proof {
                    let dates2 = dates_of(self.bookings@);
                    let books2 = books_of(self.bookings@);
                    assert(dates2 =~= dates.insert(i as int, date));
                    assert(books2 =~= books.insert(i as int, empty_book()));
                    lemma_pairs_insert(dates, books, i as int, date, empty_book());
                    assert forall|a: int, b: int| 0 <= a < b < dates2.len() implies date_lt(
                        dates2[a],
                        dates2[b],
                    ) by {
                        let a0 = if a < i {
                            a
                        } else {
                            a - 1
                        };
                        let b0 = if b < i {
                            b
                        } else {
                            b - 1
                        };
                        if a == i {
                            assert(dates2[b] == dates[b0]);
                        } else if b == i {
                            assert(dates2[a] == dates[a0]);
                        } else {
                            assert(dates2[a] == dates[a0] && dates2[b] == dates[b0]);
                            assert(date_lt(dates[a0], dates[b0]));
                        }
                    }
                }
                i
            },
        }
    }
}

/// Days in ascending order are all different.
proof fn lemma_ascending_no_repeats(dates: Seq<Date>)
    requires
        ascending(dates),
    ensures
        no_repeats(dates),
{
    assert forall|i: int, j: int| 0 <= i < j < dates.len() implies dates[i] != dates[j] by {
        assert(date_lt(dates[i], dates[j]));
    }
}

impl ReferenceLookup for Ledger {
    open spec fn lookup_ready(&self) -> bool {
        self.well_formed()
    }

    open spec fn lookups(&self) -> LookupView {
        ledger_lookups(self@)
    }

    fn account_lookup(&self, date: &Date, account: &ParsedAccount<'_>) -> (r: Result<
        TxnAccount,
        Error,
    >) {
        self.accounts.txnify(date, account)
    }

    fn unit_lookup(&self, _date: &Date, unit: &str) -> (r: Result<usize, Error>) {
        match self.units.lookup(unit) {
            Some(idx) => Ok(idx),
            None => Err(fail(ErrorContext::UnitNotDeclared { unit: unit.to_owned() })),
        }
    }
}

fn to_strings(args: &Vec<&str>) -> (r: Vec<String>)
    ensures
        strings_view(r@) == strs_view(args@),
{
    let mut r: Vec<String> = Vec::new();
    let mut i: usize = 0;
    while i < args.len()
        invariant
            i <= args.len(),
            r@.len() == i,
            forall|k: int| 0 <= k < i ==> (#[trigger] r@[k])@ == args@[k]@,
        decreases args.len() - i,
    {
        r.push(args[i].to_owned());
        i += 1;
    }
    assert(strings_view(r@) =~= strs_view(args@));
    r
}

impl Ledger {
    /// Records the arguments of a `custom` statement in the book of `date`.
    fn custom(&mut self, date: Date, args: &Vec<&str>) -> (r: Result<(), Error>)
        requires
            old(self).well_formed(),
        ensures
            final(self).well_formed(),
            r is Ok,
            apply_spec(old(self)@, StatementView::Custom(date, strs_view(args@))) == Ok::<
                LedgerView,
                ErrorView,
            >(final(self)@),
    {
        let params = to_strings(args);
        let idx = self.ensure_book(date);
        let ghost dates = dates_of(self.bookings@);
        let ghost books = books_of(self.bookings@);
        let ghost book = self.bookings@[idx as int].book@;
        self.bookings[idx].book.custom.push(params);
        proof {
            let after = DayBookView {
                custom: book.custom.push(strs_view(args@)),
                pads: book.pads,
                balance_asserts: book.balance_asserts,
                transactions: book.transactions,
            };
            assert(self.bookings@[idx as int].book@.custom =~= after.custom);
            assert(self.bookings@[idx as int].book@.pads =~= after.pads);
            assert(self.bookings@[idx as int].book@.balance_asserts =~= after.balance_asserts);
            assert(self.bookings@[idx as int].book@.transactions =~= after.transactions);
            assert(dates_of(self.bookings@) =~= dates);
            assert(books_of(self.bookings@) =~= books.update(idx as int, after));
            lemma_ascending_no_repeats(dates);
            lemma_pairs_update(dates, books, idx as int, after);
            assert(final(self)@.bookings =~= old(self)@.bookings.insert(date, after));
        }
        Ok(())
    }

    /// Opens the account on `date`.
    fn open_account(&mut self, date: Date, account: &ParsedAccount<'_>) -> (r: Result<(), Error>)
        requires
            old(self).well_formed(),
        ensures
            final(self).well_formed(),
            r is Ok,
            apply_spec(old(self)@, StatementView::OpenAccount(date, account@)) == Ok::<
                LedgerView,
                ErrorView,
            >(final(self)@),
    {
        self.accounts.open(account, date)
    }

    /// Closes the account on `date`.
    fn close_account(&mut self, date: Date, account: &ParsedAccount<'_>) -> (r: Result<(), Error>)
        requires
            old(self).well_formed(),
        ensures
            final(self).well_formed(),
            applied(
                old(self)@,
                StatementView::CloseAccount(date, account@),
                r,
                final(self)@,
            ),
    {
        self.accounts.close(account, date)
    }

    /// Records a `pad` statement in the book of `date`.
    fn pad(&mut self, date: Date, target: &ParsedAccount<'_>, source: &ParsedAccount<'_>) -> (r:
        Result<(), Error>)
        requires
            old(self).well_formed(),
        ensures
            final(self).well_formed(),
            applied(old(self)@, StatementView::Pad(date, target@, source@), r, final(self)@),
    {
        let target = match self.accounts.txnify(&date, target) {
            Ok(t) => t,
            Err(e) => {
                return Err(e);
            },
        };
        let source = match self.accounts.txnify(&date, source) {
            Ok(s) => s,
            Err(e) => {
                return Err(e);
            },
        };
        let pad_trx = PadTransaction { target, source };
        let idx = self.ensure_book(date);
        let ghost dates = dates_of(self.bookings@);
        let ghost books = books_of(self.bookings@);
        let ghost book = self.bookings@[idx as int].book@;
        self.bookings[idx].book.pads.push(pad_trx);
        proof {
            let after = DayBookView {
                custom: book.custom,
                pads: book.pads.push(pad_trx@),
                balance_asserts: book.balance_asserts,
                transactions: book.transactions,
            };
            assert(self.bookings@[idx as int].book@.custom =~= after.custom);
            assert(self.bookings@[idx as int].book@.pads =~= after.pads);
            assert(self.bookings@[idx as int].book@.balance_asserts =~= after.balance_asserts);
            assert(self.bookings@[idx as int].book@.transactions =~= after.transactions);
            assert(dates_of(self.bookings@) =~= dates);
            assert(books_of(self.bookings@) =~= books.update(idx as int, after));
            lemma_ascending_no_repeats(dates);
            lemma_pairs_update(dates, books, idx as int, after);
            assert(final(self)@.bookings =~= old(self)@.bookings.insert(date, after));
        }
        Ok(())
    }

    /// The written amount with its units looked up among those declared.
    fn amount(&self, amount: &ParsedAmount<'_>) -> (r: Result<Amount, Error>)
        requires
            self.well_formed(),
        ensures
            match r {
                Ok(a) => amount_resolve_spec(self@.units, amount@) == Ok::<AmountView, ErrorView>(
                    a@,
                ),
                Err(e) => amount_resolve_spec(self@.units, amount@) is Err && reports(
                    e,
                    amount_resolve_spec(self@.units, amount@)->Err_0,
                ),
            },
    {
        self.units.amount_resolve(amount)
    }

    /// Records a `balance` statement in the book of `date`.
    fn balance(&mut self, date: Date, account: &ParsedAccount<'_>, amount: &ParsedAmount<'_>) -> (r:
        Result<(), Error>)
        requires
            old(self).well_formed(),
        ensures
            final(self).well_formed(),
            applied(old(self)@, StatementView::Balance(date, account@, amount@), r, final(self)@),
    {
        let account = match self.account_lookup(&date, account) {
            Ok(a) => a,
            Err(e) => {
                return Err(e);
            },
        };
        let amount = match self.amount(amount) {
            Ok(a) => a,
            Err(e) => {
                return Err(e);
            },
        };
        let balance_assert = BalanceAssertion { account, amount };
        let idx = self.ensure_book(date);
        let ghost dates = dates_of(self.bookings@);
        let ghost books = books_of(self.bookings@);
        let ghost book = self.bookings@[idx as int].book@;
        self.bookings[idx].book.balance_asserts.push(balance_assert);
        proof {
            let after = DayBookView {
                custom: book.custom,
                pads: book.pads,
                balance_asserts: book.balance_asserts.push(balance_assert@),
                transactions: book.transactions,
            };
            assert(self.bookings@[idx as int].book@.custom =~= after.custom);
            assert(self.bookings@[idx as int].book@.pads =~= after.pads);
            assert(self.bookings@[idx as int].book@.balance_asserts =~= after.balance_asserts);
            assert(self.bookings@[idx as int].book@.transactions =~= after.transactions);
            assert(dates_of(self.bookings@) =~= dates);
            assert(books_of(self.bookings@) =~= books.update(idx as int, after));
            lemma_ascending_no_repeats(dates);
            lemma_pairs_update(dates, books, idx as int, after);
            assert(final(self)@.bookings =~= old(self)@.bookings.insert(date, after));
        }
        Ok(())
    }

    /// Resolves and balances a transaction, and records it in the book of
    /// `date`.
    fn transaction(&mut self, date: Date, header: &TxnHeader<'_>, txn: &ParsedTransaction<'_>) -> (r:
        Result<(), Error>)
        requires
            old(self).well_formed(),
            txn.accounts@.len() == txn.exchanges@.len(),
        ensures
            final(self).well_formed(),
            applied(old(self)@, StatementView::Transaction(date, header@, txn@), r, final(self)@),
    {
        let transaction = match Transaction::create(&*self, date, header, txn) {
            Ok(t) => t,
            Err(e) => {
                return Err(e);
            },
        };
        let idx = self.ensure_book(date);
        let ghost dates = dates_of(self.bookings@);
        let ghost books = books_of(self.bookings@);
        let ghost book = self.bookings@[idx as int].book@;
        let ghost recorded = transaction@;
        self.bookings[idx].book.transactions.push(transaction);
        proof {
            let after = DayBookView {
                custom: book.custom,
                pads: book.pads,
                balance_asserts: book.balance_asserts,
                transactions: book.transactions.push(recorded),
            };
            assert(self.bookings@[idx as int].book@.custom =~= after.custom);
            assert(self.bookings@[idx as int].book@.pads =~= after.pads);
            assert(self.bookings@[idx as int].book@.balance_asserts =~= after.balance_asserts);
            assert(self.bookings@[idx as int].book@.transactions =~= after.transactions);
            assert(dates_of(self.bookings@) =~= dates);
            assert(books_of(self.bookings@) =~= books.update(idx as int, after));
            lemma_ascending_no_repeats(dates);
            lemma_pairs_update(dates, books, idx as int, after);
            assert(final(self)@.bookings =~= old(self)@.bookings.insert(date, after));
        }
        Ok(())
    }

    /// Records the price of a unit on `date`.
    fn price(&mut self, date: Date, unit: &str, amount: &ParsedAmount<'_>) -> (r: Result<(), Error>)
        requires
            old(self).well_formed(),
        ensures
            final(self).well_formed(),
            applied(old(self)@, StatementView::Price(date, unit@, amount@), r, final(self)@),
    {
        let unit_idx = match self.unit_lookup(&date, unit) {
            Ok(i) => i,
            Err(e) => {
                return Err(e);
            },
        };
        let amount = match self.amount(amount) {
            Ok(a) => a,
            Err(e) => {
                return Err(e);
            },
        };
        let quote = PriceQuote { date, unit: unit_idx, amount };
        let ghost before = self@.prices;
        self.prices.push(quote);
        assert(self@.prices =~= before.push(quote@));
        Ok(())
    }

    /// Applies a statement to the ledger. A statement that fails leaves the
    /// ledger as it was.
    pub fn apply_statement(&mut self, statement: &Statement<'_>) -> (r: Result<(), Error>)
        requires
            old(self).well_formed(),
            legs_match(statement@),
        ensures
            final(self).well_formed(),
            applied(old(self)@, statement@, r, final(self)@),
    {
        match statement {
            Statement::Custom(date, args) => self.custom(*date, args),
            Statement::OpenAccount(date, account) => self.open_account(*date, account),
            Statement::CloseAccount(date, account) => self.close_account(*date, account),
            Statement::Pad(date, target, source) => self.pad(*date, target, source),
            Statement::Balance(date, account, amount) => self.balance(*date, account, amount),
            Statement::Transaction(date, h, txn) => {
                assert(txn@.accounts.len() == txn.accounts@.len());
                assert(txn@.exchanges.len() == txn.exchanges@.len());
                self.transaction(*date, h, txn)
            },
            Statement::Price(date, commodity, amount) => self.price(*date, commodity, amount),
        }
    }

    /// Applies a statement to the ledger. A statement that fails leaves the
    /// ledger as it was.
    pub fn process_statement(&mut self, statement: Statement<'_>) -> (r: Result<(), Error>)
        requires
            old(self).well_formed(),
            legs_match(statement@),
        ensures
            final(self).well_formed(),
            applied(old(self)@, statement@, r, final(self)@),
    {
        self.apply_statement(&statement)
    }

    /// Declares the unit `code`, unless it is declared already.
    pub fn declare_unit(&mut self, code: &str)
        requires
            old(self).well_formed(),
        ensures
            final(self).well_formed(),
            apply_directive_spec(old(self)@, DirectiveView::Unit(code@)) == Ok::<
                LedgerView,
                ErrorView,
            >(final(self)@),
    {
        let _ = self.units.txnify(code);
    }

    /// Applies a directive to the ledger. An `include` is not followed: it
    /// fails with an error that names the path, for the caller to read the
    /// file and go on. A directive that fails leaves the ledger as it was.
    pub fn process_directive(&mut self, directive: &Directive<'_>) -> (r: Result<(), Error>)
        requires
            old(self).well_formed(),
            directive_ready(directive@),
        ensures
            final(self).well_formed(),
            match r {
                Ok(()) => apply_directive_spec(old(self)@, directive@) == Ok::<
                    LedgerView,
                    ErrorView,
                >(final(self)@),
                Err(e) => apply_directive_spec(old(self)@, directive@) is Err && reports(
                    e,
                    apply_directive_spec(old(self)@, directive@)->Err_0,
                ) && final(self)@ == old(self)@,
            },
    {
        match directive {
            Directive::Include(path) => Err(fail(ErrorContext::Include { path: (*path).to_owned() })),
            Directive::Setting(key, value) => {
                self.set_option(key, value);
                Ok(())
            },
            Directive::Unit(code) => {
                self.declare_unit(code);
                Ok(())
            },
            Directive::Statement(statement) => self.apply_statement(statement),
        }
    }
}

/// What the text of one `option` line does to a ledger.
pub open spec fn option_line_spec(ledger: LedgerView, text: Seq<char>) -> Result<
    LedgerView,
    ErrorView,
> {
    match single_spec(text) {
        Ok(DirectiveView::Setting(key, value)) => apply_directive_spec(
            ledger,
            DirectiveView::Setting(key, value),
        ),
        Ok(_) => Err(syntax(1)),
        Err(e) => Err(e),
    }
}

/// What the text of one `unit` line does to a ledger.
pub open spec fn unit_line_spec(ledger: LedgerView, text: Seq<char>) -> Result<
    LedgerView,
    ErrorView,
> {
    match single_spec(text) {
        Ok(DirectiveView::Unit(code)) => apply_directive_spec(ledger, DirectiveView::Unit(code)),
        Ok(_) => Err(syntax(1)),
        Err(e) => Err(e),
    }
}

impl Ledger {
    /// Reads one `option` line and sets the option. Any other text is an
    /// error, and leaves the ledger as it was.
    pub fn parse_option(&mut self, text: &str) -> (r: Result<(), Error>)
        requires
            old(self).well_formed(),
        ensures
            final(self).well_formed(),
            match r {
                Ok(()) => option_line_spec(old(self)@, text@) == Ok::<LedgerView, ErrorView>(
                    final(self)@,
                ),
                Err(e) => option_line_spec(old(self)@, text@) is Err && reports(
                    e,
                    option_line_spec(old(self)@, text@)->Err_0,
                ) && final(self)@ == old(self)@,
            },
    {
        match crate::parser::LedgerParser::single(text) {
            Ok(Directive::Setting(key, value)) => {
                self.set_option(key, value);
                Ok(())
            },
            Ok(_) => Err(fail(ErrorContext::Syntax { line: 1 })),
            Err(e) => Err(e),
        }
    }

    /// Reads one `unit` line and declares the unit. Any other text is an
    /// error, and leaves the ledger as it was.
    pub fn parse_unit(&mut self, text: &str) -> (r: Result<(), Error>)
        requires
            old(self).well_formed(),
        ensures
            final(self).well_formed(),
            match r {
                Ok(()) => unit_line_spec(old(self)@, text@) == Ok::<LedgerView, ErrorView>(
                    final(self)@,
                ),
                Err(e) => unit_line_spec(old(self)@, text@) is Err && reports(
                    e,
                    unit_line_spec(old(self)@, text@)->Err_0,
                ) && final(self)@ == old(self)@,
            },
    {
        match crate::parser::LedgerParser::single(text) {
            Ok(Directive::Unit(code)) => {
                self.declare_unit(code);
                Ok(())
            },
            Ok(_) => Err(fail(ErrorContext::Syntax { line: 1 })),
            Err(e) => Err(e),
        }
    }
}

/// What a statement does to a ledger: on success the ledger is what the
/// statement makes of it, and on failure it is unchanged and the error is
/// the one that the statement fails with.
pub open spec fn applied(
    before: LedgerView,
    statement: StatementView,
    r: Result<(), Error>,
    after: LedgerView,
) -> bool {
    match r {
        Ok(()) => apply_spec(before, statement) == Ok::<LedgerView, ErrorView>(after),
        Err(e) => apply_spec(before, statement) is Err && reports(
            e,
            apply_spec(before, statement)->Err_0,
        ) && after == before,
    }
}

} // verus!
