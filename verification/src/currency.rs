//! The currency store: unit codes interned in an `IndexSet`, each code at
//! the index it got when it was first declared.
//!
//! The store can be used in two ways. `txnify` and the functions built on
//! it declare a code on first use and always succeed. `lookup` and the
//! `resolve` functions declare nothing: a code that was never declared is
//! an error. The ledger uses the second way, so that a mistyped code is
//! found rather than silently made into a new unit.

use crate::amount::{
    Amount, AmountView, ParsedAmount, ParsedAmountView, Price, PriceView, QuoteView, TxnPrice,
};
use crate::error::{fail, reports, Error, ErrorContext, ErrorView};
use crate::store::{distinct, intern_one, known, lemma_push_new_index};
use crate::text::{first_index, lemma_first_index_bounds, lemma_first_index_is};
use indexmap::IndexSet;
use vstd::prelude::*;
use vstd::string::*;

verus! {

/// indexmap's `IndexSet`: a set that keeps its items in the order in which
/// they were inserted. Nothing inside it is visible here.
#[verifier::external_type_specification]
#[verifier::external_body]
#[verifier::reject_recursive_types(T)]
#[verifier::reject_recursive_types(S)]
pub struct ExIndexSet<T, S>(IndexSet<T, S>);

/// The codes that the set holds, in the order in which they were inserted.
pub uninterp spec fn set_items(set: IndexSet<String>) -> Seq<Seq<char>>;

/// `IndexSet::new`: a set that holds nothing.
#[verifier::external_body]
fn set_new() -> (set: IndexSet<String>)
    ensures
        set_items(set) == Seq::<Seq<char>>::empty(),
{
    IndexSet::new()
}

/// `IndexSet::get_index_of`: the index of an item equal to `code`, or `None`
/// where the set holds no such item.
#[verifier::external_body]
fn set_get_index_of(set: &IndexSet<String>, code: &str) -> (r: Option<usize>)
    ensures
        match r {
            Some(i) => i < set_items(*set).len() && set_items(*set)[i as int] == code@,
            None => forall|i: int| 0 <= i < set_items(*set).len() ==> set_items(*set)[i] != code@,
        },
{
    set.get_index_of(code)
}

/// `IndexSet::insert_full`: where the set holds an item equal to `code`, the
/// set stays as it is and the result is that item's index and `false`;
/// otherwise `code` is appended and the result is its index and `true`.
#[verifier::external_body]
fn set_insert_full(set: &mut IndexSet<String>, code: String) -> (r: (usize, bool))
    ensures
        r.0 < set_items(*final(set)).len(),
        set_items(*final(set))[r.0 as int] == code@,
        r.1 ==> set_items(*final(set)) == set_items(*old(set)).push(code@) && r.0 == set_items(
            *old(set),
        ).len() && forall|i: int|
            0 <= i < set_items(*old(set)).len() ==> set_items(*old(set))[i] != code@,
        !r.1 ==> set_items(*final(set)) == set_items(*old(set)),
{
    set.insert_full(code)
}

/// `IndexSet::get_index`: the item at `index`, or `None` where the set has
/// no more than `index` items.
#[verifier::external_body]
fn set_get_index(set: &IndexSet<String>, index: usize) -> (r: Option<&String>)
    ensures
        match r {
            Some(code) => index < set_items(*set).len() && code@ == set_items(*set)[index as int],
            None => index >= set_items(*set).len(),
        },
{
    set.get_index(index)
}

/// Unit codes, each at a stable index.
#[derive(Debug)]
pub struct CurrencyStore {
    codes: IndexSet<String>,
}

impl View for CurrencyStore {
    type V = Seq<Seq<char>>;

    closed spec fn view(&self) -> Seq<Seq<char>> {
        set_items(self.codes)
    }
}

/// The index of `code` among `codes`, if it is there.
pub open spec fn lookup_spec(codes: Seq<Seq<char>>, code: Seq<char>) -> Option<usize> {
    if known(codes, code) {
        Some(first_index(codes, code) as usize)
    } else {
        None
    }
}

/// The price with its unit looked up; the error names the unit where it is
/// not declared.
pub open spec fn price_resolve_spec(codes: Seq<Seq<char>>, price: PriceView) -> Result<
    QuoteView,
    ErrorView,
> {
    match lookup_spec(codes, price.currency) {
        Some(currency) => Ok(QuoteView { nominal: price.nominal, currency }),
        None => Err(ErrorView::UnitNotDeclared { unit: price.currency }),
    }
}

/// The amount with its unit, and the unit of its price, looked up; the error
/// names the first of them that is not declared.
pub open spec fn amount_resolve_spec(codes: Seq<Seq<char>>, amount: ParsedAmountView) -> Result<
    AmountView,
    ErrorView,
> {
    match lookup_spec(codes, amount.currency) {
        Some(currency) => match amount.price {
            Some(price) => match price_resolve_spec(codes, price) {
                Ok(quote) => Ok(
                    AmountView { nominal: amount.nominal, currency, prices: seq![quote] },
                ),
                Err(e) => Err(e),
            },
            None => Ok(AmountView { nominal: amount.nominal, currency, prices: Seq::empty() }),
        },
        None => Err(ErrorView::UnitNotDeclared { unit: amount.currency }),
    }
}

/// The codes once those of `amount` and of its price are interned.
pub open spec fn amount_intern_spec(codes: Seq<Seq<char>>, amount: ParsedAmountView) -> Seq<
    Seq<char>,
> {
    let first = intern_one(codes, amount.currency);
    match amount.price {
        Some(price) => intern_one(first, price.currency),
        None => first,
    }
}

impl CurrencyStore {
    /// The store's invariant: no code is held twice.
    pub open spec fn well_formed(&self) -> bool {
        distinct(self@)
    }

    /// A store without codes.
    pub fn new() -> (store: CurrencyStore)
        ensures
            store.well_formed(),
            store@ == Seq::<Seq<char>>::empty(),
    {
        CurrencyStore { codes: set_new() }
    }

    /// The index of `currency`, if it was declared.
    pub fn lookup(&self, currency: &str) -> (r: Option<usize>)
        requires
            self.well_formed(),
        ensures
            r == lookup_spec(self@, currency@),
    {
        let r = set_get_index_of(&self.codes, currency);
        proof {
            lemma_first_index_bounds(self@, currency@);
            match r {
                Some(i) => {
                    let j = first_index(self@, currency@);
                    assert(j <= i) by {
                        if j > i {
                            assert(self@[i as int] != currency@);
                        }
                    }
                    assert(j == i);
                },
                None => {},
            }
        }
        r
    }

    /// The index of `currency`, which is declared now if it was not before.
    pub fn txnify(&mut self, currency: &str) -> (r: usize)
        requires
            old(self).well_formed(),
        ensures
            final(self).well_formed(),
            final(self)@ == intern_one(old(self)@, currency@),
            lookup_spec(final(self)@, currency@) == Some(r),
    {
        let ghost before = self@;
        let (index, fresh) = set_insert_full(&mut self.codes, currency.to_owned());
        proof {
            lemma_first_index_bounds(before, currency@);
            if fresh {
                lemma_first_index_is(before, currency@, before.len() as int);
                lemma_push_new_index(before, currency@);
            } else {
                let j = first_index(before, currency@);
                if j > index {
                    assert(before[index as int] != currency@);
                }
                if j < index {
                    assert(before[j] != before[index as int]);
                }
            }
        }
        index
    }

    /// The code at `idx`, if there is one.
    pub fn currencyify(&self, idx: usize) -> (r: Option<String>)
        ensures
            match r {
                Some(code) => idx < self@.len() && code@ == self@[idx as int],
                None => idx >= self@.len(),
            },
    {
        match set_get_index(&self.codes, idx) {
            Some(code) => Some(code.clone()),
            None => None,
        }
    }

    /// The price with its unit resolved, declaring the unit if need be.
    pub fn price_txnify(&mut self, price: &Option<Price<'_>>) -> (r: Option<TxnPrice>)
        requires
            old(self).well_formed(),
        ensures
            final(self).well_formed(),
            match *price {
                Some(p) => {
                    &&& final(self)@ == intern_one(old(self)@, p.currency@)
                    &&& r matches Some(q)
                    &&& price_resolve_spec(final(self)@, p@) == Ok::<QuoteView, ErrorView>(q@)
                },
                None => final(self)@ == old(self)@ && r is None,
            },
    {
        match price {
            Some(p) => {
                let currency = self.txnify(p.currency);
                Some(TxnPrice { nominal: p.nominal, currency })
            },
            None => None,
        }
    }

    /// The amount with its units resolved, declaring them if need be.
    pub fn amount_txnify(&mut self, amount: &ParsedAmount<'_>) -> (r: Amount)
        requires
            old(self).well_formed(),
        ensures
            final(self).well_formed(),
            final(self)@ == amount_intern_spec(old(self)@, amount@),
            amount_resolve_spec(final(self)@, amount@) == Ok::<AmountView, ErrorView>(r@),
    {
        let ghost before = self@;
        let currency = self.txnify(amount.currency);
        let ghost middle = self@;
        let quote = self.price_txnify(&amount.price);
        let mut prices: Vec<TxnPrice> = Vec::new();
        match quote {
            Some(q) => {
                prices.push(q);
                proof {
                    let p = amount.price->0;
                    if !known(middle, p.currency@) {
                        crate::store::lemma_push_keeps_index(middle, p.currency@, amount.currency@);
                    }
                    assert(crate::amount::quotes_view(prices@) =~= seq![q@]);
                }
            },
            None => {
                assert(crate::amount::quotes_view(prices@) =~= Seq::<QuoteView>::empty());
            },
        }
        Amount { nominal: amount.nominal, currency, prices }
    }

    /// The price with its unit looked up; an error if it was not declared.
    pub fn price_resolve(&self, price: &Price<'_>) -> (r: Result<TxnPrice, Error>)
        requires
            self.well_formed(),
        ensures
            match r {
                Ok(q) => price_resolve_spec(self@, price@) == Ok::<QuoteView, ErrorView>(q@),
                Err(e) => price_resolve_spec(self@, price@) is Err && reports(
                    e,
                    price_resolve_spec(self@, price@)->Err_0,
                ),
            },
    {
        match self.lookup(price.currency) {
            Some(currency) => Ok(TxnPrice { nominal: price.nominal, currency }),
            None => Err(fail(ErrorContext::UnitNotDeclared { unit: price.currency.to_owned() })),
        }
    }

    /// The amount with its units looked up; an error if one of them was not
    /// declared.
    pub fn amount_resolve(&self, amount: &ParsedAmount<'_>) -> (r: Result<Amount, Error>)
        requires
            self.well_formed(),
        ensures
            match r {
                Ok(a) => amount_resolve_spec(self@, amount@) == Ok::<AmountView, ErrorView>(a@),
                Err(e) => amount_resolve_spec(self@, amount@) is Err && reports(
                    e,
                    amount_resolve_spec(self@, amount@)->Err_0,
                ),
            },
    {
        let currency = match self.lookup(amount.currency) {
            Some(c) => c,
            None => {
                return Err(
                    fail(ErrorContext::UnitNotDeclared { unit: amount.currency.to_owned() }),
                );
            },
        };
        let mut prices: Vec<TxnPrice> = Vec::new();
        match &amount.price {
            Some(p) => {
                let q = match self.price_resolve(p) {
                    Ok(q) => q,
                    Err(e) => {
                        return Err(e);
                    },
                };
                prices.push(q);
                assert(crate::amount::quotes_view(prices@) =~= seq![q@]);
            },
            None => {
                assert(crate::amount::quotes_view(prices@) =~= Seq::<QuoteView>::empty());
            },
        }
        Ok(Amount { nominal: amount.nominal, currency, prices })
    }
}

} // verus!
