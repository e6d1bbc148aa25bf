//! Amounts: an exact number of a unit, with the prices at which it was
//! quoted in other units.
//!
//! Numbers are exact decimals, so sums are exact and a balanced transaction
//! adds up to precisely zero. Adding an amount of another unit needs a
//! price in the unit of the sum on that amount; without one the sum is an
//! error, never a guess.

use crate::decimal::{add_spec, mul_spec, neg_spec, Decimal, DecimalView};
use crate::error::{fail, reports, Error, ErrorContext, ErrorView};
use vstd::prelude::*;

verus! {

/// A price as it is written: so many of a unit, for one of what is priced.
#[derive(Clone, Copy, Debug, PartialEq)]
pub struct Price<'s> {
    pub nominal: Decimal,
    pub currency: &'s str,
}

/// An amount as it is written, with the price noted behind it, if any.
#[derive(Clone, Copy, Debug, PartialEq)]
pub struct ParsedAmount<'s> {
    pub nominal: Decimal,
    pub currency: &'s str,
    pub price: Option<Price<'s>>,
}

/// A price whose unit is resolved: one of the priced unit is worth `nominal`
/// of the unit with index `currency`.
#[derive(Clone, Copy, Debug, PartialEq)]
pub struct TxnPrice {
    pub nominal: Decimal,
    pub currency: usize,
}

/// An amount whose units are resolved to their indices.
#[derive(Clone, Debug, PartialEq)]
pub struct Amount {
    pub nominal: Decimal,
    pub currency: usize,
    pub prices: Vec<TxnPrice>,
}

/// The mathematical form of a [`Price`].
pub struct PriceView {
    pub nominal: DecimalView,
    pub currency: Seq<char>,
}

/// The mathematical form of a [`ParsedAmount`].
pub struct ParsedAmountView {
    pub nominal: DecimalView,
    pub currency: Seq<char>,
    pub price: Option<PriceView>,
}

/// The mathematical form of a [`TxnPrice`].
pub struct QuoteView {
    pub nominal: DecimalView,
    pub currency: usize,
}

/// The mathematical form of an [`Amount`].
pub struct AmountView {
    pub nominal: DecimalView,
    pub currency: usize,
    pub prices: Seq<QuoteView>,
}

impl<'s> View for Price<'s> {
    type V = PriceView;

    open spec fn view(&self) -> PriceView {
        PriceView { nominal: self.nominal@, currency: self.currency@ }
    }
}

impl<'s> View for ParsedAmount<'s> {
    type V = ParsedAmountView;

    open spec fn view(&self) -> ParsedAmountView {
        ParsedAmountView {
            nominal: self.nominal@,
            currency: self.currency@,
            price: match self.price {
                Some(p) => Some(p@),
                None => None,
            },
        }
    }
}

impl View for TxnPrice {
    type V = QuoteView;

    open spec fn view(&self) -> QuoteView {
        QuoteView { nominal: self.nominal@, currency: self.currency }
    }
}

/// The views of a sequence of resolved prices.
pub open spec fn quotes_view(prices: Seq<TxnPrice>) -> Seq<QuoteView> {
    Seq::new(prices.len(), |i: int| prices[i]@)
}

impl View for Amount {
    type V = AmountView;

    open spec fn view(&self) -> AmountView {
        AmountView {
            nominal: self.nominal@,
            currency: self.currency,
            prices: quotes_view(self.prices@),
        }
    }
}

/// Zero of the unit `currency`, with no prices.
pub open spec fn zero_spec(currency: usize) -> AmountView {
    AmountView {
        nominal: DecimalView { mantissa: 0, scale: 0 },
        currency,
        prices: Seq::empty(),
    }
}

/// The first of `prices` that is in the unit `currency`.
pub open spec fn quote_for(prices: Seq<QuoteView>, currency: usize) -> Option<DecimalView>
    decreases prices.len(),
{
    if prices.len() == 0 {
        None
    } else if prices[0].currency == currency {
        Some(prices[0].nominal)
    } else {
        quote_for(prices.drop_first(), currency)
    }
}

/// What `b` is worth in the unit `currency`: its own number if that is its
/// unit, else its number times the first of its prices in that unit.
/// Without such a price there is no answer, and the error says so.
pub open spec fn converted(b: AmountView, currency: usize) -> Result<DecimalView, ErrorView> {
    if b.currency == currency {
        Ok(b.nominal)
    } else {
        match quote_for(b.prices, currency) {
            Some(rate) => match mul_spec(b.nominal, rate) {
                Some(v) => Ok(v),
                None => Err(ErrorView::Overflow),
            },
            None => Err(ErrorView::MissingPrice { from: b.currency as nat, to: currency as nat }),
        }
    }
}

/// `a` plus what `b` is worth in the unit of `a`. The sum has the unit and
/// the prices of `a`.
pub open spec fn sum_spec(a: AmountView, b: AmountView) -> Result<AmountView, ErrorView> {
    match converted(b, a.currency) {
        Ok(v) => match add_spec(a.nominal, v) {
            Some(n) => Ok(AmountView { nominal: n, currency: a.currency, prices: a.prices }),
            None => Err(ErrorView::Overflow),
        },
        Err(e) => Err(e),
    }
}

/// `a` with the sign of its number flipped.
pub open spec fn negate_spec(a: AmountView) -> AmountView {
    AmountView { nominal: neg_spec(a.nominal), currency: a.currency, prices: a.prices }
}

/// `a` minus what `b` is worth in the unit of `a`.
pub open spec fn difference_spec(a: AmountView, b: AmountView) -> Result<AmountView, ErrorView> {
    sum_spec(a, negate_spec(b))
}

fn copy_prices(prices: &Vec<TxnPrice>) -> (r: Vec<TxnPrice>)
    ensures
        r@ == prices@,
{
    let mut r: Vec<TxnPrice> = Vec::new();
    let mut i: usize = 0;
    while i < prices.len()
        invariant
            i <= prices.len(),
            r@ == prices@.take(i as int),
        decreases prices.len() - i,
    {
        r.push(prices[i]);
        i += 1;
        assert(r@ =~= prices@.take(i as int));
    }
    assert(prices@.take(prices.len() as int) =~= prices@);
    r
}

impl Amount {
    /// Zero of the unit `currency`.
    pub fn zero(currency: usize) -> (r: Amount)
        ensures
            r@ == zero_spec(currency),
    {
        let r = Amount { nominal: Decimal::zero(), currency, prices: Vec::new() };
        assert(quotes_view(r.prices@) =~= Seq::<QuoteView>::empty());
        r
    }

    /// Whether the number is exactly zero.
    pub fn is_zero(&self) -> (r: bool)
        ensures
            r == (self@.nominal.mantissa == 0),
    {
        self.nominal.is_zero()
    }

    /// The number.
    pub fn nominal(&self) -> (r: Decimal)
        ensures
            r@ == self@.nominal,
    {
        self.nominal
    }

    /// The index of the unit.
    pub fn currency(&self) -> (r: usize)
        ensures
            r == self@.currency,
    {
        self.currency
    }

    /// A copy of the amount.
    pub fn duplicate(&self) -> (r: Amount)
        ensures
            r@ == self@,
    {
        Amount {
            nominal: self.nominal,
            currency: self.currency,
            prices: copy_prices(&self.prices),
        }
    }

    /// The first price in the unit `currency`.
    fn quote_in(&self, currency: usize) -> (r: Option<Decimal>)
        ensures
            match r {
                Some(rate) => quote_for(self@.prices, currency) == Some(rate@),
                None => quote_for(self@.prices, currency) is None,
            },
    {
        let ghost all = quotes_view(self.prices@);
        let mut i: usize = 0;
        assert(all.skip(0) =~= all);
        while i < self.prices.len()
            invariant
                i <= self.prices.len(),
                all == quotes_view(self.prices@),
                quote_for(all, currency) == quote_for(all.skip(i as int), currency),
            decreases self.prices.len() - i,
        {
            proof {
                assert(all.skip(i as int)[0] == self.prices@[i as int]@);
                assert(all.skip(i as int).drop_first() =~= all.skip(i + 1));
            }
            if self.prices[i].currency == currency {
                return Some(self.prices[i].nominal);
            }
            i += 1;
        }
        None
    }

    /// What the amount is worth in the unit `currency`.
    pub fn convert_to(&self, currency: usize) -> (r: Result<Decimal, Error>)
        ensures
            match r {
                Ok(v) => converted(self@, currency) == Ok::<DecimalView, ErrorView>(v@),
                Err(e) => converted(self@, currency) is Err && reports(
                    e,
                    converted(self@, currency)->Err_0,
                ),
            },
    {
        if self.currency == currency {
            return Ok(self.nominal);
        }
        match self.quote_in(currency) {
            Some(rate) => match self.nominal.checked_mul(&rate) {
                Some(v) => Ok(v),
                None => Err(fail(ErrorContext::Overflow)),
            },
            None => Err(fail(ErrorContext::MissingPrice { from: self.currency, to: currency })),
        }
    }

    /// `self` plus what `other` is worth in the unit of `self`.
    pub fn add(&self, other: &Amount) -> (r: Result<Amount, Error>)
        ensures
            match r {
                Ok(s) => sum_spec(self@, other@) == Ok::<AmountView, ErrorView>(s@),
                Err(e) => sum_spec(self@, other@) is Err && reports(
                    e,
                    sum_spec(self@, other@)->Err_0,
                ),
            },
    {
        let v = match other.convert_to(self.currency) {
            Ok(v) => v,
            Err(e) => {
                return Err(e);
            },
        };
        match self.nominal.checked_add(&v) {
            Some(n) => Ok(
                Amount { nominal: n, currency: self.currency, prices: copy_prices(&self.prices) },
            ),
            None => Err(fail(ErrorContext::Overflow)),
        }
    }

    /// The amount with the sign of its number flipped; unit and prices stay.
    pub fn negate(&self) -> (r: Amount)
        ensures
            r@ == negate_spec(self@),
    {
        Amount {
            nominal: self.nominal.negate(),
            currency: self.currency,
            prices: copy_prices(&self.prices),
        }
    }

    /// `self` minus what `other` is worth in the unit of `self`.
    pub fn sub(&self, other: &Amount) -> (r: Result<Amount, Error>)
        ensures
            match r {
                Ok(s) => difference_spec(self@, other@) == Ok::<AmountView, ErrorView>(s@),
                Err(e) => difference_spec(self@, other@) is Err && reports(
                    e,
                    difference_spec(self@, other@)->Err_0,
                ),
            },
    {
        let negated = other.negate();
        self.add(&negated)
    }
}

} // verus!
