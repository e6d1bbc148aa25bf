use libroasted::account::{ParsedAccount, TxnAccount};
use libroasted::amount::{Amount, ParsedAmount, Price, TxnPrice};
use libroasted::date::Date;
use libroasted::decimal::Decimal;
use libroasted::error::ErrorContext;
use libroasted::ledger::Ledger;
use libroasted::statement::Statement;
use libroasted::transaction::{
    BalanceCheck, Exchange, Leg, ParsedTransaction, Transaction, TransactionState, TxnError,
    TxnHeader,
};

fn day(year: i32, month: u32, day: u32) -> Date {
    Date::from_ymd_opt(year, month, day).expect("invalid date")
}

fn usd(nominal: i64) -> Amount {
    Amount {
        nominal: Decimal::from_int(nominal),
        currency: 0,
        prices: vec![],
    }
}

fn header() -> TxnHeader<'static> {
    TxnHeader {
        state: TransactionState::Settled,
        payee: None,
        title: "t",
    }
}

fn leg(index: usize, amount: Option<Amount>) -> Leg {
    Leg {
        account: TxnAccount::Assets(vec![index]),
        amount,
    }
}

fn prepared() -> (Ledger, ParsedAccount<'static>, ParsedAccount<'static>, Date) {
    let mut ledger = Ledger::new();
    let date = day(2021, 5, 20);
    let asset = ParsedAccount::Assets(vec!["Bank", "SVB"]);
    let expense = ParsedAccount::Expenses(vec!["Monthly", "Splurge"]);
    ledger.parse_unit("unit USD").unwrap();
    ledger.parse_unit("unit IDR").unwrap();
    ledger
        .process_statement(Statement::OpenAccount(date, asset.clone()))
        .unwrap();
    ledger
        .process_statement(Statement::OpenAccount(date, expense.clone()))
        .unwrap();
    (ledger, asset, expense, date)
}

#[test]
fn elision_inference() {
    let (ledger, asset, expense, date) = prepared();
    let parsed = ParsedTransaction {
        accounts: vec![asset, expense],
        exchanges: vec![
            None,
            Some(ParsedAmount {
                nominal: Decimal::from_int(199),
                currency: "USD",
                price: None,
            }),
        ],
    };
    let transaction = Transaction::create(&ledger, date, &header(), &parsed).unwrap();
    assert_eq!(
        transaction.exchanges[0],
        Exchange {
            account: TxnAccount::Assets(vec![0, 1]),
            amount: usd(-199),
            elided: true,
        }
    );
    assert!(!transaction.exchanges[1].elided);
    assert_eq!(transaction.total_debited().unwrap(), usd(199));
    assert!(transaction.errors(BalanceCheck::WithSum).is_none());
    assert!(transaction.errors(BalanceCheck::WithoutSum).is_none());
    assert_eq!(transaction.sum().unwrap(), usd(0));
}

#[test]
fn elided_leg_keeps_its_place() {
    let legs = vec![
        leg(0, Some(usd(10))),
        leg(1, None),
        leg(2, Some(usd(5))),
    ];
    let transaction = Transaction::balance(&header(), &legs).unwrap();
    assert_eq!(transaction.exchanges.len(), 3);
    assert_eq!(transaction.exchanges[1].amount, usd(-15));
    assert!(transaction.exchanges[1].elided);
    assert_eq!(transaction.exchanges[1].account, TxnAccount::Assets(vec![1]));
    assert_eq!(transaction.exchanges[0].amount, usd(10));
    assert_eq!(transaction.exchanges[2].amount, usd(5));
    assert_eq!(transaction.total_debited().unwrap(), usd(15));
    assert!(transaction.sum().unwrap().is_zero());
}

#[test]
fn elision_cardinality() {
    let (ledger, asset, expense, date) = prepared();
    let parsed = ParsedTransaction {
        accounts: vec![asset.clone(), expense.clone(), asset.clone()],
        exchanges: vec![
            None,
            Some(ParsedAmount {
                nominal: Decimal::from_int(1),
                currency: "USD",
                price: None,
            }),
            None,
        ],
    };
    let err = Transaction::create(&ledger, date, &header(), &parsed).unwrap_err();
    assert!(matches!(err.1, ErrorContext::TooManyElided));
    assert_eq!(err.0, "only 1 account can has its amount elided");
    // the count comes first: an account that is not open does not hide it
    let parsed = ParsedTransaction {
        accounts: vec![ParsedAccount::Assets(vec!["Nowhere"]), expense.clone()],
        exchanges: vec![None, None],
    };
    let err = Transaction::create(&ledger, date, &header(), &parsed).unwrap_err();
    assert!(matches!(err.1, ErrorContext::TooManyElided));
    let err = Transaction::balance(&header(), &vec![leg(0, None), leg(1, None)]).unwrap_err();
    assert!(matches!(err.1, ErrorContext::TooManyElided));
    // one missing amount with an account that is not open: the account
    let parsed = ParsedTransaction {
        accounts: vec![ParsedAccount::Assets(vec!["Nowhere"]), expense],
        exchanges: vec![
            None,
            Some(ParsedAmount {
                nominal: Decimal::from_int(1),
                currency: "USD",
                price: None,
            }),
        ],
    };
    let err = Transaction::create(&ledger, date, &header(), &parsed).unwrap_err();
    assert_eq!(
        err.message(),
        "account `Assets:Nowhere' is not opened at 2021-05-20"
    );
}

#[test]
fn multi_currency_balance() {
    let (ledger, asset, expense, date) = prepared();
    // 30000 IDR at 0.00007 USD each is 2.1 USD
    let parsed = ParsedTransaction {
        accounts: vec![asset.clone(), expense.clone(), expense.clone()],
        exchanges: vec![
            Some(ParsedAmount {
                nominal: Decimal::new(-31, 1).unwrap(),
                currency: "USD",
                price: None,
            }),
            Some(ParsedAmount {
                nominal: Decimal::from_int(30000),
                currency: "IDR",
                price: Some(Price {
                    nominal: Decimal::new(7, 5).unwrap(),
                    currency: "USD",
                }),
            }),
            Some(ParsedAmount {
                nominal: Decimal::from_int(1),
                currency: "USD",
                price: None,
            }),
        ],
    };
    let transaction = Transaction::create(&ledger, date, &header(), &parsed).unwrap();
    let sum = transaction.sum().unwrap();
    assert!(sum.is_zero());
    assert_eq!(sum.currency, 0);
    assert!(transaction.errors(BalanceCheck::WithSum).is_none());
    assert_eq!(
        transaction.exchanges[1].amount,
        Amount {
            nominal: Decimal::from_int(30000),
            currency: 1,
            prices: vec![TxnPrice {
                nominal: Decimal::new(7, 5).unwrap(),
                currency: 0
            }],
        }
    );
    assert_eq!(
        transaction.total_debited().unwrap().nominal,
        Decimal::new(310000, 5).unwrap()
    );

    // without the price the sum cannot be made, and that is reported
    let parsed = ParsedTransaction {
        accounts: vec![asset.clone(), expense.clone(), expense.clone()],
        exchanges: vec![
            Some(ParsedAmount {
                nominal: Decimal::new(-31, 1).unwrap(),
                currency: "USD",
                price: None,
            }),
            Some(ParsedAmount {
                nominal: Decimal::from_int(30000),
                currency: "IDR",
                price: None,
            }),
            Some(ParsedAmount {
                nominal: Decimal::from_int(1),
                currency: "USD",
                price: None,
            }),
        ],
    };
    let transaction = Transaction::create(&ledger, date, &header(), &parsed).unwrap();
    match transaction.errors(BalanceCheck::WithSum) {
        Some(TxnError::Other(e)) => {
            assert!(matches!(e.1, ErrorContext::MissingPrice { from: 1, to: 0 }));
            assert_eq!(e.message(), "no price converts unit 1 to unit 0");
        }
        other => panic!("unexpected {:?}", other),
    }
    assert!(transaction.errors(BalanceCheck::WithoutSum).is_none());

    // a wrong price is a sum that is not zero
    let parsed = ParsedTransaction {
        accounts: vec![asset.clone(), expense.clone()],
        exchanges: vec![
            Some(ParsedAmount {
                nominal: Decimal::from_int(-2),
                currency: "USD",
                price: None,
            }),
            Some(ParsedAmount {
                nominal: Decimal::from_int(30000),
                currency: "IDR",
                price: Some(Price {
                    nominal: Decimal::new(7, 5).unwrap(),
                    currency: "USD",
                }),
            }),
        ],
    };
    let transaction = Transaction::create(&ledger, date, &header(), &parsed).unwrap();
    assert!(matches!(
        transaction.errors(BalanceCheck::WithSum),
        Some(TxnError::NotZeroSum)
    ));
    assert_eq!(transaction.sum().unwrap().nominal, Decimal::new(10000, 5).unwrap());

    // an elided leg balances a priced one in the anchor unit
    let parsed = ParsedTransaction {
        accounts: vec![expense, asset],
        exchanges: vec![
            Some(ParsedAmount {
                nominal: Decimal::from_int(2),
                currency: "USD",
                price: None,
            }),
            None,
        ],
    };
    let transaction = Transaction::create(&ledger, date, &header(), &parsed).unwrap();
    assert_eq!(transaction.exchanges[1].amount, usd(-2));
}

#[test]
fn missing_price_stops_the_inference() {
    let idr = Amount {
        nominal: Decimal::from_int(30000),
        currency: 1,
        prices: vec![],
    };
    let legs = vec![leg(0, Some(usd(2))), leg(1, Some(idr)), leg(2, None)];
    let err = Transaction::balance(&header(), &legs).unwrap_err();
    assert!(matches!(err.1, ErrorContext::MissingPrice { from: 1, to: 0 }));
}

#[test]
fn too_few_exchanges_are_unbalanced() {
    let single = Transaction {
        state: TransactionState::Virtual,
        payee: None,
        title: String::new(),
        exchanges: vec![Exchange {
            account: TxnAccount::Assets(vec![0]),
            amount: usd(0),
            elided: false,
        }],
    };
    assert!(matches!(
        single.errors(BalanceCheck::WithSum),
        Some(TxnError::Unbalanced)
    ));
    assert!(matches!(
        single.errors(BalanceCheck::WithoutSum),
        Some(TxnError::Unbalanced)
    ));
    let empty = Transaction::balance(&header(), &vec![]).unwrap();
    assert!(matches!(
        empty.errors(BalanceCheck::WithoutSum),
        Some(TxnError::Unbalanced)
    ));
    let err = empty.sum().unwrap_err();
    assert!(matches!(err.1, ErrorContext::NoAnchor));
    assert!(matches!(empty.total_debited().unwrap_err().1, ErrorContext::NoAnchor));
}

#[test]
fn elided_leg_needs_an_anchor() {
    let err = Transaction::balance(&header(), &vec![leg(0, None)]).unwrap_err();
    assert!(matches!(err.1, ErrorContext::NoAnchor));
    assert_eq!(err.message(), "no amount to balance the elided one against");
}

#[test]
fn explicit_legs_stand_as_written() {
    let legs = vec![leg(0, Some(usd(3))), leg(1, Some(usd(4)))];
    let transaction = Transaction::balance(&header(), &legs).unwrap();
    assert_eq!(transaction.exchanges[0].amount, usd(3));
    assert_eq!(transaction.exchanges[1].amount, usd(4));
    assert!(!transaction.exchanges[0].elided && !transaction.exchanges[1].elided);
    assert!(matches!(
        transaction.errors(BalanceCheck::WithSum),
        Some(TxnError::NotZeroSum)
    ));
    assert!(transaction.errors(BalanceCheck::WithoutSum).is_none());
    assert_eq!(transaction.sum().unwrap(), usd(7));
}

#[test]
fn amount_arithmetic() {
    let a = usd(5);
    let b = Amount {
        nominal: Decimal::new(25, 1).unwrap(),
        currency: 0,
        prices: vec![TxnPrice {
            nominal: Decimal::from_int(2),
            currency: 3,
        }],
    };
    assert_eq!(a.add(&b).unwrap(), Amount { nominal: Decimal::new(75, 1).unwrap(), currency: 0, prices: vec![] });
    assert_eq!(b.add(&a).unwrap().prices, b.prices);
    assert_eq!(a.sub(&b).unwrap().nominal, Decimal::new(25, 1).unwrap());
    assert_eq!(b.sub(&a).unwrap().nominal, Decimal::new(-25, 1).unwrap());
    let negated = b.negate();
    assert_eq!(negated.nominal, Decimal::new(-25, 1).unwrap());
    assert_eq!(negated.currency, 0);
    assert_eq!(negated.prices, b.prices);
    assert!(Amount::zero(7).is_zero());
    assert_eq!(Amount::zero(7).currency(), 7);
    assert!(!b.is_zero());
    assert_eq!(b.nominal(), Decimal::new(25, 1).unwrap());
    // another unit: the first price in the unit of the left side counts
    let c = Amount {
        nominal: Decimal::from_int(10),
        currency: 1,
        prices: vec![
            TxnPrice { nominal: Decimal::from_int(9), currency: 2 },
            TxnPrice { nominal: Decimal::new(15, 1).unwrap(), currency: 0 },
            TxnPrice { nominal: Decimal::from_int(4), currency: 0 },
        ],
    };
    assert_eq!(a.add(&c).unwrap().nominal, Decimal::new(200, 1).unwrap());
    assert_eq!(c.convert_to(0).unwrap(), Decimal::new(150, 1).unwrap());
    assert_eq!(c.convert_to(1).unwrap(), Decimal::from_int(10));
    let err = c.add(&a).unwrap_err();
    assert!(matches!(err.1, ErrorContext::MissingPrice { from: 0, to: 1 }));
    // out of range
    let big = Amount { nominal: Decimal::new(i128::MAX, 0).unwrap(), currency: 0, prices: vec![] };
    assert!(matches!(big.add(&a).unwrap_err().1, ErrorContext::Overflow));
    assert_eq!(big.add(&a).unwrap_err().message(), "amount out of range");
    assert_eq!(big.duplicate(), big);
}
