use libroasted::currency::CurrencyStore;
use libroasted::amount::{Amount, ParsedAmount, Price, TxnPrice};
use libroasted::date::Date;
use libroasted::decimal::Decimal;
use libroasted::error::{fail, ErrorContext, LedgerError};

#[test]
fn decimal_parse() {
    assert_eq!(Decimal::parse("199"), Some(Decimal::from_int(199)));
    assert_eq!(Decimal::parse("-606"), Decimal::new(-606, 0));
    assert_eq!(Decimal::parse("65750.55"), Decimal::new(6575055, 2));
    assert_eq!(Decimal::parse("0.00007"), Decimal::new(7, 5));
    assert_eq!(Decimal::parse("007.50"), Decimal::new(750, 2));
    assert_eq!(Decimal::parse("-0"), Decimal::new(0, 0));
    for text in ["", "-", ".", "5.", ".5", "-.5", "1.2.3", "+5", "1e5", "--5", "5-", "1 2", "٣"] {
        assert_eq!(Decimal::parse(text), None, "{:?}", text);
    }
    assert_eq!(
        Decimal::parse("170141183460469231731687303715884105727"),
        Decimal::new(i128::MAX, 0)
    );
    assert_eq!(
        Decimal::parse("-1701411834604692317316873037158841057.27"),
        Decimal::new(-i128::MAX, 2)
    );
    assert_eq!(Decimal::parse("170141183460469231731687303715884105728"), None);
    assert_eq!(Decimal::parse("9999999999999999999999999999999999999999"), None);
}

#[test]
fn decimal_arithmetic() {
    let a = Decimal::new(125, 2).unwrap();
    let b = Decimal::from_int(3);
    let sum = a.checked_add(&b).unwrap();
    assert_eq!(sum, Decimal::new(425, 2).unwrap());
    assert_eq!(sum.mantissa(), 425);
    assert_eq!(sum.scale(), 2);
    assert_eq!(b.checked_add(&a).unwrap(), sum);
    assert_eq!(a.checked_mul(&a).unwrap(), Decimal::new(15625, 4).unwrap());
    assert_eq!(a.negate(), Decimal::new(-125, 2).unwrap());
    assert_eq!(a.negate().negate(), a);
    assert!(a.checked_add(&a.negate()).unwrap().is_zero());
    assert!(a.is_positive() && !a.negate().is_positive() && !Decimal::zero().is_positive());
    assert!(a.same(&Decimal::new(125, 2).unwrap()));
    assert!(!a.same(&Decimal::new(1250, 3).unwrap()));
    assert_eq!(Decimal::new(i128::MIN, 0), None);
    let max = Decimal::new(i128::MAX, 0).unwrap();
    assert_eq!(max.checked_add(&Decimal::from_int(1)), None);
    assert_eq!(max.checked_mul(&Decimal::from_int(2)), None);
    assert_eq!(max.checked_add(&Decimal::new(0, 1).unwrap()), None);
    assert_eq!(Decimal::from_int(1).checked_add(&Decimal::new(1, 39).unwrap()), None);
    assert_eq!(
        Decimal::from_int(1).checked_add(&Decimal::new(1, 38).unwrap()),
        Decimal::new(100000000000000000000000000000000000001, 38)
    );
    assert_eq!(
        Decimal::new(1, u32::MAX).unwrap().checked_mul(&Decimal::new(1, 1).unwrap()),
        None
    );
    assert_eq!(max.negate().negate(), max);
}

#[test]
fn dates_come_from_chrono() {
    assert_eq!(
        Date::parse("2021-10-25"),
        Some(Date { year: 2021, month: 10, day: 25 })
    );
    assert_eq!(Date::parse("2020-02-29"), Date::from_ymd_opt(2020, 2, 29));
    assert_eq!(Date::parse("2021-02-29"), None);
    assert_eq!(Date::parse("2021-13-01"), None);
    assert_eq!(Date::parse("2021-10-25 "), None);
    assert_eq!(Date::parse("yesterday"), None);
    assert_eq!(Date::parse(""), None);
}

#[test]
fn calendar_days() {
    assert!(Date::from_ymd_opt(2021, 10, 25).is_some());
    assert!(Date::from_ymd_opt(2015, 0, 14).is_none());
    assert!(Date::from_ymd_opt(2015, 2, 29).is_none());
    assert!(Date::from_ymd_opt(2016, 2, 29).is_some());
    assert!(Date::from_ymd_opt(1900, 2, 29).is_none());
    assert!(Date::from_ymd_opt(2000, 2, 29).is_some());
    assert!(Date::from_ymd_opt(-4, 2, 29).is_some());
    assert!(Date::from_ymd_opt(2023, 4, 31).is_none());
    assert!(Date::from_ymd_opt(2023, 4, 30).is_some());
    assert!(Date::from_ymd_opt(2023, 12, 31).is_some());
    assert!(Date::from_ymd_opt(2023, 12, 32).is_none());
    assert!(Date::from_ymd_opt(2023, 13, 1).is_none());
    assert!(Date::from_ymd_opt(2023, 1, 0).is_none());
}

#[test]
fn date_order_and_display() {
    let a = Date::from_ymd_opt(2021, 10, 25).unwrap();
    let b = Date::from_ymd_opt(2021, 11, 5).unwrap();
    let c = Date::from_ymd_opt(2022, 1, 1).unwrap();
    assert!(a.lt(&b) && b.lt(&c) && a.lt(&c));
    assert!(!b.lt(&a) && !a.lt(&a));
    assert!(a.le(&a) && a.le(&b) && !b.le(&a));
    assert!(a < b && b < c);
    assert_eq!(a.display(), "2021-10-25");
    assert_eq!(Date::from_ymd_opt(2021, 1, 5).unwrap().display(), "2021-01-05");
    assert_eq!(Date::from_ymd_opt(987, 3, 9).unwrap().display(), "0987-03-09");
    assert_eq!(Date::from_ymd_opt(0, 1, 1).unwrap().display(), "0000-01-01");
    assert_eq!(Date::from_ymd_opt(12345, 1, 1).unwrap().display(), "+12345-01-01");
    assert_eq!(Date::from_ymd_opt(-5, 12, 31).unwrap().display(), "-0005-12-31");
}

#[test]
fn currency_store() {
    let mut store = CurrencyStore::new();
    assert_eq!(store.lookup("USD"), None);
    assert_eq!(store.currencyify(0), None);
    assert_eq!(store.txnify("USD"), 0);
    assert_eq!(store.txnify("IDR"), 1);
    assert_eq!(store.txnify("USD"), 0);
    assert_eq!(store.txnify("usd"), 2);
    assert_eq!(store.lookup("IDR"), Some(1));
    assert_eq!(store.lookup("EUR"), None);
    assert_eq!(store.currencyify(1), Some("IDR".to_string()));
    assert_eq!(store.currencyify(2), Some("usd".to_string()));
    assert_eq!(store.currencyify(3), None);
}

#[test]
fn currency_store_resolves_amounts() {
    let mut store = CurrencyStore::new();
    let priced = ParsedAmount {
        nominal: Decimal::from_int(1337),
        currency: "USD",
        price: Some(Price {
            nominal: Decimal::from_int(1000),
            currency: "IDR",
        }),
    };
    let err = store.amount_resolve(&priced).unwrap_err();
    assert_eq!(err.message(), "unit `USD' is not declared");
    assert_eq!(store.txnify("USD"), 0);
    let err = store.amount_resolve(&priced).unwrap_err();
    assert_eq!(err.message(), "unit `IDR' is not declared");
    assert!(store.price_resolve(&priced.price.unwrap()).is_err());
    assert_eq!(store.lookup("IDR"), None);
    let resolved = store.amount_txnify(&priced);
    assert_eq!(
        resolved,
        Amount {
            nominal: Decimal::from_int(1337),
            currency: 0,
            prices: vec![TxnPrice {
                nominal: Decimal::from_int(1000),
                currency: 1
            }],
        }
    );
    assert_eq!(store.amount_resolve(&priced).unwrap(), resolved);
    assert_eq!(
        store.price_resolve(&priced.price.unwrap()).unwrap(),
        TxnPrice { nominal: Decimal::from_int(1000), currency: 1 }
    );
    assert_eq!(store.price_txnify(&None), None);
    assert_eq!(
        store.price_txnify(&Some(Price { nominal: Decimal::zero(), currency: "EUR" })),
        Some(TxnPrice { nominal: Decimal::zero(), currency: 2 })
    );
    let plain = ParsedAmount { nominal: Decimal::from_int(5), currency: "JPY", price: None };
    assert_eq!(store.amount_txnify(&plain).currency, 3);
    assert_eq!(store.amount_txnify(&plain).prices, vec![]);
}

#[test]
fn errors_and_messages() {
    let bare = LedgerError::new("something");
    assert_eq!(bare.0, "something");
    let with = LedgerError::new("something").with_context(42u8);
    assert_eq!(with.0, "something");
    assert_eq!(with.1, 42);
    let e = fail(ErrorContext::Syntax { line: 120 });
    assert_eq!(e.0, "syntax error");
    assert_eq!(e.message(), "syntax error at line 120");
    assert_eq!(fail(ErrorContext::NoActivities).message(), "valid account with no activities");
    assert_eq!(fail(ErrorContext::TooManyElided).0, "only 1 account can has its amount elided");
    assert_eq!(
        fail(ErrorContext::MissingPrice { from: 10, to: 0 }).message(),
        "no price converts unit 10 to unit 0"
    );
    assert_eq!(
        fail(ErrorContext::InvalidDate { text: "2021-02-30".to_string() }).0,
        "invalid date"
    );
    assert_eq!(ErrorContext::Overflow.summary(), "amount out of range");
}
