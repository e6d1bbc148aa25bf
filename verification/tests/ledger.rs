use libroasted::account::{ParsedAccount, TxnAccount};
use libroasted::amount::{Amount, ParsedAmount, Price, TxnPrice};
use libroasted::date::Date;
use libroasted::decimal::Decimal;
use libroasted::error::ErrorContext;
use libroasted::ledger::Ledger;
use libroasted::parser::{parse, LedgerParser};
use libroasted::statement::{Directive, Statement};
use libroasted::transaction::{
    BalanceCheck, Exchange, ParsedTransaction, ReferenceLookup, TransactionState, TxnHeader,
};

fn day(year: i32, month: u32, day: u32) -> Date {
    Date::from_ymd_opt(year, month, day).expect("invalid date")
}

#[test]
fn test_parse_option() {
    let mut ledger = Ledger::new();
    ledger.parse_option(r#"option "author" "myself""#).unwrap();
    assert_eq!(ledger.get_option("author").unwrap(), "myself");
}

#[test]
fn ledger_test_set_option() {
    let mut ledger = Ledger::new();
    ledger.set_option("author", "me, myself, and I");
    assert_eq!(ledger.get_option("author").unwrap(), "me, myself, and I");
}

#[test]
fn ledger_test_custom_statement() {
    let mut ledger = Ledger::new();
    let date = day(2021, 5, 20);
    ledger
        .process_statement(Statement::Custom(date, vec!["author", "team rocket"]))
        .unwrap();
    assert_eq!(
        ledger.get_bookings_on(&date).unwrap().custom()[0],
        vec!["author", "team rocket"]
    );
}

#[test]
fn ledger_test_open_account() {
    let mut ledger = Ledger::new();
    let date = day(2021, 5, 20);
    let date2 = day(2022, 5, 20);
    let date3 = day(2022, 5, 21);
    let acct = ParsedAccount::Assets(vec!["Cash", "On-Hand"]);

    ledger
        .process_statement(Statement::OpenAccount(date, acct.clone()))
        .unwrap();

    assert_eq!(
        TxnAccount::Assets(vec![0, 1]),
        ledger.account_lookup(&date, &acct).unwrap()
    );

    ledger
        .process_statement(Statement::CloseAccount(date2, acct.clone()))
        .unwrap();

    assert_eq!(
        "account `Assets:Cash:On-Hand' is not opened at 2022-05-21",
        ledger.account_lookup(&date3, &acct).unwrap_err().message()
    );
}

#[test]
fn test_pad_transaction() {
    let mut ledger = Ledger::new();
    let date = day(2021, 5, 20);
    let acct_source = ParsedAccount::Assets(vec!["Bank", "Suisse"]);
    let acct_target = ParsedAccount::Expenses(vec!["Travels", "Airplane", "Emirates"]);

    ledger
        .process_statement(Statement::OpenAccount(date, acct_source.clone()))
        .unwrap();
    ledger
        .process_statement(Statement::OpenAccount(date, acct_target.clone()))
        .unwrap();
    ledger
        .process_statement(Statement::Pad(date, acct_target, acct_source))
        .unwrap();

    let bookings = ledger.get_bookings_on(&date).expect("no daybook");

    assert_eq!(bookings.pads().len(), 1);
    assert_eq!(
        bookings.pads()[0].target,
        TxnAccount::Expenses(vec![2, 3, 4])
    );
    assert_eq!(bookings.pads()[0].source, TxnAccount::Assets(vec![0, 1]));
}

#[test]
fn test_balance_transaction() {
    let mut ledger = Ledger::new();
    let date = day(2021, 5, 20);
    let tomorrow = day(2021, 5, 21);
    let account = ParsedAccount::Assets(vec!["Bank", "SVB"]);
    let amount = ParsedAmount {
        nominal: Decimal::from_int(10_000_000),
        currency: "USD",
        price: None,
    };

    ledger.parse_unit("unit USD").unwrap();

    ledger
        .process_statement(Statement::OpenAccount(date, account.clone()))
        .unwrap();

    ledger
        .process_statement(Statement::Balance(tomorrow, account.clone(), amount))
        .unwrap();

    let bookings = ledger.get_bookings_on(&tomorrow).expect("no daybook");

    assert_eq!(bookings.balance_assertions().len(), 1);
    assert_eq!(
        bookings.balance_assertions()[0].account,
        TxnAccount::Assets(vec![0, 1])
    );
    assert_eq!(
        bookings.balance_assertions()[0].amount,
        Amount {
            nominal: Decimal::from_int(10_000_000),
            currency: 0,
            prices: vec![],
        }
    );
}

#[test]
fn test_transaction() {
    let mut ledger = Ledger::new();
    let date = day(2021, 5, 20);
    let tomorrow = day(2021, 5, 21);
    let asset = ParsedAccount::Assets(vec!["Bank", "SVB"]);
    let expense = ParsedAccount::Expenses(vec!["Monthly", "Splurge"]);

    ledger.parse_unit("unit USD").unwrap();

    ledger
        .process_statement(Statement::OpenAccount(date, asset.clone()))
        .unwrap();
    ledger
        .process_statement(Statement::OpenAccount(date, expense.clone()))
        .unwrap();

    let txn_header = TxnHeader {
        state: TransactionState::Settled,
        payee: Some("travel-agent"),
        title: "Europe Travel",
    };

    let txn_list = ParsedTransaction {
        accounts: vec![asset, expense],
        exchanges: vec![
            None,
            Some(ParsedAmount {
                nominal: Decimal::from_int(199),
                currency: "USD",
                price: None,
            }),
        ],
    };

    ledger
        .process_statement(Statement::Transaction(date, txn_header, txn_list))
        .unwrap();

    let bookings = ledger.get_bookings_on(&date).expect("no daybook");

    assert_eq!(bookings.transactions().len(), 1);
    assert_eq!(bookings.transactions()[0].exchanges.len(), 2);
    assert_eq!(
        bookings.transactions()[0].exchanges[0],
        Exchange {
            account: TxnAccount::Assets(vec![0, 1]),
            amount: Amount {
                nominal: Decimal::from_int(-199),
                currency: 0,
                prices: vec![],
            },
            elided: true,
        },
    );

    assert_eq!(
        bookings.transactions()[0].exchanges[1],
        Exchange {
            account: TxnAccount::Expenses(vec![2, 3]),
            amount: Amount {
                nominal: Decimal::from_int(199),
                currency: 0,
                prices: vec![],
            },
            elided: false,
        },
    );
    assert_eq!(
        bookings.transactions()[0].total_debited().unwrap(),
        Amount {
            nominal: Decimal::from_int(199),
            currency: 0,
            prices: vec![],
        }
    );
    assert!(bookings.transactions()[0]
        .errors(BalanceCheck::WithSum)
        .is_none());
    assert_eq!(bookings.transactions()[0].payee.as_deref(), Some("travel-agent"));
    assert_eq!(bookings.transactions()[0].title, "Europe Travel");
    assert_eq!(bookings.transactions()[0].state, TransactionState::Settled);

    assert!(ledger.get_bookings_on(&tomorrow).is_none());
}

#[test]
fn test_more_transactions() {
    let mut ledger = Ledger::new();
    let date = day(2021, 5, 20);
    let later = day(2021, 6, 1);
    let earlier = day(2021, 5, 1);
    let cash = ParsedAccount::Assets(vec!["Cash"]);
    let food = ParsedAccount::Expenses(vec!["Food"]);
    ledger.parse_unit("unit USD").unwrap();
    ledger
        .process_statement(Statement::OpenAccount(earlier, cash.clone()))
        .unwrap();
    ledger
        .process_statement(Statement::OpenAccount(earlier, food.clone()))
        .unwrap();
    for (on, nominal) in [(date, 5), (later, 7), (date, 11), (earlier, 13)] {
        let header = TxnHeader {
            state: TransactionState::Unsettled,
            payee: None,
            title: "Lunch",
        };
        let legs = ParsedTransaction {
            accounts: vec![food.clone(), cash.clone()],
            exchanges: vec![
                Some(ParsedAmount {
                    nominal: Decimal::from_int(nominal),
                    currency: "USD",
                    price: None,
                }),
                None,
            ],
        };
        ledger
            .process_statement(Statement::Transaction(on, header, legs))
            .unwrap();
    }
    assert_eq!(ledger.dates(), vec![earlier, date, later]);
    let book = ledger.get_bookings_on(&date).unwrap();
    assert_eq!(book.transactions().len(), 2);
    assert_eq!(
        book.transactions()[0].exchanges[0].amount.nominal,
        Decimal::from_int(5)
    );
    assert_eq!(
        book.transactions()[1].exchanges[1].amount.nominal,
        Decimal::from_int(-11)
    );
    assert!(book.transactions()[1].exchanges[1].elided);
    assert_eq!(ledger.get_bookings_on(&later).unwrap().transactions().len(), 1);
    assert_eq!(ledger.get_bookings_on(&earlier).unwrap().transactions().len(), 1);
    assert_eq!(book.transactions()[0].payee, None);
}

const CONTENT: &str = r#"
2014-01-01 open Assets:Saving:Bank-M
2014-01-01 open Assets:Saving:Bank-A
2014-01-01 open Assets:Saving:Bank-B
2014-01-01 open Assets:Cash

2014-01-01 open Equity:Opening-Balances
2014-01-01 open Liabilities:Credit-Card:Visa

2014-08-05 * "Initialize saving accounts"
  Equity:Opening-Balances
  Assets:Saving:Bank-M                        105 USD
  Assets:Saving:Bank-A                        151 USD
  Assets:Saving:Bank-B                       1058 USD
  Assets:Cash                                 102 USD

2014-08-06 open Expenses:Transport
2014-08-06 * "Daily's Commuting"
  Assets:Cash
  Expenses:Transport                            3 USD

2014-08-05 * "Initialize liabilities"
  Equity:Opening-Balances
  Liabilities:Credit-Card:Visa               -606 USD

2014-08-06 * "Pay credit card bill"
  Assets:Saving:Bank-A
  Liabilities:Credit-Card:Visa                100 USD

2014-08-06 open Expenses:Education
2014-08-06 * "Pay 1st semester tuition"
  Assets:Cash
  Expenses:Education                           75 USD

2014-08-07 * "Daily's commuting"
  Assets:Cash
  Expenses:Transport                            3 USD

2014-08-08 * "Daily's commuting"
  Assets:Cash
  Expenses:Transport                            3 USD
            "#;

#[test]
fn test_ledger_content() {
    // units are declared before they are used: the text names `USD` and
    // declares none, so the ledger that is handed in has it
    let mut declared = Ledger::new();
    declared.parse_unit("unit USD").unwrap();
    let ledger = parse(CONTENT, Some(declared)).unwrap();

    // Account assertions.
    let new_year = day(2014, 1, 1);
    let aug_six = day(2014, 8, 6);
    assert_eq!(
        ledger
            .account_lookup(&new_year, &ParsedAccount::Assets(vec!["Saving", "Bank-M"]))
            .unwrap(),
        TxnAccount::Assets(vec![0, 1]),
    );
    assert_eq!(
        ledger
            .account_lookup(&new_year, &ParsedAccount::Assets(vec!["Saving", "Bank-A"]))
            .unwrap(),
        TxnAccount::Assets(vec![0, 2]),
    );
    assert_eq!(
        ledger
            .account_lookup(&new_year, &ParsedAccount::Assets(vec!["Saving", "Bank-B"]))
            .unwrap(),
        TxnAccount::Assets(vec![0, 3]),
    );
    assert_eq!(
        ledger
            .account_lookup(&new_year, &ParsedAccount::Assets(vec!["Cash"]))
            .unwrap(),
        TxnAccount::Assets(vec![4]),
    );
    assert_eq!(
        ledger
            .account_lookup(&new_year, &ParsedAccount::Equity(vec!["Opening-Balances"]))
            .unwrap(),
        TxnAccount::Equity(vec![5]),
    );
    assert_eq!(
        ledger
            .account_lookup(
                &new_year,
                &ParsedAccount::Liabilities(vec!["Credit-Card", "Visa"])
            )
            .unwrap(),
        TxnAccount::Liabilities(vec![6, 7]),
    );
    assert_eq!(
        ledger
            .account_lookup(&aug_six, &ParsedAccount::Expenses(vec!["Transport"]))
            .unwrap(),
        TxnAccount::Expenses(vec![8]),
    );
    assert_eq!(
        ledger
            .account_lookup(&aug_six, &ParsedAccount::Expenses(vec!["Education"]))
            .unwrap(),
        TxnAccount::Expenses(vec![9]),
    );

    // Transaction assertions.
    let aug_five = day(2014, 8, 5);
    for _ in 0..4 {
        assert_eq!(
            ledger
                .get_bookings_on(&aug_five)
                .unwrap()
                .transactions()
                .len(),
            2
        );
    }
    assert_eq!(ledger.get_bookings_on(&aug_six).unwrap().transactions().len(), 3);
    assert_eq!(
        ledger
            .get_bookings_on(&day(2014, 8, 7))
            .unwrap()
            .transactions()
            .len(),
        1
    );
    assert_eq!(
        ledger
            .get_bookings_on(&day(2014, 8, 8))
            .unwrap()
            .transactions()
            .len(),
        1
    );
    let first = &ledger.get_bookings_on(&aug_five).unwrap().transactions()[0];
    assert_eq!(first.exchanges[0].amount.nominal, Decimal::from_int(-1416));
    assert!(first.exchanges[0].elided);
    assert!(first.errors(BalanceCheck::WithSum).is_none());
    assert_eq!(first.title, "Initialize saving accounts");
}

#[test]
fn undeclared_unit_is_an_error() {
    let err = parse(CONTENT, None).unwrap_err();
    assert_eq!(err.message(), "unit `USD' is not declared");
    assert!(matches!(err.1, ErrorContext::UnitNotDeclared { .. }));
    let mut ledger = Ledger::new();
    ledger.parse_unit("unit USD").unwrap();
    let err = ledger.unit_lookup(&day(2021, 1, 1), "IDR").unwrap_err();
    assert_eq!(err.message(), "unit `IDR' is not declared");
    assert_eq!(ledger.unit_lookup(&day(2021, 1, 1), "USD").unwrap(), 0);
}

#[test]
fn failed_statement_changes_nothing() {
    let mut ledger = Ledger::new();
    let date = day(2021, 5, 20);
    let cash = ParsedAccount::Assets(vec!["Cash"]);
    let bank = ParsedAccount::Assets(vec!["Bank"]);
    ledger
        .process_statement(Statement::OpenAccount(date, cash.clone()))
        .unwrap();
    // the source of the pad is not open
    let err = ledger
        .process_statement(Statement::Pad(date, cash.clone(), bank.clone()))
        .unwrap_err();
    assert_eq!(err.message(), "account `Assets:Bank' is not opened at 2021-05-20");
    assert!(ledger.get_bookings_on(&date).is_none());
    // the target is looked at first
    let err = ledger
        .process_statement(Statement::Pad(date, bank.clone(), ParsedAccount::Assets(vec!["X"])))
        .unwrap_err();
    assert_eq!(err.message(), "account `Assets:Bank' is not opened at 2021-05-20");
    // an undeclared unit in a balance
    let err = ledger
        .process_statement(Statement::Balance(
            date,
            cash.clone(),
            ParsedAmount {
                nominal: Decimal::from_int(1),
                currency: "USD",
                price: None,
            },
        ))
        .unwrap_err();
    assert!(matches!(err.1, ErrorContext::UnitNotDeclared { .. }));
    assert!(ledger.get_bookings_on(&date).is_none());
    assert_eq!(ledger.dates(), vec![]);
}

#[test]
fn include_is_left_to_the_caller() {
    let err = parse("unit USD\ninclude \"more.ledger\"\nunit EUR\n", None).unwrap_err();
    assert_eq!(err.message(), "include `more.ledger' needs a file reader");
    let directives = LedgerParser::parse("unit USD\ninclude \"more.ledger\"\nunit EUR\n").unwrap();
    let mut ledger = Ledger::new();
    let mut includes = Vec::new();
    for directive in directives.iter() {
        match directive {
            Directive::Include(path) => includes.push(*path),
            other => ledger.process_directive(other).unwrap(),
        }
    }
    assert_eq!(includes, vec!["more.ledger"]);
    assert_eq!(ledger.units().lookup("USD"), Some(0));
    assert_eq!(ledger.units().lookup("EUR"), Some(1));
}

#[test]
fn parse_carries_the_ledger_on() {
    let first = parse("unit USD\n2021-01-01 open Assets:Cash\n", None).unwrap();
    let second = parse(
        "option \"author\" \"me\"\n2021-01-02 balance Assets:Cash 12.5 USD\n",
        Some(first),
    )
    .unwrap();
    assert_eq!(second.get_option("author").unwrap(), "me");
    assert_eq!(second.get_option("title"), None);
    let book = second.get_bookings_on(&day(2021, 1, 2)).unwrap();
    assert_eq!(
        book.balance_assertions()[0].amount,
        Amount {
            nominal: Decimal::new(125, 1).unwrap(),
            currency: 0,
            prices: vec![],
        }
    );
    // no forward references
    assert!(parse("2021-01-02 balance Assets:Cash 1 USD\nunit USD\n2021-01-01 open Assets:Cash\n", None).is_err());
}

#[test]
fn options_are_overwritten() {
    let mut ledger = Ledger::new();
    ledger.set_option("a", "1");
    ledger.set_option("b", "2");
    ledger.set_option("a", "3");
    assert_eq!(ledger.get_option("a").unwrap(), "3");
    assert_eq!(ledger.get_option("b").unwrap(), "2");
    assert!(ledger.parse_option("unit USD").is_err());
    assert!(ledger.parse_unit("option \"a\" \"b\"").is_err());
    assert!(ledger.parse_option("option \"a\"").is_err());
    assert_eq!(ledger.get_option("a").unwrap(), "3");
}

#[test]
fn price_statements_are_recorded() {
    let ledger = parse(
        "unit USD\nunit IDR\n2021-03-01 price USD 14350.5 IDR\n2021-03-02 price IDR 0.00007 USD @ 1 IDR\n",
        None,
    )
    .unwrap();
    assert_eq!(ledger.prices().len(), 2);
    assert_eq!(ledger.prices()[0].date, day(2021, 3, 1));
    assert_eq!(ledger.prices()[0].unit, 0);
    assert_eq!(
        ledger.prices()[0].amount,
        Amount {
            nominal: Decimal::new(143505, 1).unwrap(),
            currency: 1,
            prices: vec![],
        }
    );
    assert_eq!(
        ledger.prices()[1].amount,
        Amount {
            nominal: Decimal::new(7, 5).unwrap(),
            currency: 0,
            prices: vec![TxnPrice {
                nominal: Decimal::from_int(1),
                currency: 1
            }],
        }
    );
    assert!(parse("unit USD\n2021-03-01 price EUR 1 USD\n", None).is_err());
    let _ = Price {
        nominal: Decimal::zero(),
        currency: "USD",
    };
}

#[test]
fn custom_statements_keep_their_order() {
    let ledger = parse(
        "2021-01-02 custom \"b\"\n2021-01-01 custom \"a\" \"x\"\n2021-01-02 custom\n2021-01-02 custom \"c\"\n",
        None,
    )
    .unwrap();
    let book = ledger.get_bookings_on(&day(2021, 1, 2)).unwrap();
    assert_eq!(book.custom().len(), 3);
    assert_eq!(book.custom()[0], vec!["b"]);
    assert_eq!(book.custom()[1], Vec::<String>::new());
    assert_eq!(book.custom()[2], vec!["c"]);
    assert_eq!(book.pads().len(), 0);
    assert_eq!(
        ledger.get_bookings_on(&day(2021, 1, 1)).unwrap().custom()[0],
        vec!["a", "x"]
    );
    assert_eq!(ledger.dates(), vec![day(2021, 1, 1), day(2021, 1, 2)]);
    assert_eq!(ledger.accounts().txnify(&day(2021, 1, 1), &ParsedAccount::Assets(vec![])).is_err(), true);
}
