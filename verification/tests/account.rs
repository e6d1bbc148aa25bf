use libroasted::account::{AccountKind, ParsedAccount, TxnAccount};
use libroasted::date::Date;
use libroasted::error::ErrorContext;
use libroasted::store::AccountStore;

fn day(year: i32, month: u32, day: u32) -> Date {
    Date::from_ymd_opt(year, month, day).expect("invalid date")
}

#[test]
fn test_print_account() {
    assert_eq!(
        ParsedAccount::Assets(vec!["Bank", "Swiss"]).display(),
        "Assets:Bank:Swiss"
    );
    assert_eq!(
        ParsedAccount::Expenses(vec!["Groceries", "Daily"]).display(),
        "Expenses:Groceries:Daily"
    );
    assert_eq!(
        ParsedAccount::Liabilities(vec!["Mortgage", "House"]).display(),
        "Liabilities:Mortgage:House"
    );
    assert_eq!(
        ParsedAccount::Income(vec!["Salary", "GOOGL"]).display(),
        "Income:Salary:GOOGL"
    );
    assert_eq!(
        ParsedAccount::Equity(vec!["Opening-Account"]).display(),
        "Equity:Opening-Account"
    );
}

#[test]
fn test_convert() {
    assert_eq!(
        ParsedAccount::Assets(vec!["Checking", "Daily"]),
        ParsedAccount::parse("Assets:Checking:Daily").unwrap()
    );
    assert_eq!(
        ParsedAccount::Expenses(vec!["Clothing", "Dresses"]),
        ParsedAccount::parse("Expenses:Clothing:Dresses").unwrap()
    );
    assert_eq!(
        ParsedAccount::Liabilities(vec!["Payable", "BigSis"]),
        ParsedAccount::parse("Liabilities:Payable:BigSis").unwrap()
    );
    assert_eq!(
        ParsedAccount::Income(vec!["Stores", "Order"]),
        ParsedAccount::parse("Income:Stores:Order").unwrap()
    );
    assert_eq!(
        ParsedAccount::Equity(vec!["Previous-Balance"]),
        ParsedAccount::parse("Equity:Previous-Balance").unwrap()
    );
    let result = ParsedAccount::parse("Outcome:Statement");
    assert_eq!(
        "input `Outcome:Statement' is not a valid token for Account",
        result.unwrap_err().message()
    );
}

fn create_accounts() -> [ParsedAccount<'static>; 5] {
    [
        ParsedAccount::parse("Assets:Bank:Jawir").unwrap(),
        ParsedAccount::parse("Expenses:Dining").unwrap(),
        ParsedAccount::parse("Income:Salary").unwrap(),
        ParsedAccount::parse("Liabilities:Bank:CreditCard").unwrap(),
        ParsedAccount::parse("Equity:Opening-Balance").unwrap(),
    ]
}

#[test]
fn test_open_close_account() {
    let mut store = AccountStore::new();
    let date1 = day(2021, 10, 25);
    let date2 = day(2021, 10, 28);
    let date3 = day(2021, 11, 5);
    let date4 = day(2021, 11, 13);
    let accounts = create_accounts();
    let opened = [date1, date2, date1, date2, date1];
    let resolved = [
        TxnAccount::Assets(vec![0, 1]),
        TxnAccount::Expenses(vec![2]),
        TxnAccount::Income(vec![3]),
        TxnAccount::Liabilities(vec![0, 4]),
        TxnAccount::Equity(vec![5]),
    ];

    // Open accounts
    for idx in 0..5 {
        store.open(&accounts[idx], opened[idx]).unwrap();
    }

    // Assert if account can be used for transaction at given date
    for idx in 0..5 {
        assert_eq!(
            store.txnify(&opened[idx], &accounts[idx]).unwrap(),
            resolved[idx]
        );
    }

    // Assert that valid account cannot be used before the open date
    assert_eq!(
        store.txnify(&date1, &accounts[1]).unwrap_err().message(),
        "account `Expenses:Dining' is not opened at 2021-10-25"
    );

    // Close accounts at later date
    for idx in 0..5 {
        store.close(&accounts[idx], date3).unwrap();
    }

    // Assert that account cannot be used at further date after it was
    // closed at the previous date.
    for idx in 0..5 {
        assert!(store.txnify(&date4, &accounts[idx]).is_err());
    }

    // Assert that we can create account from the given transactional
    // account regardless its state
    assert_eq!(
        store.accountify(&TxnAccount::Assets(vec![0, 1])).unwrap(),
        ParsedAccount::Assets(vec!["Bank", "Jawir"])
    );
    assert_eq!(
        store.accountify(&TxnAccount::Expenses(vec![0, 1])).unwrap(),
        ParsedAccount::Expenses(vec!["Bank", "Jawir"])
    );
    assert_eq!(
        store.accountify(&TxnAccount::Income(vec![0, 1])).unwrap(),
        ParsedAccount::Income(vec!["Bank", "Jawir"])
    );
    assert_eq!(
        store.accountify(&TxnAccount::Liabilities(vec![0, 1])).unwrap(),
        ParsedAccount::Liabilities(vec!["Bank", "Jawir"])
    );
    assert_eq!(
        store.accountify(&TxnAccount::Equity(vec![0, 1])).unwrap(),
        ParsedAccount::Equity(vec!["Bank", "Jawir"])
    );

    // Reassert that accounts can still be used for transaction before the
    // close date
    for idx in 0..5 {
        assert_eq!(
            store.txnify(&date2, &accounts[idx]).unwrap(),
            resolved[idx]
        );
    }
}

#[test]
fn account_test_open_account() {
    let mut store = AccountStore::new();
    let date1 = day(2021, 10, 25);
    let date2 = day(2021, 10, 28);
    let account1 = ParsedAccount::parse("Assets:Bank:Jawir").unwrap();
    let account2 = ParsedAccount::parse("Expenses:Dining").unwrap();
    store.open(&account1, date1).unwrap();
    store.open(&account2, date2).unwrap();
    assert_eq!(
        store.txnify(&date1, &account1).unwrap(),
        TxnAccount::Assets(vec![0, 1])
    );
    assert_eq!(
        store.txnify(&date2, &account2).unwrap(),
        TxnAccount::Expenses(vec![2])
    );
    let err = store.txnify(&date1, &account2).unwrap_err();
    assert_eq!(err.0, "account is not opened");
    assert!(matches!(err.1, ErrorContext::AccountNotOpened { .. }));
    assert_eq!(
        store
            .accountify(&TxnAccount::Assets(vec![0, 1]))
            .unwrap()
            .display(),
        "Assets:Bank:Jawir",
    );
}

#[test]
fn base_name_drops_the_kind() {
    assert_eq!(
        ParsedAccount::base_name("Assets:Bank:Jawir"),
        vec!["Bank", "Jawir"]
    );
    assert_eq!(ParsedAccount::base_name("Assets"), Vec::<&str>::new());
    assert_eq!(ParsedAccount::base_name(""), Vec::<&str>::new());
    assert_eq!(ParsedAccount::base_name("Assets:"), vec![""]);
    assert_eq!(ParsedAccount::base_name("a::b"), vec!["", "b"]);
}

#[test]
fn account_kind_needs_the_colon() {
    assert!(ParsedAccount::parse("Equity").is_err());
    assert!(ParsedAccount::parse("assets:Bank").is_err());
    assert_eq!(AccountKind::of_text("Income:Salary"), Some(AccountKind::Income));
    assert_eq!(AccountKind::of_text("Incomes:Salary"), None);
    assert_eq!(
        ParsedAccount::parse("Equity:").unwrap(),
        ParsedAccount::Equity(vec![""])
    );
}

#[test]
fn display_then_parse_gives_the_account_back() {
    let accounts = [
        ParsedAccount::Assets(vec!["Bank", "Swiss"]),
        ParsedAccount::Expenses(vec!["Dining"]),
        ParsedAccount::Liabilities(vec!["Bank", "CreditCard", "Visa"]),
        ParsedAccount::Income(vec!["Salary"]),
        ParsedAccount::Equity(vec!["Opening-Balance"]),
    ];
    for account in accounts.iter() {
        let text = account.display();
        assert_eq!(&ParsedAccount::parse(&text).unwrap(), account);
    }
}

#[test]
fn temporal_validity() {
    let mut store = AccountStore::new();
    let dining = ParsedAccount::parse("Expenses:Dining").unwrap();
    store.open(&dining, day(2021, 10, 28)).unwrap();
    let err = store.txnify(&day(2021, 10, 25), &dining).unwrap_err();
    assert_eq!(
        err.message(),
        "account `Expenses:Dining' is not opened at 2021-10-25"
    );
    match err.1 {
        ErrorContext::AccountNotOpened { account, date } => {
            assert_eq!(account, "Expenses:Dining");
            assert_eq!(date, day(2021, 10, 25));
        }
        other => panic!("unexpected error {:?}", other),
    }
    assert!(store.txnify(&day(2021, 10, 27), &dining).is_err());
    assert_eq!(
        store.txnify(&day(2021, 10, 28), &dining).unwrap(),
        TxnAccount::Expenses(vec![0])
    );
    assert_eq!(
        store.txnify(&day(2021, 10, 29), &dining).unwrap(),
        TxnAccount::Expenses(vec![0])
    );
    assert_eq!(
        store.txnify(&day(2022, 1, 1), &dining).unwrap(),
        TxnAccount::Expenses(vec![0])
    );
}

#[test]
fn reopen_semantics() {
    let mut store = AccountStore::new();
    let jawir = ParsedAccount::parse("Assets:Bank:Jawir").unwrap();
    let day1 = day(2021, 1, 1);
    let day2 = day(2021, 1, 2);
    let day3 = day(2021, 1, 3);
    let day4 = day(2021, 1, 4);
    let day5 = day(2021, 1, 5);
    store.open(&jawir, day1).unwrap();
    assert!(store.txnify(&day2, &jawir).is_ok());
    store.close(&jawir, day3).unwrap();
    assert!(store.txnify(&day2, &jawir).is_ok());
    assert!(store.txnify(&day3, &jawir).is_err());
    assert!(store.txnify(&day4, &jawir).is_err());
    store.open(&jawir, day4).unwrap();
    assert!(store.txnify(&day3, &jawir).is_err());
    assert_eq!(
        store.txnify(&day4, &jawir).unwrap(),
        TxnAccount::Assets(vec![0, 1])
    );
    assert_eq!(
        store.txnify(&day5, &jawir).unwrap(),
        TxnAccount::Assets(vec![0, 1])
    );
}

#[test]
fn shared_segments_are_interned_once() {
    let mut store = AccountStore::new();
    let jawir = ParsedAccount::parse("Assets:Bank:Jawir").unwrap();
    let card = ParsedAccount::parse("Liabilities:Bank:CreditCard").unwrap();
    let date = day(2021, 10, 25);
    store.open(&jawir, date).unwrap();
    store.open(&card, date).unwrap();
    let first = store.txnify(&date, &jawir).unwrap();
    let second = store.txnify(&date, &card).unwrap();
    assert_eq!(first, TxnAccount::Assets(vec![0, 1]));
    assert_eq!(second, TxnAccount::Liabilities(vec![0, 2]));
    assert_eq!(first.path()[0], second.path()[0]);
    assert_ne!(first.path()[1], second.path()[1]);
    // opening again changes no index
    store.open(&jawir, date).unwrap();
    assert_eq!(
        store.txnify(&date, &jawir).unwrap(),
        TxnAccount::Assets(vec![0, 1])
    );
}

#[test]
fn close_needs_an_open_account() {
    let mut store = AccountStore::new();
    let jawir = ParsedAccount::parse("Assets:Bank:Jawir").unwrap();
    let date = day(2021, 10, 25);
    // never opened: the segments are unknown
    let err = store.close(&jawir, date).unwrap_err();
    assert!(matches!(err.1, ErrorContext::AccountNotOpened { .. }));
    store.open(&jawir, date).unwrap();
    // closing before the opening day is refused
    assert!(store.close(&jawir, day(2021, 10, 24)).is_err());
    store.close(&jawir, day(2021, 10, 26)).unwrap();
    // a second close finds the account closed
    let err = store.close(&jawir, day(2021, 10, 27)).unwrap_err();
    assert_eq!(
        err.message(),
        "account `Assets:Bank:Jawir' is not opened at 2021-10-27"
    );
    // same segments under another kind are another account
    let other = ParsedAccount::parse("Equity:Bank:Jawir").unwrap();
    assert!(store.txnify(&date, &other).is_err());
}

#[test]
fn lookup_does_not_intern() {
    let mut store = AccountStore::new();
    let date = day(2021, 10, 25);
    let bank = ParsedAccount::parse("Assets:Bank").unwrap();
    store.open(&bank, date).unwrap();
    let cash = ParsedAccount::parse("Assets:Cash").unwrap();
    assert!(store.txnify(&date, &cash).is_err());
    // had the lookup interned `Cash`, it would have taken index 1
    let card = ParsedAccount::parse("Assets:Card").unwrap();
    store.open(&card, date).unwrap();
    assert_eq!(
        store.txnify(&date, &card).unwrap(),
        TxnAccount::Assets(vec![1])
    );
}

#[test]
fn accountify_rejects_unknown_indices() {
    let mut store = AccountStore::new();
    let date = day(2021, 10, 25);
    store
        .open(&ParsedAccount::parse("Assets:Bank:Jawir").unwrap(), date)
        .unwrap();
    let err = store
        .accountify(&TxnAccount::Assets(vec![0, 2]))
        .unwrap_err();
    assert!(matches!(err.1, ErrorContext::UndefinedAccount));
    assert_eq!(err.message(), "undefined account");
    assert_eq!(
        store.accountify(&TxnAccount::Income(vec![])).unwrap(),
        ParsedAccount::Income(vec![])
    );
}

#[test]
fn segments_are_case_sensitive() {
    let mut store = AccountStore::new();
    let date = day(2021, 10, 25);
    store
        .open(&ParsedAccount::parse("Assets:Bank").unwrap(), date)
        .unwrap();
    assert!(store
        .txnify(&date, &ParsedAccount::parse("Assets:bank").unwrap())
        .is_err());
}
