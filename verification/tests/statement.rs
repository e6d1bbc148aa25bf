use libroasted::account::ParsedAccount;
use libroasted::amount::{ParsedAmount, Price};
use libroasted::date::Date;
use libroasted::decimal::Decimal;
use libroasted::error::ErrorContext;
use libroasted::lexer::tokenize_line;
use libroasted::parser::LedgerParser;
use libroasted::statement::{Directive, Statement};
use libroasted::transaction::{ParsedTransaction, TransactionState, TxnHeader};

fn day(year: i32, month: u32, day: u32) -> Date {
    Date::from_ymd_opt(year, month, day).expect("invalid date")
}

#[test]
fn statement_parse_custom_statement() {
    let statement = Statement::parse(r#"2021-01-01 custom "author" "udhin""#).unwrap();
    assert_eq!(
        statement,
        Statement::Custom(day(2021, 1, 1), vec!["author", "udhin"])
    );
}

#[test]
fn statement_parse_open_statement() {
    let statement = Statement::parse("2021-02-02 open Assets:Bank:Jago").unwrap();
    assert_eq!(
        statement,
        Statement::OpenAccount(day(2021, 2, 2), ParsedAccount::Assets(vec!["Bank", "Jago"]))
    );
}

#[test]
fn statement_parse_close_statement() {
    let statement = Statement::parse("2021-12-31 close Liabilities:CrediCard:VISA").unwrap();
    assert_eq!(
        statement,
        Statement::CloseAccount(
            day(2021, 12, 31),
            ParsedAccount::Liabilities(vec!["CrediCard", "VISA"]),
        )
    );
}

#[test]
fn statement_parse_pad_statement() {
    let statement = Statement::parse("2021-11-10 pad Assets:Cash:OnHand Expenses:Wasted").unwrap();
    assert_eq!(
        statement,
        Statement::Pad(
            day(2021, 11, 10),
            ParsedAccount::Assets(vec!["Cash", "OnHand"]),
            ParsedAccount::Expenses(vec!["Wasted"]),
        )
    );
}

#[test]
fn statement_parse_balance_statement() {
    let statement =
        Statement::parse("2021-02-28 balance\tAssets:Cash:OnHand \t 65750.55\tUSD").unwrap();
    assert_eq!(
        statement,
        Statement::Balance(
            day(2021, 2, 28),
            ParsedAccount::Assets(vec!["Cash", "OnHand"]),
            ParsedAmount {
                nominal: Decimal::new(6575055, 2).unwrap(),
                currency: "USD",
                price: None,
            }
        )
    );
}

#[test]
fn statement_parse_transaction_statement() {
    let statement = Statement::parse(
        r#"2021-04-01 * "Gubuk mang Engking" "Splurge @ diner"
                 Assets:Cash
                 Expenses:Dining              50 USD
            "#,
    )
    .unwrap();
    assert_eq!(
        statement,
        Statement::Transaction(
            day(2021, 4, 1),
            TxnHeader {
                state: TransactionState::Settled,
                payee: Some("Gubuk mang Engking"),
                title: "Splurge @ diner",
            },
            ParsedTransaction {
                accounts: vec![
                    ParsedAccount::Assets(vec!["Cash"]),
                    ParsedAccount::Expenses(vec!["Dining"]),
                ],
                exchanges: vec![
                    None,
                    Some(ParsedAmount {
                        nominal: Decimal::from_int(50),
                        currency: "USD",
                        price: None,
                    }),
                ],
            }
        )
    );
}

#[test]
fn parse_amount() {
    let tokens = tokenize_line("1337 USD @ 1000 IDR").unwrap();
    let amount = ParsedAmount::parse(&tokens, 0, 1).unwrap();
    assert_eq!(
        amount,
        ParsedAmount {
            nominal: Decimal::from_int(1337),
            currency: "USD",
            price: Some(Price {
                nominal: Decimal::from_int(1000),
                currency: "IDR",
            })
        }
    );
}

#[test]
fn amount_shapes() {
    let tokens = tokenize_line("balance -12.50 EUR").unwrap();
    assert_eq!(
        ParsedAmount::parse(&tokens, 1, 1).unwrap(),
        ParsedAmount {
            nominal: Decimal::new(-1250, 2).unwrap(),
            currency: "EUR",
            price: None,
        }
    );
    // one token, three tokens, a quoted number, a missing `@`
    for text in ["12", "12 USD EUR", "\"12\" USD", "12 USD at 3 EUR", "12 USD @ 3"] {
        let tokens = tokenize_line(text).unwrap();
        let err = ParsedAmount::parse(&tokens, 0, 7).unwrap_err();
        assert!(matches!(err.1, ErrorContext::Syntax { line: 7 }), "{}", text);
    }
    let tokens = tokenize_line("1e5 USD").unwrap();
    let err = ParsedAmount::parse(&tokens, 0, 1).unwrap_err();
    assert_eq!(err.message(), "invalid nominal: '1e5'");
    let tokens = tokenize_line("5 USD @ x IDR").unwrap();
    let err = ParsedAmount::parse(&tokens, 0, 1).unwrap_err();
    assert_eq!(err.message(), "invalid nominal: 'x'");
}

#[test]
fn transaction_states_and_headers() {
    let tokens = tokenize_line(r#"d ! "title""#).unwrap();
    assert_eq!(
        TxnHeader::parse(&tokens, 1, 1).unwrap(),
        TxnHeader {
            state: TransactionState::Unsettled,
            payee: None,
            title: "title",
        }
    );
    let tokens = tokenize_line("# \"payee\" \"title\"").unwrap();
    assert_eq!(
        TxnHeader::parse(&tokens, 0, 1).unwrap(),
        TxnHeader {
            state: TransactionState::Recurring,
            payee: Some("payee"),
            title: "title",
        }
    );
    for text in ["*", "* title", "* \"a\" \"b\" \"c\"", "? \"a\"", "\"*\" \"a\""] {
        let tokens = tokenize_line(text).unwrap();
        let err = TxnHeader::parse(&tokens, 0, 3).unwrap_err();
        assert!(matches!(err.1, ErrorContext::Syntax { line: 3 }), "{}", text);
    }
}

#[test]
fn price_statement() {
    let statement = Statement::parse("2021-03-01 price USD 14350.5 IDR").unwrap();
    assert_eq!(
        statement,
        Statement::Price(
            day(2021, 3, 1),
            "USD",
            ParsedAmount {
                nominal: Decimal::new(143505, 1).unwrap(),
                currency: "IDR",
                price: None,
            }
        )
    );
}

#[test]
fn directives_of_a_text() {
    let text = "option \"author\" \"me\"\nunit USD\n\ninclude \"other.ledger\"\n2021-01-01 open Assets:Cash\n";
    let directives = LedgerParser::parse(text).unwrap();
    assert_eq!(
        directives,
        vec![
            Directive::Setting("author", "me"),
            Directive::Unit("USD"),
            Directive::Include("other.ledger"),
            Directive::Statement(Statement::OpenAccount(
                day(2021, 1, 1),
                ParsedAccount::Assets(vec!["Cash"])
            )),
        ]
    );
    assert_eq!(LedgerParser::parse("").unwrap(), vec![]);
    assert_eq!(LedgerParser::parse("  \n\t\n").unwrap(), vec![]);
}

#[test]
fn syntax_errors_carry_the_line() {
    let cases = [
        ("unit", 1),
        ("unit \"USD\"", 1),
        ("\n\noption \"a\"", 3),
        ("include other", 1),
        ("hello world", 1),
        ("2021-01-01", 1),
        ("2021-01-01 shut Assets:Cash", 1),
        ("2021-01-01 open", 1),
        ("2021-01-01 open Assets:Cash Assets:Bank", 1),
        ("2021-01-01 pad Assets:Cash", 1),
        ("2021-01-01 custom \"a\" b", 1),
        ("  2021-01-01 open Assets:Cash", 1),
        ("unit USD\n  Assets:Cash", 2),
        ("2021-01-01 open Assets:Cash\n  Assets:Cash 5 USD", 2),
        ("2021-01-01 custom \"open", 1),
        ("2021-1-1 open Assets:Cash", 1),
        ("2021-01-01 * \"t\"\n  Assets:Cash 5", 2),
        ("2021-01-01 * \"t\"\n  \"Assets:Cash\" 5 USD", 2),
    ];
    for (text, line) in cases {
        let err = LedgerParser::parse(text).unwrap_err();
        match err.1 {
            ErrorContext::Syntax { line: at } => assert_eq!(at, line, "{}", text),
            other => panic!("{}: unexpected error {:?}", text, other),
        }
        assert_eq!(err.0, "syntax error");
    }
    let err = LedgerParser::parse("\nunit").unwrap_err();
    assert_eq!(err.message(), "syntax error at line 2");
}

#[test]
fn other_parse_errors() {
    let err = LedgerParser::parse("2021-02-30 open Assets:Cash").unwrap_err();
    assert_eq!(err.message(), "invalid date `2021-02-30'");
    assert!(matches!(err.1, ErrorContext::InvalidDate { .. }));
    let err = LedgerParser::parse("2021-02-03 open Cash:Assets").unwrap_err();
    assert_eq!(
        err.message(),
        "input `Cash:Assets' is not a valid token for Account"
    );
    let err = LedgerParser::parse("2021-02-03 balance Assets:Cash 1.2.3 USD").unwrap_err();
    assert_eq!(err.message(), "invalid nominal: '1.2.3'");
}

#[test]
fn elision_cardinality_in_the_grammar() {
    let err = Statement::parse(
        "2021-04-01 * \"Dinner\"\n  Assets:Cash\n  Expenses:Dining\n  Expenses:Tips 5 USD\n",
    )
    .unwrap_err();
    assert!(matches!(err.1, ErrorContext::TooManyElided));
    assert_eq!(err.message(), "only 1 account can has its amount elided");
    // a line that is no leg is reported before the count
    let err = Statement::parse(
        "2021-04-01 * \"Dinner\"\n  Assets:Cash\n  Expenses:Dining\n  Tips 5 USD\n",
    )
    .unwrap_err();
    assert!(matches!(err.1, ErrorContext::InvalidAccount { .. }));
    // one missing amount is fine, and so is none
    assert!(Statement::parse("2021-04-01 * \"Dinner\"\n  Assets:Cash\n  Expenses:Dining 5 USD\n").is_ok());
    assert!(
        Statement::parse("2021-04-01 * \"Dinner\"\n  Assets:Cash -5 USD\n  Expenses:Dining 5 USD\n")
            .is_ok()
    );
}

#[test]
fn single_statement_only() {
    assert!(Statement::parse("unit USD").is_err());
    assert!(Statement::parse("").is_err());
    assert!(Statement::parse("2021-01-01 open Assets:A\n2021-01-01 open Assets:B").is_err());
    assert!(LedgerParser::single("unit USD\nunit EUR").is_err());
    assert_eq!(LedgerParser::single("\n unit USD".trim_start()).unwrap(), Directive::Unit("USD"));
}
