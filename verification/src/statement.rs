//! The statements of a ledger, and the grammar that builds them from token
//! lines.

use crate::account::{AccountPath, ParsedAccount};
use crate::amount::{ParsedAmount, ParsedAmountView, Price, PriceView};
use crate::date::{chrono_parse_date, Date, DATE_FORMAT};
use crate::error::ErrorView;
use crate::lexer::{LineView, TokenView};
use crate::text::is_digit;
use crate::transaction::{
    count_none, HeaderView, ParsedTransaction, ParsedTransactionView, TransactionState, TxnHeader,
};
use vstd::prelude::*;
use vstd::string::*;

verus! {

/// A dated statement.
#[derive(Debug, PartialEq)]
pub enum Statement<'s> {
    Custom(Date, Vec<&'s str>),
    OpenAccount(Date, ParsedAccount<'s>),
    CloseAccount(Date, ParsedAccount<'s>),
    Pad(Date, ParsedAccount<'s>, ParsedAccount<'s>),
    Balance(Date, ParsedAccount<'s>, ParsedAmount<'s>),
    Transaction(Date, TxnHeader<'s>, ParsedTransaction<'s>),
    Price(Date, &'s str, ParsedAmount<'s>),
}

/// One item of a ledger text: a file to include, a setting, the declaration
/// of a unit, or a dated statement.
#[derive(Debug, PartialEq)]
pub enum Directive<'s> {
    Include(&'s str),
    Setting(&'s str, &'s str),
    Unit(&'s str),
    Statement(Statement<'s>),
}

/// The mathematical form of a [`Statement`].
pub enum StatementView {
    Custom(Date, Seq<Seq<char>>),
    OpenAccount(Date, AccountPath),
    CloseAccount(Date, AccountPath),
    Pad(Date, AccountPath, AccountPath),
    Balance(Date, AccountPath, ParsedAmountView),
    Transaction(Date, HeaderView, ParsedTransactionView),
    Price(Date, Seq<char>, ParsedAmountView),
}

/// The mathematical form of a [`Directive`].
pub enum DirectiveView {
    Include(Seq<char>),
    Setting(Seq<char>, Seq<char>),
    Unit(Seq<char>),
    Statement(StatementView),
}

impl<'s> View for Statement<'s> {
    type V = StatementView;

    open spec fn view(&self) -> StatementView {
        match *self {
            Statement::Custom(date, args) => StatementView::Custom(
                date,
                crate::text::strs_view(args@),
            ),
            Statement::OpenAccount(date, account) => StatementView::OpenAccount(date, account@),
            Statement::CloseAccount(date, account) => StatementView::CloseAccount(date, account@),
            Statement::Pad(date, target, source) => StatementView::Pad(date, target@, source@),
            Statement::Balance(date, account, amount) => StatementView::Balance(
                date,
                account@,
                amount@,
            ),
            Statement::Transaction(date, header, legs) => StatementView::Transaction(
                date,
                header@,
                legs@,
            ),
            Statement::Price(date, unit, amount) => StatementView::Price(date, unit@, amount@),
        }
    }
}

impl<'s> View for Directive<'s> {
    type V = DirectiveView;

    open spec fn view(&self) -> DirectiveView {
        match *self {
            Directive::Include(path) => DirectiveView::Include(path@),
            Directive::Setting(key, value) => DirectiveView::Setting(key@, value@),
            Directive::Unit(code) => DirectiveView::Unit(code@),
            Directive::Statement(statement) => DirectiveView::Statement(statement@),
        }
    }
}

/// The views of a sequence of directives.
pub open spec fn directives_view(directives: Seq<Directive<'_>>) -> Seq<DirectiveView> {
    Seq::new(directives.len(), |i: int| directives[i]@)
}

/// The error for a line that no rule of the grammar accepts.
pub open spec fn syntax(line: nat) -> ErrorView {
    ErrorView::Syntax { line }
}

/// Whether the token is the unquoted word `text`.
pub open spec fn is_word(t: TokenView, text: Seq<char>) -> bool {
    !t.quoted && t.text == text
}

/// A number and a unit: two words, the first a decimal number.
pub open spec fn plain_amount_spec(nominal: TokenView, currency: TokenView, line: nat) -> Result<
    PriceView,
    ErrorView,
> {
    if nominal.quoted || currency.quoted {
        Err(syntax(line))
    } else {
        match crate::decimal::parse_spec(nominal.text) {
            Some(d) => Ok(PriceView { nominal: d, currency: currency.text }),
            None => Err(ErrorView::InvalidNominal { text: nominal.text }),
        }
    }
}

/// An amount: a number and a unit, and optionally `@` and the price, again
/// a number and a unit.
pub open spec fn amount_spec(tokens: Seq<TokenView>, line: nat) -> Result<
    ParsedAmountView,
    ErrorView,
> {
    if tokens.len() == 2 {
        match plain_amount_spec(tokens[0], tokens[1], line) {
            Ok(a) => Ok(ParsedAmountView { nominal: a.nominal, currency: a.currency, price: None }),
            Err(e) => Err(e),
        }
    } else if tokens.len() == 5 && is_word(tokens[2], "@"@) {
        match plain_amount_spec(tokens[0], tokens[1], line) {
            Ok(a) => match plain_amount_spec(tokens[3], tokens[4], line) {
                Ok(p) => Ok(
                    ParsedAmountView { nominal: a.nominal, currency: a.currency, price: Some(p) },
                ),
                Err(e) => Err(e),
            },
            Err(e) => Err(e),
        }
    } else {
        Err(syntax(line))
    }
}

/// An account: a word that begins with the name of a kind and a colon.
pub open spec fn account_token_spec(t: TokenView, line: nat) -> Result<AccountPath, ErrorView> {
    if t.quoted {
        Err(syntax(line))
    } else {
        match crate::account::parse_spec(t.text) {
            Some(a) => Ok(a),
            None => Err(ErrorView::InvalidAccount { text: t.text }),
        }
    }
}

/// The state that the word `*`, `!` or `#` stands for.
pub open spec fn state_spec(t: TokenView) -> Option<TransactionState> {
    if is_word(t, "*"@) {
        Some(TransactionState::Settled)
    } else if is_word(t, "!"@) {
        Some(TransactionState::Unsettled)
    } else if is_word(t, "#"@) {
        Some(TransactionState::Recurring)
    } else {
        None
    }
}

/// The header of a transaction: the state, then the title in quotes, or the
/// payee and the title, each in quotes.
pub open spec fn header_spec(tokens: Seq<TokenView>, line: nat) -> Result<HeaderView, ErrorView> {
    if tokens.len() == 2 && state_spec(tokens[0]) is Some && tokens[1].quoted {
        Ok(HeaderView { state: state_spec(tokens[0])->0, payee: None, title: tokens[1].text })
    } else if tokens.len() == 3 && state_spec(tokens[0]) is Some && tokens[1].quoted
        && tokens[2].quoted {
        Ok(
            HeaderView {
                state: state_spec(tokens[0])->0,
                payee: Some(tokens[1].text),
                title: tokens[2].text,
            },
        )
    } else {
        Err(syntax(line))
    }
}

/// One leg as it is written.
pub struct WrittenLeg {
    pub account: AccountPath,
    pub amount: Option<ParsedAmountView>,
}

/// A leg: an account, and optionally its amount.
pub open spec fn leg_spec(line: LineView) -> Result<WrittenLeg, ErrorView> {
    if line.tokens.len() == 0 {
        Err(syntax(line.number))
    } else {
        match account_token_spec(line.tokens[0], line.number) {
            Ok(account) => if line.tokens.len() == 1 {
                Ok(WrittenLeg { account, amount: None })
            } else {
                match amount_spec(line.tokens.skip(1), line.number) {
                    Ok(a) => Ok(WrittenLeg { account, amount: Some(a) }),
                    Err(e) => Err(e),
                }
            },
            Err(e) => Err(e),
        }
    }
}

/// The first `count` lines of `body` as legs, in order; the error is that of
/// the first line that is no leg.
pub open spec fn legs_spec(body: Seq<LineView>, count: nat) -> Result<
    ParsedTransactionView,
    ErrorView,
>
    decreases count,
{
    if count == 0 {
        Ok(ParsedTransactionView { accounts: Seq::empty(), exchanges: Seq::empty() })
    } else {
        match legs_spec(body, (count - 1) as nat) {
            Ok(front) => match leg_spec(body[count - 1]) {
                Ok(leg) => Ok(
                    ParsedTransactionView {
                        accounts: front.accounts.push(leg.account),
                        exchanges: front.exchanges.push(leg.amount),
                    },
                ),
                Err(e) => Err(e),
            },
            Err(e) => Err(e),
        }
    }
}

/// The legs of a transaction: every line a leg, and at most one of them
/// without an amount.
pub open spec fn transaction_body_spec(body: Seq<LineView>) -> Result<
    ParsedTransactionView,
    ErrorView,
> {
    match legs_spec(body, body.len()) {
        Ok(legs) => if count_none(legs.exchanges) > 1 {
            Err(ErrorView::TooManyElided)
        } else {
            Ok(legs)
        },
        Err(e) => Err(e),
    }
}

/// Whether all tokens from `from` on are quoted strings.
pub open spec fn all_quoted(tokens: Seq<TokenView>, from: int) -> bool {
    forall|i: int| from <= i < tokens.len() ==> (#[trigger] tokens[i]).quoted
}

/// What stands behind the date on the first line of a statement other than
/// a transaction.
pub open spec fn simple_statement_spec(date: Date, head: LineView) -> Result<
    StatementView,
    ErrorView,
> {
    let tokens = head.tokens;
    let line = head.number;
    if tokens.len() < 2 {
        Err(syntax(line))
    } else if is_word(tokens[1], "custom"@) {
        if all_quoted(tokens, 2) {
            Ok(
                StatementView::Custom(
                    date,
                    Seq::new((tokens.len() - 2) as nat, |i: int| tokens[i + 2].text),
                ),
            )
        } else {
            Err(syntax(line))
        }
    } else if is_word(tokens[1], "open"@) {
        if tokens.len() == 3 {
            match account_token_spec(tokens[2], line) {
                Ok(a) => Ok(StatementView::OpenAccount(date, a)),
                Err(e) => Err(e),
            }
        } else {
            Err(syntax(line))
        }
    } else if is_word(tokens[1], "close"@) {
        if tokens.len() == 3 {
            match account_token_spec(tokens[2], line) {
                Ok(a) => Ok(StatementView::CloseAccount(date, a)),
                Err(e) => Err(e),
            }
        } else {
            Err(syntax(line))
        }
    } else if is_word(tokens[1], "pad"@) {
        if tokens.len() == 4 {
            match account_token_spec(tokens[2], line) {
                Ok(target) => match account_token_spec(tokens[3], line) {
                    Ok(source) => Ok(StatementView::Pad(date, target, source)),
                    Err(e) => Err(e),
                },
                Err(e) => Err(e),
            }
        } else {
            Err(syntax(line))
        }
    } else if is_word(tokens[1], "balance"@) {
        if tokens.len() >= 3 {
            match account_token_spec(tokens[2], line) {
                Ok(account) => match amount_spec(tokens.skip(3), line) {
                    Ok(amount) => Ok(StatementView::Balance(date, account, amount)),
                    Err(e) => Err(e),
                },
                Err(e) => Err(e),
            }
        } else {
            Err(syntax(line))
        }
    } else if is_word(tokens[1], "price"@) {
        if tokens.len() >= 3 && !tokens[2].quoted {
            match amount_spec(tokens.skip(3), line) {
                Ok(amount) => Ok(StatementView::Price(date, tokens[2].text, amount)),
                Err(e) => Err(e),
            }
        } else {
            Err(syntax(line))
        }
    } else {
        Err(syntax(line))
    }
}

/// The statement that the line `head`, dated `date`, and the indented lines
/// `body` below it make. Behind the date stands a state, which begins a
/// transaction with `body` as its legs, or a keyword; only a transaction has
/// lines below it.
pub open spec fn statement_spec(date: Date, head: LineView, body: Seq<LineView>) -> Result<
    StatementView,
    ErrorView,
> {
    if head.tokens.len() >= 2 && state_spec(head.tokens[1]) is Some {
        match header_spec(head.tokens.skip(1), head.number) {
            Ok(header) => match transaction_body_spec(body) {
                Ok(legs) => Ok(StatementView::Transaction(date, header, legs)),
                Err(e) => Err(e),
            },
            Err(e) => Err(e),
        }
    } else {
        match simple_statement_spec(date, head) {
            Ok(statement) => if body.len() > 0 {
                Err(syntax(body[0].number))
            } else {
                Ok(statement)
            },
            Err(e) => Err(e),
        }
    }
}

/// Whether `s` has the shape of a date: `YYYY-MM-DD`, all digits.
pub open spec fn is_date_shape(s: Seq<char>) -> bool {
    s.len() == 10 && s[4] == '-' && s[7] == '-' && forall|i: int|
        0 <= i < 10 && i != 4 && i != 7 ==> is_digit(#[trigger] s[i])
}

/// A directive that is no dated statement: `option` with a key and a value
/// in quotes, `unit` with a code, or `include` with a path in quotes.
pub open spec fn plain_directive_spec(head: LineView) -> Option<Result<DirectiveView, ErrorView>> {
    let tokens = head.tokens;
    if tokens.len() == 0 {
        Some(Err(syntax(head.number)))
    } else if is_word(tokens[0], "option"@) {
        Some(
            if tokens.len() == 3 && tokens[1].quoted && tokens[2].quoted {
                Ok(DirectiveView::Setting(tokens[1].text, tokens[2].text))
            } else {
                Err(syntax(head.number))
            },
        )
    } else if is_word(tokens[0], "unit"@) {
        Some(
            if tokens.len() == 2 && !tokens[1].quoted {
                Ok(DirectiveView::Unit(tokens[1].text))
            } else {
                Err(syntax(head.number))
            },
        )
    } else if is_word(tokens[0], "include"@) {
        Some(
            if tokens.len() == 2 && tokens[1].quoted {
                Ok(DirectiveView::Include(tokens[1].text))
            } else {
                Err(syntax(head.number))
            },
        )
    } else if tokens[0].quoted || !is_date_shape(tokens[0].text) {
        Some(Err(syntax(head.number)))
    } else {
        None
    }
}

/// The directive that the line `head` and the indented lines `body` below
/// it make. `parsed_date` is what the date parser made of the first word,
/// and counts only where that word has the shape of a date.
pub open spec fn directive_with_date_spec(
    head: LineView,
    body: Seq<LineView>,
    parsed_date: Option<Date>,
) -> Result<DirectiveView, ErrorView> {
    if head.indented {
        Err(syntax(head.number))
    } else {
        match plain_directive_spec(head) {
            Some(Ok(directive)) => if body.len() > 0 {
                Err(syntax(body[0].number))
            } else {
                Ok(directive)
            },
            Some(Err(e)) => Err(e),
            None => match parsed_date {
                Some(date) => match statement_spec(date, head, body) {
                    Ok(statement) => Ok(DirectiveView::Statement(statement)),
                    Err(e) => Err(e),
                },
                None => Err(ErrorView::InvalidDate { text: head.tokens[0].text }),
            },
        }
    }
}

/// The text of the first token of the line, or nothing where it has none.
pub open spec fn first_word(head: LineView) -> Seq<char> {
    if head.tokens.len() > 0 {
        head.tokens[0].text
    } else {
        Seq::empty()
    }
}

/// The directive that `head` and `body` make, with the date as chrono reads
/// it.
pub open spec fn directive_spec(head: LineView, body: Seq<LineView>) -> Result<
    DirectiveView,
    ErrorView,
> {
    directive_with_date_spec(head, body, chrono_parse_date(first_word(head), DATE_FORMAT@))
}

/// The end of the run of indented lines that begins at `pos`.
pub open spec fn block_end(lines: Seq<LineView>, pos: int) -> int
    decreases lines.len() - pos,
{
    if pos < 0 || pos >= lines.len() {
        lines.len() as int
    } else if !lines[pos].indented {
        pos
    } else {
        block_end(lines, pos + 1)
    }
}

/// `rest` behind the directive `first`, where both are there.
pub open spec fn directive_then(
    first: Result<DirectiveView, ErrorView>,
    rest: Result<Seq<DirectiveView>, ErrorView>,
) -> Result<Seq<DirectiveView>, ErrorView> {
    match first {
        Ok(d) => match rest {
            Ok(rest) => Ok(seq![d] + rest),
            Err(e) => Err(e),
        },
        Err(e) => Err(e),
    }
}

/// The directives that the lines from `pos` on make: each begins with one
/// line and takes the indented lines below it. The first error ends it.
pub open spec fn directives_from(lines: Seq<LineView>, pos: int) -> Result<
    Seq<DirectiveView>,
    ErrorView,
>
    decreases lines.len() - pos,
{
    if pos < 0 || pos >= lines.len() {
        Ok(Seq::empty())
    } else {
        let end = block_end(lines, pos + 1);
        if pos < end <= lines.len() {
            match directive_spec(lines[pos], lines.subrange(pos + 1, end)) {
                Ok(d) => directive_then(Ok(d), directives_from(lines, end)),
                Err(e) => Err(e),
            }
        } else {
            Err(syntax(lines[pos].number))
        }
    }
}

/// The directives of a ledger text.
pub open spec fn grammar_spec(input: Seq<char>) -> Result<Seq<DirectiveView>, ErrorView> {
    match crate::lexer::lex_spec(input) {
        Ok(lines) => directives_from(lines, 0),
        Err(e) => Err(e),
    }
}

/// The one directive of a text that holds exactly one.
pub open spec fn single_spec(input: Seq<char>) -> Result<DirectiveView, ErrorView> {
    match grammar_spec(input) {
        Ok(directives) => if directives.len() == 1 {
            Ok(directives[0])
        } else {
            Err(syntax(1))
        },
        Err(e) => Err(e),
    }
}

/// The one dated statement of a text that holds exactly one directive.
pub open spec fn single_statement_spec(input: Seq<char>) -> Result<StatementView, ErrorView> {
    match single_spec(input) {
        Ok(DirectiveView::Statement(statement)) => Ok(statement),
        Ok(_) => Err(syntax(1)),
        Err(e) => Err(e),
    }
}

/// Whether the two lists of a transaction's legs have the same length; true
/// of every other statement.
pub open spec fn legs_match(statement: StatementView) -> bool {
    statement matches StatementView::Transaction(_, _, legs) ==> legs.accounts.len()
        == legs.exchanges.len()
}

/// Whether the directive, if it is a transaction, has matching legs.
pub open spec fn directive_ready(directive: DirectiveView) -> bool {
    directive matches DirectiveView::Statement(s) ==> legs_match(s)
}

/// The grammar gives every leg an account and a place for its amount.
pub proof fn lemma_legs_lengths(body: Seq<LineView>, count: nat)
    ensures
        legs_spec(body, count) matches Ok(legs) ==> legs.accounts.len() == count
            && legs.exchanges.len() == count,
    decreases count,
{
    if count > 0 {
        lemma_legs_lengths(body, (count - 1) as nat);
    }
}

/// A directive that the grammar builds has matching legs.
pub proof fn lemma_directive_ready(head: LineView, body: Seq<LineView>, parsed_date: Option<Date>)
    ensures
        directive_with_date_spec(head, body, parsed_date) matches Ok(d) ==> directive_ready(d),
{
    lemma_legs_lengths(body, body.len());
}

/// All the directives that the grammar builds have matching legs.
pub proof fn lemma_directives_ready(lines: Seq<LineView>, pos: int)
    ensures
        directives_from(lines, pos) matches Ok(ds) ==> forall|i: int|
            0 <= i < ds.len() ==> directive_ready(#[trigger] ds[i]),
    decreases lines.len() - pos,
{
    if 0 <= pos < lines.len() {
        let end = block_end(lines, pos + 1);
        if pos < end <= lines.len() {
            let body = lines.subrange(pos + 1, end);
            lemma_directive_ready(
                lines[pos],
                body,
                chrono_parse_date(first_word(lines[pos]), DATE_FORMAT@),
            );
            lemma_directives_ready(lines, end);
        }
    }
}

/// All the directives of a text that the grammar accepts have matching
/// legs.
pub proof fn lemma_grammar_ready(input: Seq<char>)
    ensures
        grammar_spec(input) matches Ok(ds) ==> forall|i: int|
            0 <= i < ds.len() ==> directive_ready(#[trigger] ds[i]),
{
    match crate::lexer::lex_spec(input) {
        Ok(lines) => {
            lemma_directives_ready(lines, 0);
        },
        Err(_) => {},
    }
}

} // verus!
