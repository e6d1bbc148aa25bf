//! The parser: from token lines to directives, by the grammar of
//! `statement`.

use crate::account::{AccountPath, ParsedAccount};
use crate::amount::{ParsedAmount, ParsedAmountView, Price, PriceView};
use crate::date::Date;
use crate::decimal::Decimal;
use crate::error::{fail, reports, Error, ErrorContext, ErrorView};
use crate::ledger::{empty_ledger, run_spec, Ledger, LedgerView};
use crate::lexer::{lex, lex_spec, lines_view, tokens_view, Line, LineView, Token};
use crate::statement::{
    account_token_spec, all_quoted, amount_spec, block_end, directive_spec,
    directive_with_date_spec, directives_from, directives_view, grammar_spec, header_spec,
    is_date_shape, is_word, legs_spec, lemma_grammar_ready, plain_amount_spec, single_spec,
    single_statement_spec, plain_directive_spec, simple_statement_spec, state_spec, statement_spec,
    syntax, transaction_body_spec, Directive, DirectiveView, Statement, StatementView,
};
use crate::text::{is_digit, strs_view, to_chars};
use crate::transaction::{
    count_none, optional_amount_view, HeaderView, ParsedTransaction, ParsedTransactionView,
    TransactionState, TxnHeader,
};
use vstd::prelude::*;
use vstd::string::*;

verus! {

/// Whether the token is the unquoted word `word`.
fn word_is(t: &Token<'_>, word: &str) -> (r: bool)
    ensures
        r == is_word(t@, word@),
{
    !t.quoted && *t.text == *word
}

/// The text inside a quoted string.
pub fn inner_str<'a>(token: Token<'a>) -> (r: &'a str)
    requires
        token.quoted,
    ensures
        r@ == token@.text,
{
    token.text
}

/// The state that the token stands for, if it is `*`, `!` or `#`.
fn state_of(t: &Token<'_>) -> (r: Option<TransactionState>)
    ensures
        r == state_spec(t@),
{
    if word_is(t, "*") {
        Some(TransactionState::Settled)
    } else if word_is(t, "!") {
        Some(TransactionState::Unsettled)
    } else if word_is(t, "#") {
        Some(TransactionState::Recurring)
    } else {
        None
    }
}

/// Reads an account from a token.
fn account_token<'a>(t: &Token<'a>, line: usize) -> (r: Result<ParsedAccount<'a>, Error>)
    ensures
        match r {
            Ok(a) => account_token_spec(t@, line as nat) == Ok::<AccountPath, ErrorView>(a@),
            Err(e) => account_token_spec(t@, line as nat) is Err && reports(
                e,
                account_token_spec(t@, line as nat)->Err_0,
            ),
        },
{
    if t.quoted {
        return Err(fail(ErrorContext::Syntax { line }));
    }
    ParsedAccount::parse(t.text)
}

impl<'p> Price<'p> {
    /// Reads a number and a unit from two tokens.
    pub fn parse(nominal: &Token<'p>, currency: &Token<'p>, line: usize) -> (r: Result<
        Price<'p>,
        Error,
    >)
        ensures
            match r {
                Ok(p) => plain_amount_spec(nominal@, currency@, line as nat) == Ok::<
                    PriceView,
                    ErrorView,
                >(p@),
                Err(e) => plain_amount_spec(nominal@, currency@, line as nat) is Err && reports(
                    e,
                    plain_amount_spec(nominal@, currency@, line as nat)->Err_0,
                ),
            },
    {
        if nominal.quoted || currency.quoted {
            return Err(fail(ErrorContext::Syntax { line }));
        }
        match Decimal::parse(nominal.text) {
            Some(d) => Ok(Price { nominal: d, currency: currency.text }),
            None => Err(fail(ErrorContext::InvalidNominal { text: nominal.text.to_owned() })),
        }
    }
}

impl<'a> ParsedAmount<'a> {
    /// Reads an amount from the tokens that begin at `from`: a number and a
    /// unit, and optionally `@` and a price.
    pub fn parse(tokens: &Vec<Token<'a>>, from: usize, line: usize) -> (r: Result<
        ParsedAmount<'a>,
        Error,
    >)
        requires
            from <= tokens@.len(),
        ensures
            match r {
                Ok(a) => amount_spec(tokens_view(tokens@).skip(from as int), line as nat) == Ok::<
                    ParsedAmountView,
                    ErrorView,
                >(a@),
                Err(e) => amount_spec(tokens_view(tokens@).skip(from as int), line as nat) is Err
                    && reports(
                    e,
                    amount_spec(tokens_view(tokens@).skip(from as int), line as nat)->Err_0,
                ),
            },
    {
        let count = tokens.len() - from;
        if count == 2 {
            match Price::parse(&tokens[from], &tokens[from + 1], line) {
                Ok(a) => Ok(ParsedAmount { nominal: a.nominal, currency: a.currency, price: None }),
                Err(e) => Err(e),
            }
        } else if count == 5 && word_is(&tokens[from + 2], "@") {
            let a = match Price::parse(&tokens[from], &tokens[from + 1], line) {
                Ok(a) => a,
                Err(e) => {
                    return Err(e);
                },
            };
            match Price::parse(&tokens[from + 3], &tokens[from + 4], line) {
                Ok(p) => Ok(
                    ParsedAmount { nominal: a.nominal, currency: a.currency, price: Some(p) },
                ),
                Err(e) => Err(e),
            }
        } else {
            Err(fail(ErrorContext::Syntax { line }))
        }
    }
}

impl<'th> TxnHeader<'th> {
    /// Reads the header of a transaction from the tokens that begin at
    /// `from`: the state, then the title, or the payee and the title.
    pub fn parse(tokens: &Vec<Token<'th>>, from: usize, line: usize) -> (r: Result<
        TxnHeader<'th>,
        Error,
    >)
        requires
            from <= tokens@.len(),
        ensures
            match r {
                Ok(h) => header_spec(tokens_view(tokens@).skip(from as int), line as nat) == Ok::<
                    HeaderView,
                    ErrorView,
                >(h@),
                Err(e) => header_spec(tokens_view(tokens@).skip(from as int), line as nat) is Err
                    && reports(e, syntax(line as nat)),
            },
    {
        let count = tokens.len() - from;
        if count != 2 && count != 3 {
            return Err(fail(ErrorContext::Syntax { line }));
        }
        let state = match state_of(&tokens[from]) {
            Some(state) => state,
            None => {
                return Err(fail(ErrorContext::Syntax { line }));
            },
        };
        if !tokens[from + 1].quoted {
            return Err(fail(ErrorContext::Syntax { line }));
        }
        let mut title = tokens[from + 1].text;
        let mut payee = None;
        if count == 3 {
            if !tokens[from + 2].quoted {
                return Err(fail(ErrorContext::Syntax { line }));
            }
            payee = Some(title);
            title = tokens[from + 2].text;
        }
        Ok(TxnHeader { state, payee, title })
    }
}

/// Once the first `count` lines fail to make legs, all of them fail in the
/// same way.
proof fn lemma_legs_fails(body: Seq<LineView>, count: nat, all: nat)
    requires
        count <= all,
        legs_spec(body, count) is Err,
    ensures
        legs_spec(body, all) == legs_spec(body, count),
    decreases all - count,
{
    if count < all {
        lemma_legs_fails(body, count, (all - 1) as nat);
    }
}

/// The legs that a body makes depend on no line behind it.
proof fn lemma_legs_prefix(lines: Seq<LineView>, start: int, end: int, count: nat)
    requires
        0 <= start <= end <= lines.len(),
        count <= end - start,
    ensures
        legs_spec(lines.subrange(start, end), count) == legs_spec(lines.skip(start), count),
    decreases count,
{
    if count > 0 {
        lemma_legs_prefix(lines, start, end, (count - 1) as nat);
    }
}

impl<'tl> ParsedTransaction<'tl> {
    /// Reads the legs of a transaction from the lines `start..end`: on each
    /// line an account and, optionally, its amount. At most one leg may be
    /// without an amount.
    pub fn parse(lines: &Vec<Line<'tl>>, start: usize, end: usize) -> (r: Result<
        ParsedTransaction<'tl>,
        Error,
    >)
        requires
            start <= end <= lines@.len(),
        ensures
            match r {
                Ok(p) => transaction_body_spec(
                    lines_view(lines@).subrange(start as int, end as int),
                ) == Ok::<ParsedTransactionView, ErrorView>(p@) && p.accounts@.len()
                    == p.exchanges@.len(),
                Err(e) => transaction_body_spec(
                    lines_view(lines@).subrange(start as int, end as int),
                ) is Err && reports(
                    e,
                    transaction_body_spec(
                        lines_view(lines@).subrange(start as int, end as int),
                    )->Err_0,
                ),
            },
    {
        let ghost body = lines_view(lines@).subrange(start as int, end as int);
        let mut txnlist = ParsedTransaction { accounts: Vec::new(), exchanges: Vec::new() };
        let mut elided: usize = 0;
        let mut i: usize = start;
        assert(txnlist@.accounts =~= Seq::<AccountPath>::empty());
        assert(txnlist@.exchanges =~= Seq::<Option<ParsedAmountView>>::empty());
        while i < end
            invariant
                start <= i <= end <= lines@.len(),
                body == lines_view(lines@).subrange(start as int, end as int),
                legs_spec(body, (i - start) as nat) == Ok::<ParsedTransactionView, ErrorView>(
                    txnlist@,
                ),
                txnlist.accounts@.len() == i - start,
                txnlist.exchanges@.len() == i - start,
                elided <= i - start,
                elided == count_none(txnlist@.exchanges),
            decreases end - i,
        {
            let line = &lines[i];
            let ghost before = txnlist@;
            assert(body[i - start] == line@);
            if line.tokens.len() == 0 {
                proof {
                    lemma_legs_fails(body, (i - start + 1) as nat, (end - start) as nat);
                }
                return Err(fail(ErrorContext::Syntax { line: line.number }));
            }
            assert(tokens_view(line.tokens@)[0] == line.tokens@[0]@);
            let account = match account_token(&line.tokens[0], line.number) {
                Ok(a) => a,
                Err(e) => {
                    proof {
                        lemma_legs_fails(body, (i - start + 1) as nat, (end - start) as nat);
                    }
                    return Err(e);
                },
            };
            let exchg = if line.tokens.len() == 1 {
                None
            } else {
                match ParsedAmount::parse(&line.tokens, 1, line.number) {
                    Ok(a) => Some(a),
                    Err(e) => {
                        proof {
                            lemma_legs_fails(body, (i - start + 1) as nat, (end - start) as nat);
                        }
                        return Err(e);
                    },
                }
            };
            if exchg.is_none() {
                elided += 1;
            }
            txnlist.accounts.push(account);
            txnlist.exchanges.push(exchg);
            proof {
                assert(txnlist@.accounts =~= before.accounts.push(account@));
                assert(txnlist@.exchanges =~= before.exchanges.push(optional_amount_view(exchg)));
                assert(txnlist@.exchanges.drop_last() =~= before.exchanges);
            }
            i += 1;
        }
        if elided > 1 {
            return Err(fail(ErrorContext::TooManyElided));
        }
        Ok(txnlist)
    }
}

/// The texts of the tokens from `from` on, if all of them are quoted.
fn quoted_texts<'a>(tokens: &Vec<Token<'a>>, from: usize) -> (r: Option<Vec<&'a str>>)
    requires
        from <= tokens@.len(),
    ensures
        match r {
            Some(texts) => all_quoted(tokens_view(tokens@), from as int) && strs_view(texts@)
                == Seq::new(
                (tokens@.len() - from) as nat,
                |i: int| tokens_view(tokens@)[i + from].text,
            ),
            None => !all_quoted(tokens_view(tokens@), from as int),
        },
{
    let mut texts: Vec<&'a str> = Vec::new();
    let mut i: usize = from;
    while i < tokens.len()
        invariant
            from <= i <= tokens@.len(),
            texts@.len() == i - from,
            forall|k: int| from <= k < i ==> (#[trigger] tokens_view(tokens@)[k]).quoted,
            forall|k: int| 0 <= k < i - from ==> (#[trigger] texts@[k])@ == tokens@[k + from]@.text,
        decreases tokens.len() - i,
    {
        if !tokens[i].quoted {
            assert(!tokens_view(tokens@)[i as int].quoted);
            return None;
        }
        texts.push(tokens[i].text);
        i += 1;
    }
    assert(strs_view(texts@) =~= Seq::new(
        (tokens@.len() - from) as nat,
        |i: int| tokens_view(tokens@)[i + from].text,
    ));
    Some(texts)
}

impl<'s> Statement<'s> {
    /// Builds a statement other than a transaction from its line.
    fn simple(date: Date, head: &Line<'s>) -> (r: Result<Statement<'s>, Error>)
        ensures
            match r {
                Ok(s) => simple_statement_spec(date, head@) == Ok::<StatementView, ErrorView>(s@),
                Err(e) => simple_statement_spec(date, head@) is Err && reports(
                    e,
                    simple_statement_spec(date, head@)->Err_0,
                ),
            },
    {
        let tokens = &head.tokens;
        let line = head.number;
        let n = tokens.len();
        let ghost views = tokens_view(tokens@);
        if n < 2 {
            return Err(fail(ErrorContext::Syntax { line }));
        }
        assert(views[1] == tokens@[1]@);
        let key = &tokens[1];
        if word_is(key, "custom") {
            match quoted_texts(tokens, 2) {
                Some(args) => Ok(Statement::Custom(date, args)),
                None => Err(fail(ErrorContext::Syntax { line })),
            }
        } else if word_is(key, "open") {
            if n != 3 {
                return Err(fail(ErrorContext::Syntax { line }));
            }
            assert(views[2] == tokens@[2]@);
            match account_token(&tokens[2], line) {
                Ok(a) => Ok(Statement::OpenAccount(date, a)),
                Err(e) => Err(e),
            }
        } else if word_is(key, "close") {
            if n != 3 {
                return Err(fail(ErrorContext::Syntax { line }));
            }
            assert(views[2] == tokens@[2]@);
            match account_token(&tokens[2], line) {
                Ok(a) => Ok(Statement::CloseAccount(date, a)),
                Err(e) => Err(e),
            }
        } else if word_is(key, "pad") {
            if n != 4 {
                return Err(fail(ErrorContext::Syntax { line }));
            }
            assert(views[2] == tokens@[2]@);
            assert(views[3] == tokens@[3]@);
            let target = match account_token(&tokens[2], line) {
                Ok(a) => a,
                Err(e) => {
                    return Err(e);
                },
            };
            match account_token(&tokens[3], line) {
                Ok(source) => Ok(Statement::Pad(date, target, source)),
                Err(e) => Err(e),
            }
        } else if word_is(key, "balance") {
            if n < 3 {
                return Err(fail(ErrorContext::Syntax { line }));
            }
            assert(views[2] == tokens@[2]@);
            let account = match account_token(&tokens[2], line) {
                Ok(a) => a,
                Err(e) => {
                    return Err(e);
                },
            };
            match ParsedAmount::parse(tokens, 3, line) {
                Ok(amount) => Ok(Statement::Balance(date, account, amount)),
                Err(e) => Err(e),
            }
        } else if word_is(key, "price") {
            if n < 3 || tokens[2].quoted {
                assert(n >= 3 ==> views[2] == tokens@[2]@);
                return Err(fail(ErrorContext::Syntax { line }));
            }
            assert(views[2] == tokens@[2]@);
            match ParsedAmount::parse(tokens, 3, line) {
                Ok(amount) => Ok(Statement::Price(date, tokens[2].text, amount)),
                Err(e) => Err(e),
            }
        } else {
            Err(fail(ErrorContext::Syntax { line }))
        }
    }

    /// Builds the statement dated `date` whose first line is `lines[at]` and
    /// whose indented lines are `lines[at + 1..end]`.
    pub fn into_statement(date: Date, lines: &Vec<Line<'s>>, at: usize, end: usize) -> (r: Result<
        Statement<'s>,
        Error,
    >)
        requires
            at < end <= lines@.len(),
        ensures
            match r {
                Ok(s) => statement_spec(
                    date,
                    lines_view(lines@)[at as int],
                    lines_view(lines@).subrange(at + 1, end as int),
                ) == Ok::<StatementView, ErrorView>(s@),
                Err(e) => statement_spec(
                    date,
                    lines_view(lines@)[at as int],
                    lines_view(lines@).subrange(at + 1, end as int),
                ) is Err && reports(
                    e,
                    statement_spec(
                        date,
                        lines_view(lines@)[at as int],
                        lines_view(lines@).subrange(at + 1, end as int),
                    )->Err_0,
                ),
            },
    {
        let head = &lines[at];
        let ghost body = lines_view(lines@).subrange(at + 1, end as int);
        assert(lines_view(lines@)[at as int] == head@);
        let is_transaction = if head.tokens.len() >= 2 {
            assert(tokens_view(head.tokens@)[1] == head.tokens@[1]@);
            state_of(&head.tokens[1]).is_some()
        } else {
            false
        };
        if is_transaction {
            let header = match TxnHeader::parse(&head.tokens, 1, head.number) {
                Ok(h) => h,
                Err(e) => {
                    return Err(e);
                },
            };
            match ParsedTransaction::parse(lines, at + 1, end) {
                Ok(legs) => Ok(Statement::Transaction(date, header, legs)),
                Err(e) => Err(e),
            }
        } else {
            match Statement::simple(date, head) {
                Ok(statement) => if at + 1 < end {
                    assert(body[0] == lines@[at + 1]@);
                    Err(fail(ErrorContext::Syntax { line: lines[at + 1].number }))
                } else {
                    Ok(statement)
                },
                Err(e) => Err(e),
            }
        }
    }
}

/// Whether `text` has the shape of a date: `YYYY-MM-DD`, all digits.
pub fn has_date_shape(text: &str) -> (r: bool)
    ensures
        r == is_date_shape(text@),
{
    let chars = to_chars(text);
    if chars.len() != 10 {
        return false;
    }
    let mut i: usize = 0;
    while i < 10
        invariant
            i <= 10,
            chars@.len() == 10,
            chars@ == text@,
            forall|k: int|
                0 <= k < i ==> if k == 4 || k == 7 {
                    chars@[k] == '-'
                } else {
                    is_digit(chars@[k])
                },
        decreases 10 - i,
    {
        let c = chars[i];
        if i == 4 || i == 7 {
            if c != '-' {
                return false;
            }
        } else if !('0' <= c && c <= '9') {
            assert(!is_digit(text@[i as int]));
            return false;
        }
        i += 1;
    }
    true
}

/// The grammar of ledger texts.
pub struct LedgerParser;

impl LedgerParser {
    /// A directive that is no dated statement, or `None` where the line
    /// begins with a date.
    fn plain_directive<'s>(head: &Line<'s>) -> (r: Option<Result<Directive<'s>, Error>>)
        ensures
            match r {
                Some(Ok(d)) => plain_directive_spec(head@) == Some(
                    Ok::<DirectiveView, ErrorView>(d@),
                ),
                Some(Err(e)) => plain_directive_spec(head@) == Some(
                    Err::<DirectiveView, ErrorView>(syntax(head@.number)),
                ) && reports(e, syntax(head@.number)),
                None => plain_directive_spec(head@) is None && head.tokens@.len() > 0,
            },
    {
        let tokens = &head.tokens;
        let n = tokens.len();
        let line = head.number;
        let ghost views = tokens_view(tokens@);
        if n == 0 {
            return Some(Err(fail(ErrorContext::Syntax { line })));
        }
        assert(views[0] == tokens@[0]@);
        assert(n > 1 ==> views[1] == tokens@[1]@);
        assert(n > 2 ==> views[2] == tokens@[2]@);
        if word_is(&tokens[0], "option") {
            if n == 3 && tokens[1].quoted && tokens[2].quoted {
                Some(Ok(Directive::Setting(tokens[1].text, tokens[2].text)))
            } else {
                Some(Err(fail(ErrorContext::Syntax { line })))
            }
        } else if word_is(&tokens[0], "unit") {
            if n == 2 && !tokens[1].quoted {
                Some(Ok(Directive::Unit(tokens[1].text)))
            } else {
                Some(Err(fail(ErrorContext::Syntax { line })))
            }
        } else if word_is(&tokens[0], "include") {
            if n == 2 && tokens[1].quoted {
                Some(Ok(Directive::Include(tokens[1].text)))
            } else {
                Some(Err(fail(ErrorContext::Syntax { line })))
            }
        } else if tokens[0].quoted || !has_date_shape(tokens[0].text) {
            Some(Err(fail(ErrorContext::Syntax { line })))
        } else {
            None
        }
    }

    /// Builds the directive whose first line is `lines[at]` and whose
    /// indented lines are `lines[at + 1..end]`, given what the date parser
    /// made of the first word of `lines[at]`.
    pub fn directive_with_date<'s>(
        lines: &Vec<Line<'s>>,
        at: usize,
        end: usize,
        parsed_date: Option<Date>,
    ) -> (r: Result<Directive<'s>, Error>)
        requires
            at < end <= lines@.len(),
        ensures
            match r {
                Ok(d) => directive_with_date_spec(
                    lines_view(lines@)[at as int],
                    lines_view(lines@).subrange(at + 1, end as int),
                    parsed_date,
                ) == Ok::<DirectiveView, ErrorView>(d@),
                Err(e) => directive_with_date_spec(
                    lines_view(lines@)[at as int],
                    lines_view(lines@).subrange(at + 1, end as int),
                    parsed_date,
                ) is Err && reports(
                    e,
                    directive_with_date_spec(
                        lines_view(lines@)[at as int],
                        lines_view(lines@).subrange(at + 1, end as int),
                        parsed_date,
                    )->Err_0,
                ),
            },
    {
        let head = &lines[at];
        let ghost body = lines_view(lines@).subrange(at + 1, end as int);
        assert(lines_view(lines@)[at as int] == head@);
        if head.indented {
            return Err(fail(ErrorContext::Syntax { line: head.number }));
        }
        match LedgerParser::plain_directive(head) {
            Some(Ok(directive)) => if at + 1 < end {
                assert(body[0] == lines@[at + 1]@);
                Err(fail(ErrorContext::Syntax { line: lines[at + 1].number }))
            } else {
                Ok(directive)
            },
            Some(Err(e)) => Err(e),
            None => match parsed_date {
                Some(date) => match Statement::into_statement(date, lines, at, end) {
                    Ok(statement) => Ok(Directive::Statement(statement)),
                    Err(e) => Err(e),
                },
                None => {
                    assert(tokens_view(head.tokens@)[0] == head.tokens@[0]@);
                    Err(fail(ErrorContext::InvalidDate { text: head.tokens[0].text.to_owned() }))
                },
            },
        }
    }

    /// Builds the directive whose first line is `lines[at]` and whose
    /// indented lines are `lines[at + 1..end]`.
    pub fn directive<'s>(lines: &Vec<Line<'s>>, at: usize, end: usize) -> (r: Result<
        Directive<'s>,
        Error,
    >)
        requires
            at < end <= lines@.len(),
        ensures
            match r {
                Ok(d) => directive_spec(
                    lines_view(lines@)[at as int],
                    lines_view(lines@).subrange(at + 1, end as int),
                ) == Ok::<DirectiveView, ErrorView>(d@),
                Err(e) => directive_spec(
                    lines_view(lines@)[at as int],
                    lines_view(lines@).subrange(at + 1, end as int),
                ) is Err && reports(
                    e,
                    directive_spec(
                        lines_view(lines@)[at as int],
                        lines_view(lines@).subrange(at + 1, end as int),
                    )->Err_0,
                ),
            },
    {
        let head = &lines[at];
        assert(lines_view(lines@)[at as int] == head@);
        let parsed_date = if head.tokens.len() > 0 {
            assert(tokens_view(head.tokens@)[0] == head.tokens@[0]@);
            Date::parse(head.tokens[0].text)
        } else {
            None
        };
        proof {
            let h = lines_view(lines@)[at as int];
            let body = lines_view(lines@).subrange(at + 1, end as int);
            if head.tokens@.len() == 0 {
                assert(plain_directive_spec(h) is Some);
                assert(directive_with_date_spec(h, body, parsed_date) == directive_spec(h, body));
            }
        }
        LedgerParser::directive_with_date(lines, at, end, parsed_date)
    }

    /// Reads the directives of a ledger text, in order. The first line that
    /// the grammar does not accept ends the parse with its error.
    pub fn parse<'s>(input: &'s str) -> (r: Result<Vec<Directive<'s>>, Error>)
        ensures
            match r {
                Ok(ds) => grammar_spec(input@) == Ok::<Seq<DirectiveView>, ErrorView>(
                    directives_view(ds@),
                ),
                Err(e) => grammar_spec(input@) is Err && reports(e, grammar_spec(input@)->Err_0),
            },
    {
        let lines = match lex(input) {
            Ok(lines) => lines,
            Err(e) => {
                return Err(e);
            },
        };
        let ghost views = lines_view(lines@);
        let n = lines.len();
        let mut directives: Vec<Directive<'s>> = Vec::new();
        let mut pos: usize = 0;
        proof {
            assert(directives_view(directives@) =~= Seq::<DirectiveView>::empty());
            let whole = directives_from(views, 0);
            if whole is Ok {
                assert(Seq::<DirectiveView>::empty() + whole->Ok_0 =~= whole->Ok_0);
            }
        }
        while pos < n
            invariant
                pos <= n,
                n == lines@.len(),
                views == lines_view(lines@),
                lex_spec(input@) == Ok::<Seq<LineView>, ErrorView>(views),
                directives_from(views, 0) == match directives_from(views, pos as int) {
                    Ok(rest) => Ok::<Seq<DirectiveView>, ErrorView>(
                        directives_view(directives@) + rest,
                    ),
                    Err(e) => Err(e),
                },
            decreases n - pos,
        {
            let mut end: usize = pos + 1;
            while end < n && lines[end].indented
                invariant
                    pos < end <= n,
                    n == lines@.len(),
                    views == lines_view(lines@),
                    block_end(views, pos + 1) == block_end(views, end as int),
                decreases n - end,
            {
                assert(views[end as int] == lines@[end as int]@);
                end += 1;
            }
            proof {
                if end < n {
                    assert(views[end as int] == lines@[end as int]@);
                }
                assert(block_end(views, pos + 1) == end);
            }
            let ghost before = directives_view(directives@);
            match LedgerParser::directive(&lines, pos, end) {
                Ok(d) => {
                    directives.push(d);
                    proof {
                        assert(directives_view(directives@) =~= before.push(d@));
                        let tail = directives_from(views, end as int);
                        if tail is Ok {
                            assert(before + (seq![d@] + tail->Ok_0) =~= before.push(d@)
                                + tail->Ok_0);
                        }
                    }
                },
                Err(e) => {
                    return Err(e);
                },
            }
            pos = end;
        }
        proof {
            assert(directives_view(directives@) + Seq::<DirectiveView>::empty()
                =~= directives_view(directives@));
        }
        Ok(directives)
    }
}

impl LedgerParser {
    /// Reads a text that holds exactly one directive.
    pub fn single<'s>(input: &'s str) -> (r: Result<Directive<'s>, Error>)
        ensures
            match r {
                Ok(d) => single_spec(input@) == Ok::<DirectiveView, ErrorView>(d@),
                Err(e) => single_spec(input@) is Err && reports(e, single_spec(input@)->Err_0),
            },
    {
        let mut directives = match LedgerParser::parse(input) {
            Ok(ds) => ds,
            Err(e) => {
                return Err(e);
            },
        };
        if directives.len() != 1 {
            return Err(fail(ErrorContext::Syntax { line: 1 }));
        }
        let ghost views = directives_view(directives@);
        assert(views[0] == directives@[0]@);
        match directives.pop() {
            Some(d) => Ok(d),
            None => Err(fail(ErrorContext::Syntax { line: 1 })),
        }
    }
}

impl<'s> Statement<'s> {
    /// Reads a text that holds exactly one dated statement.
    pub fn parse(input: &'s str) -> (r: Result<Statement<'s>, Error>)
        ensures
            match r {
                Ok(s) => single_statement_spec(input@) == Ok::<StatementView, ErrorView>(s@),
                Err(e) => single_statement_spec(input@) is Err && reports(
                    e,
                    single_statement_spec(input@)->Err_0,
                ),
            },
    {
        match LedgerParser::single(input) {
            Ok(Directive::Statement(statement)) => Ok(statement),
            Ok(_) => Err(fail(ErrorContext::Syntax { line: 1 })),
            Err(e) => Err(e),
        }
    }
}

/// The ledger that `start` becomes when the directives of `input` are
/// applied to it in order.
pub open spec fn parse_spec(input: Seq<char>, start: LedgerView) -> Result<LedgerView, ErrorView> {
    match grammar_spec(input) {
        Ok(directives) => run_spec(start, directives),
        Err(e) => Err(e),
    }
}

/// The ledger that a parse starts from.
pub open spec fn start_spec(carried_ledger: Option<Ledger>) -> LedgerView {
    match carried_ledger {
        Some(ledger) => ledger@,
        None => empty_ledger(),
    }
}

/// Reads a ledger text and applies its directives, in order, to the ledger
/// that is handed in, or to a new one. The first error ends the parse, and
/// no ledger is returned. This function reads no files: an `include` is
/// such an error.
pub fn parse(input: &str, carried_ledger: Option<Ledger>) -> (r: Result<Ledger, Error>)
    requires
        carried_ledger matches Some(ledger) ==> ledger.well_formed(),
    ensures
        match r {
            Ok(ledger) => ledger.well_formed() && parse_spec(input@, start_spec(carried_ledger))
                == Ok::<LedgerView, ErrorView>(ledger@),
            Err(e) => parse_spec(input@, start_spec(carried_ledger)) is Err && reports(
                e,
                parse_spec(input@, start_spec(carried_ledger))->Err_0,
            ),
        },
{
    let ghost start = start_spec(carried_ledger);
    let mut ledger = match carried_ledger {
        Some(ledger) => ledger,
        None => Ledger::new(),
    };
    let directives = match LedgerParser::parse(input) {
        Ok(ds) => ds,
        Err(e) => {
            return Err(e);
        },
    };
    let ghost views = directives_view(directives@);
    proof {
        lemma_grammar_ready(input@);
        assert(views.skip(0) =~= views);
    }
    let mut i: usize = 0;
    while i < directives.len()
        invariant
            i <= directives.len(),
            views == directives_view(directives@),
            grammar_spec(input@) == Ok::<Seq<DirectiveView>, ErrorView>(views),
            start == start_spec(carried_ledger),
            ledger.well_formed(),
            forall|k: int| 0 <= k < views.len() ==> crate::statement::directive_ready(
                #[trigger] views[k],
            ),
            run_spec(start, views) == run_spec(ledger@, views.skip(i as int)),
        decreases directives.len() - i,
    {
        proof {
            assert(views.skip(i as int)[0] == directives@[i as int]@);
            assert(views[i as int] == directives@[i as int]@);
            assert(views.skip(i as int).drop_first() =~= views.skip(i + 1));
        }
        match ledger.process_directive(&directives[i]) {
            Ok(()) => {},
            Err(e) => {
                return Err(e);
            },
        }
        i += 1;
    }
    Ok(ledger)
}

} // verus!
