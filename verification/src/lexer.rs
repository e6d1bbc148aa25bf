//! The lexical layer: a ledger text is cut into lines, and each line into
//! words and quoted strings.

use crate::error::{fail, reports, Error, ErrorContext, ErrorView};
use crate::text::{first_index, split, split_spec, strs_view, to_chars};
use vstd::prelude::*;
use vstd::string::*;

verus! {

/// A word, or the inside of a quoted string.
#[derive(Clone, Copy, Debug, PartialEq)]
pub struct Token<'a> {
    pub text: &'a str,
    pub quoted: bool,
}

/// A line that holds at least one token. `number` counts the lines of the
/// text from 1; `indented` says that the line begins with a blank.
#[derive(Debug, PartialEq)]
pub struct Line<'a> {
    pub number: usize,
    pub indented: bool,
    pub tokens: Vec<Token<'a>>,
}

/// The mathematical form of a [`Token`].
pub struct TokenView {
    pub text: Seq<char>,
    pub quoted: bool,
}

/// The mathematical form of a [`Line`].
pub struct LineView {
    pub number: nat,
    pub indented: bool,
    pub tokens: Seq<TokenView>,
}

impl<'a> View for Token<'a> {
    type V = TokenView;

    open spec fn view(&self) -> TokenView {
        TokenView { text: self.text@, quoted: self.quoted }
    }
}

/// The views of a sequence of tokens.
pub open spec fn tokens_view(tokens: Seq<Token<'_>>) -> Seq<TokenView> {
    Seq::new(tokens.len(), |i: int| tokens[i]@)
}

impl<'a> View for Line<'a> {
    type V = LineView;

    open spec fn view(&self) -> LineView {
        LineView {
            number: self.number as nat,
            indented: self.indented,
            tokens: tokens_view(self.tokens@),
        }
    }
}

/// The views of a sequence of lines.
pub open spec fn lines_view(lines: Seq<Line<'_>>) -> Seq<LineView> {
    Seq::new(lines.len(), |i: int| lines[i]@)
}

/// Blanks separate tokens: space, tab and carriage return.
pub open spec fn is_blank(c: char) -> bool {
    c == ' ' || c == '\t' || c == '\r'
}

/// Where the word that covers `pos` ends: at the next blank or quote, or at
/// the end of the line.
pub open spec fn word_end(s: Seq<char>, pos: int) -> int
    decreases s.len() - pos,
{
    if pos < 0 || pos >= s.len() {
        s.len() as int
    } else if is_blank(s[pos]) || s[pos] == '"' {
        pos
    } else {
        word_end(s, pos + 1)
    }
}

/// `rest` behind the token `first`, where there is a `rest`.
pub open spec fn token_then(first: TokenView, rest: Option<Seq<TokenView>>) -> Option<
    Seq<TokenView>,
> {
    match rest {
        Some(rest) => Some(seq![first] + rest),
        None => None,
    }
}

/// The tokens of the line `s` from `pos` on. A quote opens a string that
/// runs to the next quote; without one the line has no tokens at all
/// (`None`). Anything else that is not a blank begins a word.
pub open spec fn tokens_from(s: Seq<char>, pos: int) -> Option<Seq<TokenView>>
    decreases s.len() - pos,
{
    if pos < 0 || pos >= s.len() {
        Some(Seq::empty())
    } else if is_blank(s[pos]) {
        tokens_from(s, pos + 1)
    } else if s[pos] == '"' {
        let close = pos + 1 + first_index(s.skip(pos + 1), '"');
        if pos < close < s.len() {
            token_then(
                TokenView { text: s.subrange(pos + 1, close), quoted: true },
                tokens_from(s, close + 1),
            )
        } else {
            None
        }
    } else {
        let end = word_end(s, pos);
        if pos < end <= s.len() {
            token_then(
                TokenView { text: s.subrange(pos, end), quoted: false },
                tokens_from(s, end),
            )
        } else {
            None
        }
    }
}

/// The tokens of a whole line.
pub open spec fn line_tokens_spec(s: Seq<char>) -> Option<Seq<TokenView>> {
    tokens_from(s, 0)
}

/// `tail` behind the tokens `head`, where there is a `tail`.
pub open spec fn tokens_then(head: Seq<TokenView>, tail: Option<Seq<TokenView>>) -> Option<
    Seq<TokenView>,
> {
    match tail {
        Some(tail) => Some(head + tail),
        None => None,
    }
}

/// The first `count` lines of `lines` as token lines: lines without tokens
/// are left out, and the first line with a string that does not close is a
/// syntax error at that line.
pub open spec fn lex_lines_spec(lines: Seq<Seq<char>>, count: nat) -> Result<
    Seq<LineView>,
    ErrorView,
>
    decreases count,
{
    if count == 0 {
        Ok(Seq::empty())
    } else {
        match lex_lines_spec(lines, (count - 1) as nat) {
            Ok(front) => {
                let s = lines[count - 1];
                match line_tokens_spec(s) {
                    Some(tokens) => if tokens.len() == 0 {
                        Ok(front)
                    } else {
                        Ok(
                            front.push(
                                LineView {
                                    number: count,
                                    indented: s.len() > 0 && is_blank(s[0]),
                                    tokens,
                                },
                            ),
                        )
                    },
                    None => Err(ErrorView::Syntax { line: count }),
                }
            },
            Err(e) => Err(e),
        }
    }
}

/// The token lines of a ledger text.
pub open spec fn lex_spec(input: Seq<char>) -> Result<Seq<LineView>, ErrorView> {
    lex_lines_spec(split_spec(input, '\n'), split_spec(input, '\n').len())
}

proof fn lemma_word_end(s: Seq<char>, pos: int)
    requires
        0 <= pos <= s.len(),
    ensures
        pos <= word_end(s, pos) <= s.len(),
        forall|j: int| pos <= j < word_end(s, pos) ==> !is_blank(s[j]) && s[j] != '"',
        word_end(s, pos) < s.len() ==> is_blank(s[word_end(s, pos)]) || s[word_end(s, pos)]
            == '"',
    decreases s.len() - pos,
{
    if pos < s.len() && !(is_blank(s[pos]) || s[pos] == '"') {
        lemma_word_end(s, pos + 1);
    }
}

/// A word that begins at `pos` and runs to `end`, where it stops, ends there.
proof fn lemma_word_end_is(s: Seq<char>, pos: int, end: int)
    requires
        0 <= pos <= end <= s.len(),
        forall|j: int| pos <= j < end ==> !is_blank(s[j]) && s[j] != '"',
        end < s.len() ==> is_blank(s[end]) || s[end] == '"',
    ensures
        word_end(s, pos) == end,
    decreases end - pos,
{
    if pos < end {
        lemma_word_end_is(s, pos + 1, end);
    }
}

/// Once the first `count` lines fail, all of them fail in the same way.
proof fn lemma_lex_lines_fails(lines: Seq<Seq<char>>, count: nat, all: nat)
    requires
        count <= all,
        lex_lines_spec(lines, count) is Err,
    ensures
        lex_lines_spec(lines, all) == lex_lines_spec(lines, count),
    decreases all - count,
{
    if count < all {
        lemma_lex_lines_fails(lines, count, (all - 1) as nat);
    }
}

/// The tokens of one line; `None` where a quoted string does not close.
pub fn tokenize_line<'a>(line: &'a str) -> (r: Option<Vec<Token<'a>>>)
    ensures
        match r {
            Some(tokens) => line_tokens_spec(line@) == Some(tokens_view(tokens@)),
            None => line_tokens_spec(line@) is None,
        },
{
    let chars = to_chars(line);
    let n = chars.len();
    let ghost s = line@;
    let mut tokens: Vec<Token<'a>> = Vec::new();
    let mut pos: usize = 0;
    proof {
        assert(tokens_view(tokens@) =~= Seq::<TokenView>::empty());
        assert(Seq::<TokenView>::empty() + tokens_from(s, 0)->0 =~= tokens_from(s, 0)->0);
    }
    while pos < n
        invariant
            pos <= n,
            n == s.len(),
            s == line@,
            chars@ == s,
            tokens_from(s, 0) == tokens_then(tokens_view(tokens@), tokens_from(s, pos as int)),
        decreases n - pos,
    {
        let c = chars[pos];
        let ghost before = tokens_view(tokens@);
        if c == ' ' || c == '\t' || c == '\r' {
            pos += 1;
        } else if c == '"' {
            let mut close: usize = pos + 1;
            while close < n && chars[close] != '"'
                invariant
                    pos < close <= n,
                    n == s.len(),
                    chars@ == s,
                    forall|j: int| pos < j < close ==> s[j] != '"',
                decreases n - close,
            {
                close += 1;
            }
            proof {
                let rest = s.skip(pos + 1);
                crate::text::lemma_first_index_is(rest, '"', close - pos - 1);
            }
            if close >= n {
                return None;
            }
            let text = line.substring_char(pos + 1, close);
            let token = Token { text, quoted: true };
            tokens.push(token);
            proof {
                assert(tokens_view(tokens@) =~= before.push(token@));
                let tail = tokens_from(s, close + 1);
                if tail is Some {
                    assert(before + (seq![token@] + tail->0) =~= before.push(token@) + tail->0);
                }
            }
            pos = close + 1;
        } else {
            let mut end: usize = pos + 1;
            while end < n && !(chars[end] == ' ' || chars[end] == '\t' || chars[end] == '\r'
                || chars[end] == '"')
                invariant
                    pos < end <= n,
                    n == s.len(),
                    chars@ == s,
                    forall|j: int| pos <= j < end ==> !is_blank(s[j]) && s[j] != '"',
                decreases n - end,
            {
                end += 1;
            }
            proof {
                lemma_word_end_is(s, pos as int, end as int);
            }
            let text = line.substring_char(pos, end);
            let token = Token { text, quoted: false };
            tokens.push(token);
            proof {
                assert(tokens_view(tokens@) =~= before.push(token@));
                let tail = tokens_from(s, end as int);
                if tail is Some {
                    assert(before + (seq![token@] + tail->0) =~= before.push(token@) + tail->0);
                }
            }
            pos = end;
        }
    }
    proof {
        assert(tokens_view(tokens@) + Seq::<TokenView>::empty() =~= tokens_view(tokens@));
    }
    Some(tokens)
}

/// Cuts a ledger text into its token lines. A quoted string that does not
/// close on its line is a syntax error at that line.
pub fn lex<'a>(input: &'a str) -> (r: Result<Vec<Line<'a>>, Error>)
    ensures
        match r {
            Ok(lines) => lex_spec(input@) == Ok::<Seq<LineView>, ErrorView>(lines_view(lines@)),
            Err(e) => lex_spec(input@) is Err && reports(e, lex_spec(input@)->Err_0),
        },
{
    let raw = split(input, '\n');
    let ghost texts = strs_view(raw@);
    let mut lines: Vec<Line<'a>> = Vec::new();
    let mut i: usize = 0;
    assert(lines_view(lines@) =~= Seq::<LineView>::empty());
    while i < raw.len()
        invariant
            i <= raw.len(),
            texts == strs_view(raw@),
            texts == split_spec(input@, '\n'),
            lex_lines_spec(texts, i as nat) == Ok::<Seq<LineView>, ErrorView>(lines_view(lines@)),
        decreases raw.len() - i,
    {
        let text = raw[i];
        assert(text@ == texts[i as int]);
        let ghost before = lines_view(lines@);
        match tokenize_line(text) {
            Some(tokens) => {
                if tokens.len() > 0 {
                    let chars = to_chars(text);
                    let indented = chars.len() > 0 && (chars[0] == ' ' || chars[0] == '\t'
                        || chars[0] == '\r');
                    let line = Line { number: i + 1, indented, tokens };
                    lines.push(line);
                    assert(lines_view(lines@) =~= before.push(line@));
                }
            },
            None => {
                proof {
                    lemma_lex_lines_fails(texts, (i + 1) as nat, raw.len() as nat);
                }
                return Err(fail(ErrorContext::Syntax { line: i + 1 }));
            },
        }
        i += 1;
    }
    Ok(lines)
}

} // verus!
