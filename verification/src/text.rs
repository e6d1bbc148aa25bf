//! Character-level helpers shared by the parsers and the printers.
//!
//! Text is modelled as `Seq<char>`, the view of `str` and `String`.

use vstd::prelude::*;
use vstd::std_specs::iter::IteratorSpec;
use vstd::string::*;

verus! {

broadcast use vstd::string::group_string_axioms;

/// `str`'s `==` compares the two texts character by character.
pub assume_specification[ <str as PartialEq>::eq ](a: &str, b: &str) -> (r: bool)
    ensures
        r == (a@ == b@),
;

/// The views of a sequence of string slices.
pub open spec fn strs_view(v: Seq<&str>) -> Seq<Seq<char>> {
    Seq::new(v.len(), |i: int| v[i]@)
}

/// The views of a sequence of owned strings.
pub open spec fn strings_view(v: Seq<String>) -> Seq<Seq<char>> {
    Seq::new(v.len(), |i: int| v[i]@)
}

/// Position of the first `sep` in `s`, or `s.len()` when there is none.
pub open spec fn first_index<T>(s: Seq<T>, sep: T) -> int
    decreases s.len(),
{
    if s.len() == 0 {
        0
    } else if s[0] == sep {
        0
    } else {
        1 + first_index(s.drop_first(), sep)
    }
}

/// `s` cut at every `sep`; the pieces hold no `sep`, and there is always at
/// least one piece.
pub open spec fn split_spec(s: Seq<char>, sep: char) -> Seq<Seq<char>>
    decreases s.len(),
{
    let i = first_index(s, sep);
    if 0 <= i < s.len() {
        seq![s.take(i)] + split_spec(s.skip(i + 1), sep)
    } else {
        seq![s]
    }
}

/// The pieces put together again with `sep` between them.
pub open spec fn join_spec(parts: Seq<Seq<char>>, sep: char) -> Seq<char>
    decreases parts.len(),
{
    if parts.len() == 0 {
        Seq::empty()
    } else if parts.len() == 1 {
        parts[0]
    } else {
        parts[0] + seq![sep] + join_spec(parts.drop_first(), sep)
    }
}

/// Where the first `sep` is, nothing before it is one.
pub proof fn lemma_first_index_bounds<T>(s: Seq<T>, sep: T)
    ensures
        0 <= first_index(s, sep) <= s.len(),
        first_index(s, sep) < s.len() ==> s[first_index(s, sep)] == sep,
        forall|j: int| 0 <= j < first_index(s, sep) ==> s[j] != sep,
    decreases s.len(),
{
    if s.len() > 0 && s[0] != sep {
        let t = s.drop_first();
        lemma_first_index_bounds(t, sep);
        assert forall|j: int| 0 <= j < first_index(s, sep) implies s[j] != sep by {
            if j > 0 {
                assert(s[j] == t[j - 1]);
            }
        }
    }
}

/// The first `sep` of `s` is at `i` when `s[i]` is one and nothing before it is.
pub proof fn lemma_first_index_is<T>(s: Seq<T>, sep: T, i: int)
    requires
        0 <= i <= s.len(),
        forall|j: int| 0 <= j < i ==> s[j] != sep,
        i < s.len() ==> s[i] == sep,
    ensures
        first_index(s, sep) == i,
{
    lemma_first_index_bounds(s, sep);
}

/// The characters of `s`, in order.
pub fn to_chars(s: &str) -> (v: Vec<char>)
    ensures
        v@ == s@,
{
    let mut v: Vec<char> = Vec::new();
    let mut it = s.chars();
    let mut done = false;
    while !done
        invariant
            v@ + it.remaining() == s@,
            it.obeys_prophetic_iter_laws(),
            it.decrease() is Some,
            done ==> it.remaining().len() == 0,
        decreases (if done { 0nat } else { 1nat }), it.decrease()->0,
    {
        match it.next() {
            Some(c) => {
                v.push(c);
            },
            None => {
                done = true;
            },
        }
    }
    v
}

/// Whether `text` begins with `prefix`.
pub fn starts_with(text: &str, prefix: &str) -> (r: bool)
    ensures
        r == prefix@.is_prefix_of(text@),
{
    let t = to_chars(text);
    let p = to_chars(prefix);
    if p.len() > t.len() {
        return false;
    }
    let mut i: usize = 0;
    while i < p.len()
        invariant
            i <= p.len() <= t.len(),
            t@ == text@,
            p@ == prefix@,
            forall|j: int| 0 <= j < i ==> t@[j] == p@[j],
        decreases p.len() - i,
    {
        if t[i] != p[i] {
            assert(prefix@[i as int] != text@[i as int]);
            return false;
        }
        i += 1;
    }
    assert(prefix@ =~= text@.subrange(0, prefix@.len() as int));
    true
}

/// `text` cut at every `sep`, as slices of `text`.
pub fn split<'a>(text: &'a str, sep: char) -> (parts: Vec<&'a str>)
    ensures
        strs_view(parts@) == split_spec(text@, sep),
{
    let chars = to_chars(text);
    let n = chars.len();
    let mut parts: Vec<&'a str> = Vec::new();
    let mut start: usize = 0;
    let mut pos: usize = 0;
    proof {
        assert(text@.skip(0) =~= text@);
        assert(strs_view(parts@) + split_spec(text@, sep) =~= split_spec(text@, sep));
    }
    while pos < n
        invariant
            chars@ == text@,
            n == chars@.len(),
            start <= pos <= n,
            forall|j: int| start <= j < pos ==> chars@[j] != sep,
            split_spec(text@, sep) == strs_view(parts@) + split_spec(text@.skip(start as int), sep),
        decreases n - pos,
    {
        if chars[pos] == sep {
            let piece = text.substring_char(start, pos);
            proof {
                let rest = text@.skip(start as int);
                lemma_first_index_is(rest, sep, pos - start);
                assert(rest.take(pos - start) =~= text@.subrange(start as int, pos as int));
                assert(rest.skip(pos - start + 1) =~= text@.skip(pos + 1));
                assert(strs_view(parts@.push(piece)) =~= strs_view(parts@) + seq![piece@]);
            }
            parts.push(piece);
            start = pos + 1;
        }
        pos += 1;
    }
    let piece = text.substring_char(start, n);
    proof {
        let rest = text@.skip(start as int);
        lemma_first_index_is(rest, sep, n - start);
        assert(rest =~= text@.subrange(start as int, n as int));
        assert(strs_view(parts@.push(piece)) =~= strs_view(parts@) + seq![piece@]);
    }
    parts.push(piece);
    parts
}

/// The character that writes the digit `d`.
pub open spec fn digit_char(d: int) -> char {
    if d == 0 {
        '0'
    } else if d == 1 {
        '1'
    } else if d == 2 {
        '2'
    } else if d == 3 {
        '3'
    } else if d == 4 {
        '4'
    } else if d == 5 {
        '5'
    } else if d == 6 {
        '6'
    } else if d == 7 {
        '7'
    } else if d == 8 {
        '8'
    } else {
        '9'
    }
}

/// Whether `c` is one of `0` to `9`.
pub open spec fn is_digit(c: char) -> bool {
    '0' <= c <= '9'
}

/// The value of the digit character `c`.
pub open spec fn digit_value(c: char) -> int {
    c as int - '0' as int
}

/// `n` written in base ten, without leading zeros (`0` is written `0`).
pub open spec fn digits_spec(n: nat) -> Seq<char>
    decreases n,
{
    if n < 10 {
        seq![digit_char(n as int)]
    } else {
        digits_spec(n / 10).push(digit_char((n % 10) as int))
    }
}

/// `count` zeros.
pub open spec fn zeros_spec(count: nat) -> Seq<char> {
    Seq::new(count, |i: int| '0')
}

/// `n` in base ten, filled with zeros on the left up to `width` characters.
pub open spec fn padded_spec(n: nat, width: nat) -> Seq<char> {
    let d = digits_spec(n);
    if d.len() >= width {
        d
    } else {
        zeros_spec((width - d.len()) as nat) + d
    }
}

fn digit_str(d: u64) -> (r: &'static str)
    requires
        d < 10,
    ensures
        r@ == seq![digit_char(d as int)],
{
    proof {
        reveal_strlit("0");
        reveal_strlit("1");
        reveal_strlit("2");
        reveal_strlit("3");
        reveal_strlit("4");
        reveal_strlit("5");
        reveal_strlit("6");
        reveal_strlit("7");
        reveal_strlit("8");
        reveal_strlit("9");
    }
    let r = if d == 0 {
        "0"
    } else if d == 1 {
        "1"
    } else if d == 2 {
        "2"
    } else if d == 3 {
        "3"
    } else if d == 4 {
        "4"
    } else if d == 5 {
        "5"
    } else if d == 6 {
        "6"
    } else if d == 7 {
        "7"
    } else if d == 8 {
        "8"
    } else {
        "9"
    };
    assert(r@ =~= seq![digit_char(d as int)]);
    r
}

/// Appends `n` in base ten to `out`.
pub fn push_digits(out: &mut String, n: u64)
    ensures
        final(out)@ == old(out)@ + digits_spec(n as nat),
    decreases n,
{
    if n >= 10 {
        push_digits(out, n / 10);
    }
    out.append(digit_str(n % 10));
    proof {
        assert(final(out)@ =~= old(out)@ + digits_spec(n as nat));
    }
}

/// How many characters `digits_spec(n)` has.
pub fn digit_count(n: u64) -> (count: usize)
    ensures
        count == digits_spec(n as nat).len(),
        1 <= count <= 20,
    decreases n,
{
    if n < 10 {
        1
    } else {
        let rest = digit_count(n / 10);
        proof {
            lemma_digit_count_bound(n as nat);
        }
        rest + 1
    }
}

proof fn lemma_digit_count_bound(n: nat)
    requires
        n <= u64::MAX,
    ensures
        digits_spec(n).len() <= 20,
{
    reveal_with_fuel(digits_spec, 21);
}

/// Appends `n` in base ten to `out`, with zeros on the left up to `width`
/// characters.
pub fn push_padded(out: &mut String, n: u64, width: usize)
    ensures
        final(out)@ == old(out)@ + padded_spec(n as nat, width as nat),
{
    let count = digit_count(n);
    let mut i: usize = count;
    while i < width
        invariant
            count <= i,
            i == count || i <= width,
            out@ == old(out)@ + zeros_spec((i - count) as nat),
        decreases width - i,
    {
        proof {
            reveal_strlit("0");
            assert(zeros_spec((i + 1 - count) as nat) =~= zeros_spec((i - count) as nat) + "0"@);
        }
        out.append("0");
        i += 1;
    }
    push_digits(out, n);
    proof {
        assert(zeros_spec(0) =~= Seq::<char>::empty());
        assert(final(out)@ =~= old(out)@ + padded_spec(n as nat, width as nat));
    }
}

} // verus!
