//! Laws of the library: what holds of every account, store and transaction.

use crate::account::{display_spec, kind_name, kind_of_text, AccountKind, AccountPath};
use crate::amount::{converted, negate_spec, zero_spec, AmountView};
use crate::date::{date_le, date_lt, Date};
use crate::decimal::{
    add_spec, lemma_add_value, lemma_neg_value, neg_spec, pow10, rescaled, DecimalView,
};
use crate::error::ErrorView;
use crate::lexer::LineView;
use crate::statement::{legs_spec, transaction_body_spec};
use crate::store::{
    all_known, close_spec, indices_of, intern_all, known, lemma_intern_all, open_spec,
    resolve_spec, StoreView,
};
use crate::text::{
    first_index, join_spec, lemma_first_index_bounds, lemma_first_index_is, split_spec,
};
use crate::transaction::{
    anchor_spec, balance_spec, count_none, create_spec, errors_spec, exchange_anchor_spec,
    explicit_total_spec, filled_spec, fold_spec, inferred_spec, leg_amounts, resolve_legs_spec,
    total_spec, BalanceCheck, ExchangeView, HeaderView, LegView, LookupView, ParsedTransactionView,
    TransactionView, TxnErrorView,
};
use vstd::prelude::*;
use vstd::string::*;

verus! {

/// Whether the text holds no colon.
pub open spec fn colon_free(s: Seq<char>) -> bool {
    forall|i: int| 0 <= i < s.len() ==> s[i] != ':'
}

/// The names of the kinds hold no colon, and none begins with another one
/// followed by a colon.
proof fn lemma_kind_names(kind: AccountKind, rest: Seq<char>)
    ensures
        colon_free(kind_name(kind)),
        kind_of_text(kind_name(kind) + seq![':'] + rest) == Some(kind),
{
    reveal_strlit("Assets");
    reveal_strlit("Expenses");
    reveal_strlit("Liabilities");
    reveal_strlit("Income");
    reveal_strlit("Equity");
    let text = kind_name(kind) + seq![':'] + rest;
    let own = kind_name(kind) + seq![':'];
    assert(own.is_prefix_of(text)) by {
        assert(text.subrange(0, own.len() as int) =~= own);
    }
    let first = kind_name(kind)[0];
    assert(text[0] == first);
    assert forall|other: AccountKind| other != kind implies !(#[trigger] kind_name(other) + seq![
        ':',
    ]).is_prefix_of(text) by {
        let theirs = kind_name(other) + seq![':'];
        if theirs.is_prefix_of(text) {
            assert(theirs[0] == text[0]);
            assert(theirs[1] == text[1]);
            assert(kind_name(other)[0] == theirs[0]);
            assert(kind_name(other)[1] == theirs[1]);
            assert(kind_name(kind)[1] == text[1]);
        }
    }
}

/// A text without the separator is its own single piece.
proof fn lemma_split_single(s: Seq<char>, sep: char)
    requires
        forall|i: int| 0 <= i < s.len() ==> s[i] != sep,
    ensures
        split_spec(s, sep) == seq![s],
{
    lemma_first_index_is(s, sep, s.len() as int);
}

/// A text that begins with a piece without the separator, and then the
/// separator, is cut behind that piece.
proof fn lemma_split_first(head: Seq<char>, sep: char, tail: Seq<char>)
    requires
        forall|i: int| 0 <= i < head.len() ==> head[i] != sep,
    ensures
        split_spec(head + seq![sep] + tail, sep) == seq![head] + split_spec(tail, sep),
{
    let s = head + seq![sep] + tail;
    lemma_first_index_is(s, sep, head.len() as int);
    assert(s.take(head.len() as int) =~= head);
    assert(s.skip(head.len() as int + 1) =~= tail);
}

/// Pieces without the separator, joined and cut again, are the same pieces.
pub proof fn lemma_split_join(parts: Seq<Seq<char>>, sep: char)
    requires
        parts.len() > 0,
        forall|i: int, j: int| 0 <= i < parts.len() && 0 <= j < parts[i].len() ==> parts[i][j] != sep,
    ensures
        split_spec(join_spec(parts, sep), sep) == parts,
    decreases parts.len(),
{
    if parts.len() == 1 {
        lemma_split_single(parts[0], sep);
        assert(seq![parts[0]] =~= parts);
    } else {
        let rest = parts.drop_first();
        assert forall|i: int, j: int| 0 <= i < rest.len() && 0 <= j < rest[i].len() implies rest[i][j]
            != sep by {
            assert(rest[i] == parts[i + 1]);
        }
        lemma_split_join(rest, sep);
        lemma_split_first(parts[0], sep, join_spec(rest, sep));
        assert(seq![parts[0]] + rest =~= parts);
    }
}

/// Round trip: an account that is written out and read again is the same
/// account, provided that it has at least one segment and that no segment
/// holds a colon.
pub proof fn lemma_display_parse_round_trip(account: AccountPath)
    requires
        account.segments.len() > 0,
        forall|i: int| 0 <= i < account.segments.len() ==> colon_free(#[trigger] account.segments[i]),
    ensures
        crate::account::parse_spec(display_spec(account)) == Some(account),
{
    let joined = join_spec(account.segments, ':');
    lemma_kind_names(account.kind, joined);
    lemma_split_first(kind_name(account.kind), ':', joined);
    assert forall|i: int, j: int|
        0 <= i < account.segments.len() && 0 <= j < account.segments[i].len()
            implies account.segments[i][j] != ':' by {
        assert(colon_free(account.segments[i]));
    }
    lemma_split_join(account.segments, ':');
    assert((seq![kind_name(account.kind)] + account.segments).skip(1) =~= account.segments);
}

/// Once all the names are in the table, interning them changes nothing.
pub proof fn lemma_intern_known(table: Seq<Seq<char>>, names: Seq<Seq<char>>)
    requires
        all_known(table, names),
    ensures
        intern_all(table, names) == table,
    decreases names.len(),
{
    if names.len() > 0 {
        assert(known(table, names[0]));
        let rest = names.drop_first();
        assert forall|i: int| 0 <= i < rest.len() implies known(table, #[trigger] rest[i]) by {
            assert(rest[i] == names[i + 1]);
        }
        lemma_intern_known(table, rest);
    }
}

/// Temporal validity: an account that was opened on a day resolves on that
/// day and on every later day, and on no earlier one.
pub proof fn lemma_opened_account_resolves(
    store: StoreView,
    account: AccountPath,
    opened_at: Date,
    date: Date,
)
    ensures
        resolve_spec(open_spec(store, account, opened_at), account, date) is Some <==> date_le(
            opened_at,
            date,
        ),
{
    lemma_intern_all(store.segments, account.segments);
}

/// Reopening: an account that was opened, closed on a later day and then
/// opened again resolves, between the closing and the reopening, on no day
/// from the closing on; and after the reopening exactly from the day of the
/// reopening on.
pub proof fn lemma_reopened_account_resolves(
    store: StoreView,
    account: AccountPath,
    opened_at: Date,
    closed_at: Date,
    reopened_at: Date,
    date: Date,
)
    requires
        date_le(opened_at, closed_at),
    ensures
        close_spec(open_spec(store, account, opened_at), account, closed_at) is Some,
        ({
            let closed = close_spec(open_spec(store, account, opened_at), account, closed_at)->0;
            let reopened = open_spec(closed, account, reopened_at);
            &&& resolve_spec(closed, account, date) is Some <==> date_le(opened_at, date) && date_lt(
                date,
                closed_at,
            )
            &&& resolve_spec(reopened, account, date) is Some <==> date_le(reopened_at, date)
        }),
{
    let opened = open_spec(store, account, opened_at);
    lemma_intern_all(store.segments, account.segments);
    lemma_opened_account_resolves(store, account, opened_at, closed_at);
    let closed = close_spec(opened, account, closed_at)->0;
    lemma_intern_known(closed.segments, account.segments);
    lemma_opened_account_resolves(closed, account, reopened_at, date);
}

/// Interning is idempotent and stable: when two accounts are opened one
/// after the other, a segment of the first and a segment of the second get
/// the same index if and only if they are the same text, and the first
/// account keeps the indices that it got. (The table must be one that a
/// machine can hold, so that each index is a `usize`.)
pub proof fn lemma_shared_segments_share_indices(
    store: StoreView,
    first: AccountPath,
    first_opened: Date,
    second: AccountPath,
    second_opened: Date,
    i: int,
    j: int,
)
    requires
        0 <= i < first.segments.len(),
        0 <= j < second.segments.len(),
        open_spec(
            open_spec(store, first, first_opened),
            second,
            second_opened,
        ).segments.len() <= usize::MAX,
    ensures
        ({
            let one = open_spec(store, first, first_opened);
            let two = open_spec(one, second, second_opened);
            let first_path = indices_of(one.segments, first.segments);
            let second_path = indices_of(two.segments, second.segments);
            &&& indices_of(two.segments, first.segments) == first_path
            &&& first_path[i] == second_path[j] <==> first.segments[i] == second.segments[j]
        }),
{
    let one = open_spec(store, first, first_opened);
    let two = open_spec(one, second, second_opened);
    lemma_intern_all(store.segments, first.segments);
    lemma_intern_all(one.segments, second.segments);
    assert(indices_of(two.segments, first.segments) =~= indices_of(one.segments, first.segments)) by {
        assert forall|k: int| 0 <= k < first.segments.len() implies first_index(
            two.segments,
            first.segments[k],
        ) == first_index(one.segments, first.segments[k]) by {
            assert(known(one.segments, first.segments[k]));
        }
    }
    let a = first.segments[i];
    let b = second.segments[j];
    assert(known(one.segments, a));
    assert(known(two.segments, a));
    assert(known(two.segments, b));
    lemma_first_index_bounds(two.segments, a);
    lemma_first_index_bounds(two.segments, b);
    assert(first_index(two.segments, a) == first_index(one.segments, a));
}

/// Resolving the legs keeps each leg's amount where it is written, and
/// leaves out what is left out.
proof fn lemma_resolved_legs_keep_gaps(
    lookup: LookupView,
    date: Date,
    parsed: ParsedTransactionView,
    count: nat,
)
    requires
        count <= parsed.accounts.len(),
        count <= parsed.exchanges.len(),
    ensures
        resolve_legs_spec(lookup, date, parsed, count) matches Ok(legs) ==> legs.len() == count
            && count_none(leg_amounts(legs)) == count_none(parsed.exchanges.take(count as int)),
    decreases count,
{
    if count > 0 {
        lemma_resolved_legs_keep_gaps(lookup, date, parsed, (count - 1) as nat);
        match resolve_legs_spec(lookup, date, parsed, count) {
            Ok(legs) => {
                let front = resolve_legs_spec(lookup, date, parsed, (count - 1) as nat)->Ok_0;
                assert(leg_amounts(legs).drop_last() =~= leg_amounts(front));
                assert(parsed.exchanges.take(count as int).drop_last() =~= parsed.exchanges.take(
                    count - 1,
                ));
                assert(leg_amounts(legs).last() is None <==> parsed.exchanges[count - 1] is None);
            },
            Err(_) => {},
        }
    } else {
        assert(leg_amounts(Seq::<LegView>::empty()) =~= Seq::empty());
        assert(parsed.exchanges.take(0) =~= Seq::empty());
    }
}

/// Resolving a leg never fails for want of amounts.
proof fn lemma_resolve_never_too_many(
    lookup: LookupView,
    date: Date,
    parsed: ParsedTransactionView,
    count: nat,
)
    ensures
        resolve_legs_spec(lookup, date, parsed, count) matches Err(e) ==> e
            != ErrorView::TooManyElided,
    decreases count,
{
    if count > 0 {
        lemma_resolve_never_too_many(lookup, date, parsed, (count - 1) as nat);
    }
}

/// Elision cardinality: a transaction is refused for its missing amounts,
/// with the one error kept for this, if and only if two or more of its legs
/// are written without an amount.
pub proof fn lemma_too_many_elided(
    lookup: LookupView,
    date: Date,
    header: HeaderView,
    parsed: ParsedTransactionView,
)
    requires
        parsed.accounts.len() == parsed.exchanges.len(),
    ensures
        count_none(parsed.exchanges) > 1 <==> create_spec(lookup, date, header, parsed) == Err::<
            crate::transaction::TransactionView,
            ErrorView,
        >(ErrorView::TooManyElided),
{
    if count_none(parsed.exchanges) <= 1 {
        let n = parsed.accounts.len();
        lemma_resolved_legs_keep_gaps(lookup, date, parsed, n);
        lemma_resolve_never_too_many(lookup, date, parsed, n);
        assert(parsed.exchanges.take(n as int) =~= parsed.exchanges);
        match resolve_legs_spec(lookup, date, parsed, n) {
            Ok(legs) => {
                lemma_inferred_never_too_many(legs);
            },
            Err(_) => {},
        }
    }
}

/// Adding amounts up never fails for want of amounts.
proof fn lemma_total_never_too_many(legs: Seq<LegView>, anchor: usize)
    ensures
        crate::transaction::explicit_total_spec(legs, anchor) matches Err(e) ==> e
            != ErrorView::TooManyElided,
    decreases legs.len(),
{
    if legs.len() > 0 {
        lemma_total_never_too_many(legs.drop_last(), anchor);
    }
}

proof fn lemma_inferred_never_too_many(legs: Seq<LegView>)
    ensures
        crate::transaction::inferred_spec(legs) matches Err(e) ==> e != ErrorView::TooManyElided,
{
    match crate::transaction::anchor_spec(legs) {
        Some(anchor) => {
            lemma_total_never_too_many(legs, anchor);
        },
        None => {},
    }
}

/// A line that is no leg is never refused for want of amounts.
proof fn lemma_legs_never_too_many(body: Seq<LineView>, count: nat)
    ensures
        legs_spec(body, count) matches Err(e) ==> e != ErrorView::TooManyElided,
    decreases count,
{
    if count > 0 {
        lemma_legs_never_too_many(body, (count - 1) as nat);
    }
}

/// Elision cardinality in the grammar: the lines below a transaction's
/// header are refused with the error kept for this if and only if each of
/// them is a leg and two or more of them have no amount.
pub proof fn lemma_too_many_elided_lines(body: Seq<LineView>)
    ensures
        transaction_body_spec(body) == Err::<ParsedTransactionView, ErrorView>(
            ErrorView::TooManyElided,
        ) <==> (legs_spec(body, body.len()) matches Ok(legs) && count_none(legs.exchanges) > 1),
{
    lemma_legs_never_too_many(body, body.len());
}

/// What the amount is worth in the unit `anchor`, as a mantissa at `scale`;
/// zero where it cannot be converted.
pub open spec fn worth(amount: AmountView, anchor: usize, scale: nat) -> int {
    match converted(amount, anchor) {
        Ok(v) => rescaled(v, scale),
        Err(_) => 0,
    }
}

/// The worth of the amounts that are written, added up.
pub open spec fn written_worth(legs: Seq<LegView>, anchor: usize, scale: nat) -> int
    decreases legs.len(),
{
    if legs.len() == 0 {
        0
    } else {
        written_worth(legs.drop_last(), anchor, scale) + match legs.last().amount {
            Some(a) => worth(a, anchor, scale),
            None => 0,
        }
    }
}

/// The worth of all the exchanges, added up.
pub open spec fn exchanges_worth(exchanges: Seq<ExchangeView>, anchor: usize, scale: nat) -> int
    decreases exchanges.len(),
{
    if exchanges.len() == 0 {
        0
    } else {
        exchanges_worth(exchanges.drop_last(), anchor, scale) + worth(
            exchanges.last().amount,
            anchor,
            scale,
        )
    }
}

/// The total of the written amounts is in the anchor unit, and at any scale
/// from its own on its mantissa is the worth of those amounts.
proof fn lemma_total_is_worth(legs: Seq<LegView>, anchor: usize, scale: nat)
    requires
        explicit_total_spec(legs, anchor) is Ok,
        scale >= explicit_total_spec(legs, anchor)->Ok_0.nominal.scale,
    ensures
        explicit_total_spec(legs, anchor)->Ok_0.currency == anchor,
        rescaled(explicit_total_spec(legs, anchor)->Ok_0.nominal, scale) == written_worth(
            legs,
            anchor,
            scale,
        ),
    decreases legs.len(),
{
    if legs.len() == 0 {
        assert(rescaled(zero_spec(anchor).nominal, scale) == 0) by (nonlinear_arith)
            requires
                rescaled(zero_spec(anchor).nominal, scale) == 0 * pow10(
                    (scale - zero_spec(anchor).nominal.scale) as nat,
                ),
        ;
    } else {
        let front = explicit_total_spec(legs.drop_last(), anchor)->Ok_0;
        match legs.last().amount {
            Some(a) => {
                let v = converted(a, front.currency)->Ok_0;
                lemma_add_value(front.nominal, v, scale);
                lemma_total_is_worth(legs.drop_last(), anchor, scale);
            },
            None => {
                lemma_total_is_worth(legs.drop_last(), anchor, scale);
            },
        }
    }
}

/// The sum of the exchanges is in the anchor unit; every exchange can be
/// converted, at a scale that is not above that of the sum; and at any
/// scale from its own on the mantissa of the sum is the worth of the
/// exchanges.
proof fn lemma_fold_is_worth(exchanges: Seq<ExchangeView>, anchor: usize, scale: nat)
    requires
        fold_spec(exchanges, anchor) is Ok,
        scale >= fold_spec(exchanges, anchor)->Ok_0.nominal.scale,
    ensures
        fold_spec(exchanges, anchor)->Ok_0.currency == anchor,
        rescaled(fold_spec(exchanges, anchor)->Ok_0.nominal, scale) == exchanges_worth(
            exchanges,
            anchor,
            scale,
        ),
        forall|i: int|
            0 <= i < exchanges.len() ==> converted(
                (#[trigger] exchanges[i]).amount,
                anchor,
            ) is Ok && converted(exchanges[i].amount, anchor)->Ok_0.scale <= fold_spec(
                exchanges,
                anchor,
            )->Ok_0.nominal.scale,
    decreases exchanges.len(),
{
    if exchanges.len() == 0 {
        assert(rescaled(zero_spec(anchor).nominal, scale) == 0) by (nonlinear_arith)
            requires
                rescaled(zero_spec(anchor).nominal, scale) == 0 * pow10(
                    (scale - zero_spec(anchor).nominal.scale) as nat,
                ),
        ;
    } else {
        let front_list = exchanges.drop_last();
        let front = fold_spec(front_list, anchor)->Ok_0;
        let v = converted(exchanges.last().amount, front.currency)->Ok_0;
        lemma_add_value(front.nominal, v, scale);
        lemma_fold_is_worth(front_list, anchor, scale);
        assert forall|i: int| 0 <= i < exchanges.len() implies converted(
            (#[trigger] exchanges[i]).amount,
            anchor,
        ) is Ok && converted(exchanges[i].amount, anchor)->Ok_0.scale <= fold_spec(
            exchanges,
            anchor,
        )->Ok_0.nominal.scale by {
            if i < front_list.len() {
                assert(front_list[i] == exchanges[i]);
            }
        }
    }
}

/// The exchanges are worth what the written amounts are worth, and once
/// more the inferred amount for every leg that has none.
proof fn lemma_filled_worth(legs: Seq<LegView>, inferred: AmountView, anchor: usize, scale: nat)
    ensures
        exchanges_worth(filled_spec(legs, inferred), anchor, scale) == written_worth(
            legs,
            anchor,
            scale,
        ) + count_none(leg_amounts(legs)) * worth(inferred, anchor, scale),
    decreases legs.len(),
{
    let w = worth(inferred, anchor, scale);
    if legs.len() == 0 {
        assert(leg_amounts(legs) =~= Seq::empty());
        assert(0 * w == 0) by (nonlinear_arith);
    } else {
        let front = legs.drop_last();
        lemma_filled_worth(front, inferred, anchor, scale);
        assert(filled_spec(legs, inferred).drop_last() =~= filled_spec(front, inferred));
        assert(leg_amounts(legs).drop_last() =~= leg_amounts(front));
        assert(leg_amounts(legs).last() == legs.last().amount);
        let n = count_none(leg_amounts(front));
        assert((n + 1) * w == n * w + w) by (nonlinear_arith);
    }
}

/// The exchanges have the anchor of the legs.
proof fn lemma_filled_anchor(legs: Seq<LegView>, inferred: AmountView)
    ensures
        exchange_anchor_spec(filled_spec(legs, inferred)) == anchor_spec(legs),
    decreases legs.len(),
{
    if legs.len() > 0 {
        lemma_filled_anchor(legs.drop_first(), inferred);
        assert(filled_spec(legs, inferred).drop_first() =~= filled_spec(
            legs.drop_first(),
            inferred,
        ));
    }
}

/// Where something is left out, there is a place where it is left out.
proof fn lemma_gap_exists<T>(items: Seq<Option<T>>)
    requires
        count_none(items) >= 1,
    ensures
        exists|i: int| 0 <= i < items.len() && (#[trigger] items[i]) is None,
    decreases items.len(),
{
    if items.len() > 0 {
        if items.last() is None {
            assert(items[items.len() - 1] is None);
        } else {
            lemma_gap_exists(items.drop_last());
            let i = choose|i: int|
                0 <= i < items.drop_last().len() && (#[trigger] items.drop_last()[i]) is None;
            assert(items[i] is None);
        }
    }
}

/// Every transaction balances: when exactly one leg is written without an
/// amount, the exchanges that balancing makes of the legs add up to exactly
/// zero, whatever the units and prices, whenever they can be added up.
pub proof fn lemma_inferred_amount_balances(legs: Seq<LegView>)
    requires
        count_none(leg_amounts(legs)) == 1,
        balance_spec(legs) is Ok,
        total_spec(balance_spec(legs)->Ok_0) is Ok,
    ensures
        total_spec(balance_spec(legs)->Ok_0)->Ok_0.nominal.mantissa == 0,
{
    let anchor = anchor_spec(legs)->0;
    let total = explicit_total_spec(legs, anchor)->Ok_0;
    let inferred = inferred_spec(legs)->Ok_0;
    let exchanges = filled_spec(legs, inferred);
    lemma_filled_anchor(legs, inferred);
    let sum = fold_spec(exchanges, anchor)->Ok_0;
    let scale = sum.nominal.scale;
    lemma_total_is_worth(legs, anchor, total.nominal.scale);
    assert(inferred.currency == anchor);
    assert(converted(inferred, anchor) == Ok::<DecimalView, ErrorView>(inferred.nominal));
    lemma_fold_is_worth(exchanges, anchor, scale);
    lemma_gap_exists(leg_amounts(legs));
    let gap = choose|i: int| 0 <= i < legs.len() && (#[trigger] leg_amounts(legs)[i]) is None;
    assert(exchanges[gap].amount == inferred);
    assert(inferred.nominal.scale <= scale);
    let zero = zero_spec(anchor).nominal;
    let minus = neg_spec(total.nominal);
    assert(converted(negate_spec(total), anchor) == Ok::<DecimalView, ErrorView>(minus));
    assert(add_spec(zero, minus) == Some(inferred.nominal));
    lemma_add_value(zero, minus, scale);
    lemma_neg_value(total.nominal, scale);
    lemma_total_is_worth(legs, anchor, scale);
    lemma_filled_worth(legs, inferred, anchor, scale);
    assert(rescaled(zero, scale) == 0) by (nonlinear_arith)
        requires
            rescaled(zero, scale) == 0 * pow10((scale - zero.scale) as nat),
    ;
    let w = worth(inferred, anchor, scale);
    assert(1 * w == w) by (nonlinear_arith);
    assert(rescaled(sum.nominal, scale) == 0);
    assert(rescaled(sum.nominal, scale) == sum.nominal.mantissa) by (nonlinear_arith)
        requires
            rescaled(sum.nominal, scale) == sum.nominal.mantissa * pow10(0),
            pow10(0) == 1,
    ;
}

/// A transaction that is made with one amount left out is never found to
/// add up to something other than zero.
pub proof fn lemma_created_transaction_balances(
    lookup: LookupView,
    date: Date,
    header: HeaderView,
    parsed: ParsedTransactionView,
)
    requires
        parsed.accounts.len() == parsed.exchanges.len(),
        count_none(parsed.exchanges) == 1,
        create_spec(lookup, date, header, parsed) is Ok,
    ensures
        errors_spec(
            create_spec(lookup, date, header, parsed)->Ok_0.exchanges,
            BalanceCheck::WithSum,
        ) != Some(TxnErrorView::NotZeroSum),
{
    let n = parsed.accounts.len();
    lemma_resolved_legs_keep_gaps(lookup, date, parsed, n);
    assert(parsed.exchanges.take(n as int) =~= parsed.exchanges);
    let legs = resolve_legs_spec(lookup, date, parsed, n)->Ok_0;
    if total_spec(balance_spec(legs)->Ok_0) is Ok {
        lemma_inferred_amount_balances(legs);
    }
}

} // verus!
