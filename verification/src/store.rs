//! The account store: a table that interns path segments, and for every
//! account that was opened the dates between which it can be used.

use crate::account::{display_spec, AccountKind, AccountPath, AccountRef, ParsedAccount, TxnAccount};
use crate::date::{date_le, date_lt, Date};
use crate::error::{fail, reports, Error, ErrorContext, ErrorView};
use crate::text::{
    first_index, lemma_first_index_bounds, lemma_first_index_is, strings_view, strs_view,
};
use vstd::prelude::*;
use vstd::string::*;

verus! {

/// When an account was opened and, if it was closed since, when.
#[derive(Clone, Copy, Debug, PartialEq, Eq)]
pub struct AccountActivities {
    pub opened_at: Date,
    pub closed_at: Option<Date>,
}

/// The mathematical form of an [`AccountStore`]: the segment table, and the
/// activities of every account that has any.
pub struct StoreView {
    pub segments: Seq<Seq<char>>,
    pub activities: Map<AccountRef, AccountActivities>,
}

/// No entry of the table occurs twice.
pub open spec fn distinct(table: Seq<Seq<char>>) -> bool {
    forall|i: int, j: int| 0 <= i < j < table.len() ==> table[i] != table[j]
}

/// Whether `name` is in the table.
pub open spec fn known(table: Seq<Seq<char>>, name: Seq<char>) -> bool {
    first_index(table, name) < table.len()
}

/// The table once `name` is interned: unchanged if it holds `name`, else with
/// `name` appended.
pub open spec fn intern_one(table: Seq<Seq<char>>, name: Seq<char>) -> Seq<Seq<char>> {
    if known(table, name) {
        table
    } else {
        table.push(name)
    }
}

/// The table once all of `names` are interned, first to last.
pub open spec fn intern_all(table: Seq<Seq<char>>, names: Seq<Seq<char>>) -> Seq<Seq<char>>
    decreases names.len(),
{
    if names.len() == 0 {
        table
    } else {
        intern_all(intern_one(table, names[0]), names.drop_first())
    }
}

/// Whether all of `names` are in the table.
pub open spec fn all_known(table: Seq<Seq<char>>, names: Seq<Seq<char>>) -> bool {
    forall|i: int| 0 <= i < names.len() ==> known(table, #[trigger] names[i])
}

/// For each of `names`, its index in the table.
pub open spec fn indices_of(table: Seq<Seq<char>>, names: Seq<Seq<char>>) -> Seq<usize> {
    Seq::new(names.len(), |i: int| first_index(table, names[i]) as usize)
}

/// The indices of `names`, if the table holds them all.
pub open spec fn lookup_spec(table: Seq<Seq<char>>, names: Seq<Seq<char>>) -> Option<Seq<usize>> {
    if all_known(table, names) {
        Some(indices_of(table, names))
    } else {
        None
    }
}

/// Whether an account with these activities can be used on `date`: it was
/// opened by then, and not yet closed.
pub open spec fn covers(a: AccountActivities, date: Date) -> bool {
    date_le(a.opened_at, date) && (a.closed_at matches Some(closed) ==> date_lt(date, closed))
}

/// The path that `acc` resolves to, whether or not it is open.
pub open spec fn locate_spec(store: StoreView, acc: AccountPath) -> Option<AccountRef> {
    match lookup_spec(store.segments, acc.segments) {
        Some(path) => Some(AccountRef { kind: acc.kind, path }),
        None => None,
    }
}

/// Whether the account `r` can be used on `date`.
pub open spec fn valid_at(store: StoreView, r: AccountRef, date: Date) -> bool {
    store.activities.contains_key(r) && covers(store.activities[r], date)
}

/// What `acc` resolves to on `date`: its path of indices, if all its segments
/// are known and the account can be used on that day.
pub open spec fn resolve_spec(store: StoreView, acc: AccountPath, date: Date) -> Option<
    AccountRef,
> {
    match locate_spec(store, acc) {
        Some(r) => if valid_at(store, r, date) {
            Some(r)
        } else {
            None
        },
        None => None,
    }
}

/// The store after `acc` is opened on `date`: its segments are interned, and
/// its activities start anew on that day.
pub open spec fn open_spec(store: StoreView, acc: AccountPath, date: Date) -> StoreView {
    let segments = intern_all(store.segments, acc.segments);
    StoreView {
        segments,
        activities: store.activities.insert(
            AccountRef { kind: acc.kind, path: indices_of(segments, acc.segments) },
            AccountActivities { opened_at: date, closed_at: None },
        ),
    }
}

/// The store after `acc` is closed on `date`, if it can be used on that day.
pub open spec fn close_spec(store: StoreView, acc: AccountPath, date: Date) -> Option<StoreView> {
    match resolve_spec(store, acc, date) {
        Some(r) => Some(
            StoreView {
                segments: store.segments,
                activities: store.activities.insert(
                    r,
                    AccountActivities {
                        opened_at: store.activities[r].opened_at,
                        closed_at: Some(date),
                    },
                ),
            },
        ),
        None => None,
    }
}

/// The written form of the account `r`, if the table has all its indices.
pub open spec fn unresolve_spec(store: StoreView, r: AccountRef) -> Option<AccountPath> {
    if forall|i: int| 0 <= i < r.path.len() ==> r.path[i] < store.segments.len() {
        Some(
            AccountPath {
                kind: r.kind,
                segments: Seq::new(r.path.len(), |i: int| store.segments[r.path[i] as int]),
            },
        )
    } else {
        None
    }
}

/// A name that the table holds keeps its index when another is appended.
pub proof fn lemma_push_keeps_index(table: Seq<Seq<char>>, added: Seq<char>, name: Seq<char>)
    requires
        known(table, name),
    ensures
        first_index(table.push(added), name) == first_index(table, name),
        known(table.push(added), name),
{
    lemma_first_index_bounds(table, name);
    lemma_first_index_is(table.push(added), name, first_index(table, name));
}

/// A name that the table lacks gets the next free index when it is appended.
pub proof fn lemma_push_new_index(table: Seq<Seq<char>>, name: Seq<char>)
    requires
        !known(table, name),
    ensures
        first_index(table.push(name), name) == table.len(),
        known(table.push(name), name),
        distinct(table) ==> distinct(table.push(name)),
{
    lemma_first_index_bounds(table, name);
    lemma_first_index_is(table.push(name), name, table.len() as int);
}

/// Interning appends only: the table stays a prefix, stays free of
/// repetitions, keeps the indices it gave, and then holds every name.
pub proof fn lemma_intern_all(table: Seq<Seq<char>>, names: Seq<Seq<char>>)
    ensures
        table.is_prefix_of(intern_all(table, names)),
        distinct(table) ==> distinct(intern_all(table, names)),
        all_known(intern_all(table, names), names),
        forall|name: Seq<char>| #[trigger]
            known(table, name) ==> known(intern_all(table, names), name) && first_index(
                intern_all(table, names),
                name,
            ) == first_index(table, name),
    decreases names.len(),
{
    if names.len() > 0 {
        let next = intern_one(table, names[0]);
        let rest = names.drop_first();
        lemma_intern_all(next, rest);
        let last = intern_all(table, names);
        if !known(table, names[0]) {
            lemma_push_new_index(table, names[0]);
        }
        assert(known(next, names[0]));
        assert forall|name: Seq<char>| #[trigger] known(table, name) implies known(last, name)
            && first_index(last, name) == first_index(table, name) by {
            if !known(table, names[0]) {
                lemma_push_keeps_index(table, names[0], name);
            }
            assert(known(next, name));
        }
        assert forall|i: int| 0 <= i < names.len() implies known(last, #[trigger] names[i]) by {
            if i > 0 {
                assert(names[i] == rest[i - 1]);
            }
        }
    }
}

#[derive(Debug)]
struct AccountRecord {
    kind: AccountKind,
    path: Vec<usize>,
    activity: AccountActivities,
}

impl AccountRecord {
    spec fn key(self) -> AccountRef {
        AccountRef { kind: self.kind, path: self.path@ }
    }
}

/// The activities that the records hold, by account.
spec fn records_map(records: Seq<AccountRecord>) -> Map<AccountRef, AccountActivities>
    decreases records.len(),
{
    if records.len() == 0 {
        Map::empty()
    } else {
        records_map(records.drop_last()).insert(records.last().key(), records.last().activity)
    }
}

/// No two records are about the same account.
spec fn unique_keys(records: Seq<AccountRecord>) -> bool {
    forall|i: int, j: int| 0 <= i < j < records.len() ==> records[i].key() != records[j].key()
}

proof fn lemma_records_map(records: Seq<AccountRecord>)
    requires
        unique_keys(records),
    ensures
        forall|k: AccountRef| #[trigger]
            records_map(records).contains_key(k) <==> exists|i: int|
                0 <= i < records.len() && #[trigger] records[i].key() == k,
        forall|i: int|
            0 <= i < records.len() ==> records_map(records).contains_key(
                #[trigger] records[i].key(),
            ) && records_map(records)[records[i].key()] == records[i].activity,
    decreases records.len(),
{
    if records.len() > 0 {
        let front = records.drop_last();
        let last = records.last();
        assert(unique_keys(front)) by {
            assert forall|i: int, j: int| 0 <= i < j < front.len() implies front[i].key()
                != front[j].key() by {
                assert(front[i] == records[i] && front[j] == records[j]);
            }
        }
        lemma_records_map(front);
        assert forall|k: AccountRef| #[trigger]
            records_map(records).contains_key(k) <==> exists|i: int|
                0 <= i < records.len() && #[trigger] records[i].key() == k by {
            if records_map(records).contains_key(k) {
                if k == last.key() {
                    assert(records[records.len() - 1].key() == k);
                } else {
                    let i = choose|i: int| 0 <= i < front.len() && #[trigger] front[i].key() == k;
                    assert(records[i].key() == k);
                }
            }
            if exists|i: int| 0 <= i < records.len() && #[trigger] records[i].key() == k {
                let i = choose|i: int| 0 <= i < records.len() && #[trigger] records[i].key() == k;
                if i < front.len() {
                    assert(front[i].key() == k);
                }
            }
        }
        assert forall|i: int| 0 <= i < records.len() implies records_map(records).contains_key(
            #[trigger] records[i].key(),
        ) && records_map(records)[records[i].key()] == records[i].activity by {
            if i < front.len() {
                assert(front[i] == records[i]);
                assert(records[i].key() != last.key());
            }
        }
    }
}

/// Interns account path segments and tracks, for every account that was
/// opened, the dates between which it can be used.
#[derive(Debug)]
pub struct AccountStore {
    segments: Vec<String>,
    records: Vec<AccountRecord>,
}

impl View for AccountStore {
    type V = StoreView;

    closed spec fn view(&self) -> StoreView {
        StoreView {
            segments: strings_view(self.segments@),
            activities: records_map(self.records@),
        }
    }
}

fn same_path(a: &Vec<usize>, b: &Vec<usize>) -> (r: bool)
    ensures
        r == (a@ == b@),
{
    if a.len() != b.len() {
        return false;
    }
    let mut i: usize = 0;
    while i < a.len()
        invariant
            i <= a.len(),
            a.len() == b.len(),
            forall|j: int| 0 <= j < i ==> a@[j] == b@[j],
        decreases a.len() - i,
    {
        if a[i] != b[i] {
            return false;
        }
        i += 1;
    }
    assert(a@ =~= b@);
    true
}

fn copy_path(path: &Vec<usize>) -> (r: Vec<usize>)
    ensures
        r@ == path@,
{
    let mut r: Vec<usize> = Vec::new();
    let mut i: usize = 0;
    while i < path.len()
        invariant
            i <= path.len(),
            r@ == path@.take(i as int),
        decreases path.len() - i,
    {
        r.push(path[i]);
        i += 1;
        assert(r@ =~= path@.take(i as int));
    }
    assert(path@.take(path.len() as int) =~= path@);
    r
}

impl AccountStore {
    /// The store's invariant: no segment is in the table twice, and no
    /// account has two records.
    pub closed spec fn well_formed(&self) -> bool {
        distinct(strings_view(self.segments@)) && unique_keys(self.records@)
    }

    /// The segment table of a well-formed store has no repetitions.
    pub proof fn lemma_distinct_segments(&self)
        requires
            self.well_formed(),
        ensures
            distinct(self@.segments),
    {
    }

    /// An empty store.
    pub fn new() -> (store: AccountStore)
        ensures
            store.well_formed(),
            store@.segments == Seq::<Seq<char>>::empty(),
            store@.activities == Map::<AccountRef, AccountActivities>::empty(),
    {
        let store = AccountStore { segments: Vec::new(), records: Vec::new() };
        assert(strings_view(store.segments@) =~= Seq::<Seq<char>>::empty());
        store
    }

    /// The index of `name` in the segment table, if it is there.
    fn position(&self, name: &str) -> (r: Option<usize>)
        ensures
            match r {
                Some(i) => known(self@.segments, name@) && i == first_index(
                    self@.segments,
                    name@,
                ),
                None => !known(self@.segments, name@),
            },
    {
        let mut i: usize = 0;
        while i < self.segments.len()
            invariant
                i <= self.segments.len(),
                forall|j: int| 0 <= j < i ==> strings_view(self.segments@)[j] != name@,
            decreases self.segments.len() - i,
        {
            if *self.segments[i].as_str() == *name {
                proof {
                    lemma_first_index_is(strings_view(self.segments@), name@, i as int);
                }
                return Some(i);
            }
            i += 1;
        }
        proof {
            lemma_first_index_is(strings_view(self.segments@), name@, i as int);
        }
        None
    }

    /// Interns the segments, appending those that are new, and gives the
    /// index of each.
    fn index_segments(&mut self, v: &Vec<&str>) -> (idxs: Vec<usize>)
        requires
            old(self).well_formed(),
        ensures
            final(self).well_formed(),
            final(self)@.segments == intern_all(old(self)@.segments, strs_view(v@)),
            final(self)@.activities == old(self)@.activities,
            idxs@ == indices_of(final(self)@.segments, strs_view(v@)),
    {
        let ghost names = strs_view(v@);
        let mut idxs: Vec<usize> = Vec::new();
        let mut i: usize = 0;
        assert(names.skip(0) =~= names);
        while i < v.len()
            invariant
                i <= v.len(),
                names == strs_view(v@),
                self.well_formed(),
                self.records == old(self).records,
                intern_all(old(self)@.segments, names) == intern_all(
                    self@.segments,
                    names.skip(i as int),
                ),
                idxs@.len() == i,
                forall|k: int|
                    0 <= k < i ==> known(self@.segments, #[trigger] names[k]) && idxs@[k]
                        == first_index(self@.segments, names[k]),
            decreases v.len() - i,
        {
            let segment = v[i];
            let ghost table = self@.segments;
            let ghost rest = names.skip(i as int);
            proof {
                assert(rest[0] == names[i as int]);
                assert(rest.drop_first() =~= names.skip(i + 1));
                assert(segment@ == names[i as int]);
            }
            let idx = match self.position(segment) {
                Some(p) => p,
                None => {
                    self.segments.push(segment.to_owned());
                    proof {
                        assert(strings_view(self.segments@) =~= table.push(segment@));
                        lemma_push_new_index(table, segment@);
                        assert forall|k: int| 0 <= k < i implies known(
                            self@.segments,
                            #[trigger] names[k],
                        ) && idxs@[k] == first_index(self@.segments, names[k]) by {
                            lemma_push_keeps_index(table, segment@, names[k]);
                        }
                    }
                    self.segments.len() - 1
                },
            };
            idxs.push(idx);
            i += 1;
        }
        proof {
            assert(names.skip(v.len() as int) =~= Seq::<Seq<char>>::empty());
            assert(idxs@ =~= indices_of(self@.segments, names));
        }
        idxs
    }

    /// The index of each segment, if the table holds them all.
    fn lookup_index(&self, v: &Vec<&str>) -> (r: Option<Vec<usize>>)
        ensures
            match r {
                Some(idxs) => lookup_spec(self@.segments, strs_view(v@)) == Some(idxs@),
                None => lookup_spec(self@.segments, strs_view(v@)) is None,
            },
    {
        let ghost names = strs_view(v@);
        let mut idxs: Vec<usize> = Vec::new();
        let mut i: usize = 0;
        while i < v.len()
            invariant
                i <= v.len(),
                names == strs_view(v@),
                idxs@.len() == i,
                forall|k: int|
                    0 <= k < i ==> known(self@.segments, #[trigger] names[k]) && idxs@[k]
                        == first_index(self@.segments, names[k]),
            decreases v.len() - i,
        {
            assert(v@[i as int]@ == names[i as int]);
            match self.position(v[i]) {
                Some(p) => {
                    idxs.push(p);
                },
                None => {
                    return None;
                },
            }
            i += 1;
        }
        assert(idxs@ =~= indices_of(self@.segments, names));
        Some(idxs)
    }

    /// The position of the record of the account, if it has one.
    fn find_record(&self, kind: AccountKind, path: &Vec<usize>) -> (r: Option<usize>)
        requires
            self.well_formed(),
        ensures
            match r {
                Some(i) => i < self.records@.len() && self.records@[i as int].key() == (AccountRef {
                    kind,
                    path: path@,
                }) && self@.activities.contains_key(AccountRef { kind, path: path@ })
                    && self@.activities[AccountRef { kind, path: path@ }]
                    == self.records@[i as int].activity,
                None => !self@.activities.contains_key(AccountRef { kind, path: path@ }),
            },
    {
        let ghost key = AccountRef { kind, path: path@ };
        let mut i: usize = 0;
        while i < self.records.len()
            invariant
                i <= self.records.len(),
                self.well_formed(),
                key == (AccountRef { kind, path: path@ }),
                forall|j: int| 0 <= j < i ==> self.records@[j].key() != key,
            decreases self.records.len() - i,
        {
            if self.records[i].kind == kind && same_path(&self.records[i].path, path) {
                proof {
                    lemma_records_map(self.records@);
                    assert(self.records@[i as int].key() == key);
                }
                return Some(i);
            }
            i += 1;
        }
        proof {
            lemma_records_map(self.records@);
        }
        None
    }

    /// Opens the account on `opened_at`: interns its segments and starts its
    /// activities anew on that day, whatever they were.
    pub fn open(&mut self, acc: &ParsedAccount<'_>, opened_at: Date) -> (r: Result<(), Error>)
        requires
            old(self).well_formed(),
        ensures
            r is Ok,
            final(self).well_formed(),
            final(self)@ == open_spec(old(self)@, acc@, opened_at),
    {
        let idxs = self.index_segments(acc.segments());
        let kind = acc.kind();
        let activity = AccountActivities { opened_at, closed_at: None };
        let ghost key = AccountRef { kind, path: idxs@ };
        let ghost before = self.records@;
        match self.find_record(kind, &idxs) {
            Some(i) => {
                let record = AccountRecord { kind, path: idxs, activity };
                self.records.set(i, record);
                proof {
                    lemma_set_record(before, i as int, record);
                }
            },
            None => {
                let record = AccountRecord { kind, path: idxs, activity };
                proof {
                    lemma_records_map(before);
                    assert(before.push(record).drop_last() =~= before);
                }
                self.records.push(record);
            },
        }
        Ok(())
    }

    /// Marks the account `txn` as closed on `at`; an error if it has no
    /// activities.
    fn close_account(&mut self, txn: &TxnAccount, at: Date) -> (r: Result<(), Error>)
        requires
            old(self).well_formed(),
        ensures
            final(self).well_formed(),
            final(self)@.segments == old(self)@.segments,
            match r {
                Ok(()) => old(self)@.activities.contains_key(txn@) && final(self)@.activities
                    == old(self)@.activities.insert(
                    txn@,
                    AccountActivities {
                        opened_at: old(self)@.activities[txn@].opened_at,
                        closed_at: Some(at),
                    },
                ),
                Err(e) => !old(self)@.activities.contains_key(txn@) && final(self)@ == old(
                    self,
                )@ && reports(e, ErrorView::NoActivities),
            },
    {
        let ghost before = self.records@;
        match self.find_record(txn.kind(), txn.path()) {
            Some(i) => {
                let record = AccountRecord {
                    kind: txn.kind(),
                    path: copy_path(txn.path()),
                    activity: AccountActivities {
                        opened_at: self.records[i].activity.opened_at,
                        closed_at: Some(at),
                    },
                };
                self.records.set(i, record);
                proof {
                    lemma_set_record(before, i as int, record);
                }
                Ok(())
            },
            None => Err(fail(ErrorContext::NoActivities)),
        }
    }

    /// Closes the account on `at`. It must be in use on that day; from then
    /// on it is not, until it is opened again.
    pub fn close(&mut self, acc: &ParsedAccount<'_>, at: Date) -> (r: Result<(), Error>)
        requires
            old(self).well_formed(),
        ensures
            final(self).well_formed(),
            match r {
                Ok(()) => close_spec(old(self)@, acc@, at) == Some(final(self)@),
                Err(e) => close_spec(old(self)@, acc@, at) is None && final(self)@ == old(self)@
                    && reports(
                    e,
                    ErrorView::AccountNotOpened { account: display_spec(acc@), date: at },
                ),
            },
    {
        let txn_acc = match self.txnify(&at, acc) {
            Ok(t) => t,
            Err(e) => {
                return Err(e);
            },
        };
        let r = self.close_account(&txn_acc, at);
        assert(final(self)@ =~= close_spec(old(self)@, acc@, at)->0) by {
            assert(r is Ok);
        }
        r
    }

    /// `txn_acct` itself if it can be used on `date`.
    fn txn_account_valid_at(&self, date: &Date, txn_acct: TxnAccount) -> (r: Option<TxnAccount>)
        requires
            self.well_formed(),
        ensures
            match r {
                Some(t) => t == txn_acct && valid_at(self@, txn_acct@, *date),
                None => !valid_at(self@, txn_acct@, *date),
            },
    {
        match self.find_record(txn_acct.kind(), txn_acct.path()) {
            Some(i) => {
                let activity = &self.records[i].activity;
                match activity.closed_at {
                    Some(cdate) => {
                        if activity.opened_at.le(date) && date.lt(&cdate) {
                            return Some(txn_acct);
                        }
                    },
                    None => {
                        if activity.opened_at.le(date) {
                            return Some(txn_acct);
                        }
                    },
                }
                None
            },
            None => None,
        }
    }

    /// Resolves the account for use on `date`: the indices of its segments.
    /// It fails if a segment was never interned, if the account was never
    /// opened, or if `date` is outside the time it is open.
    pub fn txnify(&self, date: &Date, acc: &ParsedAccount<'_>) -> (r: Result<TxnAccount, Error>)
        requires
            self.well_formed(),
        ensures
            match r {
                Ok(t) => resolve_spec(self@, acc@, *date) == Some(t@),
                Err(e) => resolve_spec(self@, acc@, *date) is None && reports(
                    e,
                    ErrorView::AccountNotOpened { account: display_spec(acc@), date: *date },
                ),
            },
    {
        let found = match self.lookup_index(acc.segments()) {
            Some(idxs) => self.txn_account_valid_at(date, TxnAccount::from_parts(acc.kind(), idxs)),
            None => None,
        };
        match found {
            Some(t) => Ok(t),
            None => Err(
                fail(ErrorContext::AccountNotOpened { account: acc.display(), date: *date }),
            ),
        }
    }

    /// The segments at the indices `v`; an error if one is out of range.
    fn lookup_segments<'a>(&'a self, v: &Vec<usize>) -> (r: Result<Vec<&'a str>, Error>)
        ensures
            match r {
                Ok(segments) => (forall|i: int| 0 <= i < v@.len() ==> v@[i] < self@.segments.len())
                    && strs_view(segments@) == Seq::new(
                    v@.len(),
                    |i: int| self@.segments[v@[i] as int],
                ),
                Err(e) => (exists|i: int| 0 <= i < v@.len() && v@[i] >= self@.segments.len())
                    && reports(e, ErrorView::UndefinedAccount),
            },
    {
        let mut segments: Vec<&'a str> = Vec::new();
        let mut i: usize = 0;
        while i < v.len()
            invariant
                i <= v.len(),
                segments@.len() == i,
                forall|k: int| 0 <= k < i ==> v@[k] < self@.segments.len(),
                forall|k: int|
                    0 <= k < i ==> (#[trigger] segments@[k])@ == self@.segments[v@[k] as int],
            decreases v.len() - i,
        {
            let idx = v[i];
            if idx >= self.segments.len() {
                return Err(fail(ErrorContext::UndefinedAccount));
            }
            segments.push(self.segments[idx].as_str());
            i += 1;
        }
        assert(strs_view(segments@) =~= Seq::new(
            v@.len(),
            |i: int| self@.segments[v@[i] as int],
        ));
        Ok(segments)
    }

    /// The written form of a resolved account, whether it is open or not.
    pub fn accountify<'a>(&'a self, actxn: &TxnAccount) -> (r: Result<ParsedAccount<'a>, Error>)
        ensures
            match r {
                Ok(a) => unresolve_spec(self@, actxn@) == Some(a@),
                Err(e) => unresolve_spec(self@, actxn@) is None && reports(
                    e,
                    ErrorView::UndefinedAccount,
                ),
            },
    {
        match self.lookup_segments(actxn.path()) {
            Ok(segments) => Ok(ParsedAccount::from_parts(actxn.kind(), segments)),
            Err(e) => Err(e),
        }
    }
}

/// Replacing a record by one about the same account replaces that account's
/// activities and nothing else.
proof fn lemma_set_record(records: Seq<AccountRecord>, i: int, record: AccountRecord)
    requires
        unique_keys(records),
        0 <= i < records.len(),
        records[i].key() == record.key(),
    ensures
        unique_keys(records.update(i, record)),
        records_map(records.update(i, record)) == records_map(records).insert(
            record.key(),
            record.activity,
        ),
{
    let after = records.update(i, record);
    assert(unique_keys(after)) by {
        assert forall|a: int, b: int| 0 <= a < b < after.len() implies after[a].key()
            != after[b].key() by {
            assert(after[a].key() == records[a].key());
            assert(after[b].key() == records[b].key());
        }
    }
    lemma_records_map(records);
    lemma_records_map(after);
    let want = records_map(records).insert(record.key(), record.activity);
    assert forall|k: AccountRef| records_map(after).contains_key(k) <==> want.contains_key(
        k,
    ) by {
        if records_map(after).contains_key(k) {
            let j = choose|j: int| 0 <= j < after.len() && #[trigger] after[j].key() == k;
            assert(records[j].key() == k);
        }
        if want.contains_key(k) && k != record.key() {
            let j = choose|j: int| 0 <= j < records.len() && #[trigger] records[j].key() == k;
            assert(after[j].key() == k);
        }
        if k == record.key() {
            assert(after[i].key() == k);
        }
    }
    assert forall|k: AccountRef| records_map(after).contains_key(k) implies records_map(after)[k]
        == want[k] by {
        let j = choose|j: int| 0 <= j < after.len() && #[trigger] after[j].key() == k;
        if j == i {
        } else {
            assert(after[j] == records[j]);
            assert(records[j].key() == k);
        }
    }
    assert(records_map(after) =~= want);
}

} // verus!
