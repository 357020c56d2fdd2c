use vstd::prelude::*;
use crate::table::{Table, Entry, Entries, contents, lookup, sorted, entries_view, is_range_from};
use crate::value::{Value, ValueModel, opt_view};

verus! {

/// What a store maps keys to, as mathematics.
pub type Contents = Map<Seq<u8>, ValueModel>;

/// The failures that the store reports to its caller.
#[derive(Debug, Clone, Copy, PartialEq, Eq, Structural)]
pub enum StoreError {
    /// Storage could not be read or written; raised where the data meets a device.
    IoError,
    /// Stored data failed a structural check on open.
    CorruptDatabase,
    /// No store of that name, or none that the transaction's snapshot knows.
    StoreNotFound,
    /// A delete named a key that is absent.
    KeyNotFound,
    /// A change, or a commit, was asked of a read transaction.
    ReadOnlyError,
    /// The transaction was already committed or abandoned.
    TransactionEnded,
    /// Making a commit durable failed; what was committed before stays.
    CommitError,
}

/// A handle to one named store of an environment.
#[derive(Debug, Clone, Copy, PartialEq, Eq, Structural)]
pub struct Store {
    pub index: usize,
}

/// Whether a transaction may only read or may also write.
#[derive(Debug, Clone, Copy, PartialEq, Eq, Structural)]
pub enum TxnMode {
    Read,
    Write,
}

/// Where a transaction stands in its lifetime.
#[derive(Debug, Clone, Copy, PartialEq, Eq, Structural)]
pub enum TxnState {
    Active,
    Committed,
    Aborted,
}

/// The value under `k` in a map of contents, if any.
pub open spec fn map_get(m: Contents, k: Seq<u8>) -> Option<ValueModel> {
    if m.contains_key(k) {
        Some(m[k])
    } else {
        None
    }
}

/// The contents of each table of a list, in order.
pub open spec fn tables_view(v: Seq<Table>) -> Seq<Contents> {
    v.map_values(|t: Table| contents(t@))
}

/// Every table of a list keeps its keys ascending.
pub open spec fn tables_wf(v: Seq<Table>) -> bool {
    forall|i: int| 0 <= i < v.len() ==> (#[trigger] v[i]).wf()
}

/// A transaction as mathematics.
pub struct TxnModel {
    pub mode: TxnMode,
    pub state: TxnState,
    pub tables: Seq<Contents>,
}

/// A read or write transaction: a private copy of every store's contents as it was
/// committed when the transaction began, with the transaction's own changes.
pub struct Transaction {
    mode: TxnMode,
    state: TxnState,
    tables: Vec<Table>,
}

impl View for Transaction {
    type V = TxnModel;

    closed spec fn view(&self) -> TxnModel {
        TxnModel { mode: self.mode, state: self.state, tables: tables_view(self.tables@) }
    }
}

/// Why a write through `t` into store `i` is refused, if it is.
pub open spec fn write_check(t: TxnModel, i: int) -> Result<(), StoreError> {
    if t.state != TxnState::Active {
        Err(StoreError::TransactionEnded)
    } else if t.mode == TxnMode::Read {
        Err(StoreError::ReadOnlyError)
    } else if !(0 <= i < t.tables.len()) {
        Err(StoreError::StoreNotFound)
    } else {
        Ok(())
    }
}

/// Why a read through `t` of store `i` is refused, if it is.
pub open spec fn read_check(t: TxnModel, i: int) -> Result<(), StoreError> {
    if t.state != TxnState::Active {
        Err(StoreError::TransactionEnded)
    } else if !(0 <= i < t.tables.len()) {
        Err(StoreError::StoreNotFound)
    } else {
        Ok(())
    }
}

/// What a lookup of `k` in store `i` through `t` answers.
pub open spec fn txn_get(t: TxnModel, i: int, k: Seq<u8>) -> Result<Option<ValueModel>, StoreError> {
    match read_check(t, i) {
        Err(e) => Err(e),
        Ok(_) => Ok(map_get(t.tables[i], k)),
    }
}

/// The transaction after putting `v` under `k` in store `i`; unchanged where refused.
pub open spec fn txn_put(t: TxnModel, i: int, k: Seq<u8>, v: ValueModel) -> TxnModel {
    if write_check(t, i) is Ok {
        TxnModel { tables: t.tables.update(i, t.tables[i].insert(k, v)), ..t }
    } else {
        t
    }
}

/// What deleting `k` from store `i` through `t` answers.
pub open spec fn delete_result(t: TxnModel, i: int, k: Seq<u8>) -> Result<(), StoreError> {
    match write_check(t, i) {
        Err(e) => Err(e),
        Ok(_) => if t.tables[i].contains_key(k) {
            Ok(())
        } else {
            Err(StoreError::KeyNotFound)
        },
    }
}

/// The transaction after deleting `k` from store `i`; unchanged where refused.
pub open spec fn txn_delete(t: TxnModel, i: int, k: Seq<u8>) -> TxnModel {
    if delete_result(t, i, k) is Ok {
        TxnModel { tables: t.tables.update(i, t.tables[i].remove(k)), ..t }
    } else {
        t
    }
}

impl Transaction {
    pub closed spec fn wf(&self) -> bool {
        tables_wf(self.tables@)
    }

    /// Whether the transaction can still be used.
    pub fn is_active(&self) -> (r: bool)
        ensures
            r == (self@.state == TxnState::Active),
    {
        self.state == TxnState::Active
    }

    /// Whether the transaction may write.
    pub fn is_writer(&self) -> (r: bool)
        ensures
            r == (self@.mode == TxnMode::Write),
    {
        self.mode == TxnMode::Write
    }

    fn check_read(&self, store: Store) -> (r: Result<(), StoreError>)
        ensures
            r == read_check(self@, store.index as int),
    {
        if self.state != TxnState::Active {
            Err(StoreError::TransactionEnded)
        } else if store.index >= self.tables.len() {
            Err(StoreError::StoreNotFound)
        } else {
            Ok(())
        }
    }

    fn check_write(&self, store: Store) -> (r: Result<(), StoreError>)
        ensures
            r == write_check(self@, store.index as int),
    {
        if self.state != TxnState::Active {
            Err(StoreError::TransactionEnded)
        } else if self.mode == TxnMode::Read {
            Err(StoreError::ReadOnlyError)
        } else if store.index >= self.tables.len() {
            Err(StoreError::StoreNotFound)
        } else {
            Ok(())
        }
    }

    /// Looks `key` up in `store` as this transaction sees it.
    pub fn get(&self, store: Store, key: &[u8]) -> (r: Result<Option<Value>, StoreError>)
        requires
            self.wf(),
        ensures
            match r {
                Ok(o) => txn_get(self@, store.index as int, key@) == Ok::<Option<ValueModel>, StoreError>(opt_view(o)),
                Err(e) => txn_get(self@, store.index as int, key@) == Err::<Option<ValueModel>, StoreError>(e),
            },
    {
        match self.check_read(store) {
            Err(e) => Err(e),
            Ok(()) => {
                let t = &self.tables[store.index];
                assert(tables_view(self.tables@)[store.index as int] == contents(t@));
                Ok(t.get(key))
            },
        }
    }

    /// Puts `value` under `key` in `store`; refused on an ended or read-only transaction.
    pub fn put(&mut self, store: Store, key: &[u8], value: Value) -> (r: Result<(), StoreError>)
        requires
            old(self).wf(),
        ensures
            final(self).wf(),
            r == write_check(old(self)@, store.index as int),
            final(self)@ == txn_put(old(self)@, store.index as int, key@, value@),
    {
        match self.check_write(store) {
            Err(e) => Err(e),
            Ok(()) => {
                let i = store.index;
                let ghost before = self.tables@;
                let mut t = self.tables[i].duplicate();
                t.put(key, value);
                self.tables.set(i, t);
                proof {
                    assert(tables_view(self.tables@) =~= tables_view(before).update(
                        i as int,
                        tables_view(before)[i as int].insert(key@, value@),
                    ));
                }
                Ok(())
            },
        }
    }

    /// Deletes `key` from `store`; `KeyNotFound` where it is absent.
    pub fn delete(&mut self, store: Store, key: &[u8]) -> (r: Result<(), StoreError>)
        requires
            old(self).wf(),
        ensures
            final(self).wf(),
            r == delete_result(old(self)@, store.index as int, key@),
            final(self)@ == txn_delete(old(self)@, store.index as int, key@),
    {
        match self.check_write(store) {
            Err(e) => Err(e),
            Ok(()) => {
                let i = store.index;
                let ghost before = self.tables@;
                let mut t = self.tables[i].duplicate();
                assert(tables_view(before)[i as int] == contents(t@));
                if t.delete(key) {
                    self.tables.set(i, t);
                    proof {
                        assert(tables_view(self.tables@) =~= tables_view(before).update(
                            i as int,
                            tables_view(before)[i as int].remove(key@),
                        ));
                    }
                    Ok(())
                } else {
                    Err(StoreError::KeyNotFound)
                }
            },
        }
    }

    /// Every entry of `store`, in ascending key order.
    pub fn iter_start(&self, store: Store) -> (r: Result<Vec<Entry>, StoreError>)
        requires
            self.wf(),
        ensures
            match r {
                Ok(v) => read_check(self@, store.index as int) is Ok && sorted(entries_view(v@))
                    && contents(entries_view(v@)) == self@.tables[store.index as int],
                Err(e) => read_check(self@, store.index as int) == Err::<(), StoreError>(e),
            },
    {
        match self.check_read(store) {
            Err(e) => Err(e),
            Ok(()) => {
                let t = &self.tables[store.index];
                assert(tables_view(self.tables@)[store.index as int] == contents(t@));
                Ok(t.entries_all())
            },
        }
    }

    /// The entries of `store` whose key does not sort before `start`, in ascending key order.
    pub fn iter_from(&self, store: Store, start: &[u8]) -> (r: Result<Vec<Entry>, StoreError>)
        requires
            self.wf(),
        ensures
            match r {
                Ok(v) => read_check(self@, store.index as int) is Ok && exists|s: Entries|
                    sorted(s) && contents(s) == self@.tables[store.index as int]
                        && #[trigger] is_range_from(s, start@, entries_view(v@)),
                Err(e) => read_check(self@, store.index as int) == Err::<(), StoreError>(e),
            },
    {
        match self.check_read(store) {
            Err(e) => Err(e),
            Ok(()) => {
                let t = &self.tables[store.index];
                assert(tables_view(self.tables@)[store.index as int] == contents(t@));
                assert(self.tables@[store.index as int].wf());
                let v = t.entries_from(start);
                assert(sorted(t@) && contents(t@) == self@.tables[store.index as int]
                    && is_range_from(t@, start@, entries_view(v@)));
                assert(exists|s: Entries| sorted(s) && contents(s) == self@.tables[store.index as int]
                    && #[trigger] is_range_from(s, start@, entries_view(v@)));
                let r: Result<Vec<Entry>, StoreError> = Ok(v);
                assert(r is Ok && r->Ok_0 == v);
                r
            },
        }
    }
}

/// An environment as mathematics: the store names, what each store holds as
/// last committed, and whether a write transaction holds the writer slot.
pub struct RkvModel {
    pub names: Seq<Option<Seq<char>>>,
    pub tables: Seq<Contents>,
    pub writer: bool,
}

/// One open database: its named stores, their committed contents, and the
/// single writer slot.
pub struct Rkv {
    names: Vec<Option<String>>,
    committed: Vec<Table>,
    writer: bool,
}

/// The model of an optional store name.
pub open spec fn name_view(n: Option<&str>) -> Option<Seq<char>> {
    match n {
        Some(s) => Some(s@),
        None => None,
    }
}

/// No store name occurs twice.
pub open spec fn names_unique(names: Seq<Option<Seq<char>>>) -> bool {
    forall|i: int, j: int| 0 <= i < j < names.len() ==> #[trigger] names[i] != #[trigger] names[j]
}

/// The place of `n` among `names`, if it is there.
pub open spec fn store_index(names: Seq<Option<Seq<char>>>, n: Option<Seq<char>>) -> Option<int> {
    if exists|i: int| 0 <= i < names.len() && #[trigger] names[i] == n {
        Some(choose|i: int| 0 <= i < names.len() && #[trigger] names[i] == n)
    } else {
        None
    }
}

/// The environment after opening store `n`, creating it empty where absent, and the
/// store's place.
pub open spec fn open_store(e: RkvModel, n: Option<Seq<char>>) -> (RkvModel, int) {
    match store_index(e.names, n) {
        Some(i) => (e, i),
        None => (
            RkvModel { names: e.names.push(n), tables: e.tables.push(Map::empty()), writer: e.writer },
            e.names.len() as int,
        ),
    }
}

/// A fresh read transaction over what `e` has committed.
pub open spec fn begin_read_model(e: RkvModel) -> TxnModel {
    TxnModel { mode: TxnMode::Read, state: TxnState::Active, tables: e.tables }
}

/// A fresh write transaction over what `e` has committed, unless the writer slot is taken.
pub open spec fn begin_write_model(e: RkvModel) -> Option<TxnModel> {
    if e.writer {
        None
    } else {
        Some(TxnModel { mode: TxnMode::Write, state: TxnState::Active, tables: e.tables })
    }
}

/// Whether committing `t` succeeds, and why not.
pub open spec fn commit_result(t: TxnModel) -> Result<(), StoreError> {
    if t.state != TxnState::Active {
        Err(StoreError::TransactionEnded)
    } else if t.mode == TxnMode::Read {
        Err(StoreError::ReadOnlyError)
    } else {
        Ok(())
    }
}

/// The committed contents after a commit of `written`: each store that the
/// transaction knew takes its contents from it, stores created since stay as they are.
pub open spec fn commit_tables(committed: Seq<Contents>, written: Seq<Contents>) -> Seq<Contents> {
    Seq::new(committed.len(), |i: int| if i < written.len() { written[i] } else { committed[i] })
}

/// The environment after committing `t`.
pub open spec fn commit_env(e: RkvModel, t: TxnModel) -> RkvModel {
    if commit_result(t) is Ok {
        RkvModel { names: e.names, tables: commit_tables(e.tables, t.tables), writer: false }
    } else {
        e
    }
}

/// The transaction after it is committed.
pub open spec fn commit_txn(t: TxnModel) -> TxnModel {
    if commit_result(t) is Ok {
        TxnModel { state: TxnState::Committed, ..t }
    } else {
        t
    }
}

/// The environment after `t` is abandoned: a writer gives its slot back.
pub open spec fn abort_env(e: RkvModel, t: TxnModel) -> RkvModel {
    if t.state == TxnState::Active && t.mode == TxnMode::Write {
        RkvModel { writer: false, ..e }
    } else {
        e
    }
}

/// The transaction after it is abandoned; its changes are dropped with it.
pub open spec fn abort_txn(t: TxnModel) -> TxnModel {
    if t.state == TxnState::Active {
        TxnModel { state: TxnState::Aborted, ..t }
    } else {
        t
    }
}

impl View for Rkv {
    type V = RkvModel;

    closed spec fn view(&self) -> RkvModel {
        RkvModel { names: self.names@.map_values(|n: Option<String>| opt_string_view(n)), tables: tables_view(self.committed@), writer: self.writer }
    }
}

/// The model of an optional owned name.
pub open spec fn opt_string_view(n: Option<String>) -> Option<Seq<char>> {
    match n {
        Some(s) => Some(s@),
        None => None,
    }
}

/// Copies of a list of tables.
fn copy_tables(v: &Vec<Table>) -> (r: Vec<Table>)
    requires
        tables_wf(v@),
    ensures
        tables_wf(r@),
        tables_view(r@) == tables_view(v@),
{
    let mut out: Vec<Table> = Vec::new();
    let mut i: usize = 0;
    while i < v.len()
        invariant
            i <= v@.len(),
            tables_wf(v@),
            tables_wf(out@),
            tables_view(out@) == tables_view(v@).subrange(0, i as int),
        decreases v@.len() - i,
    {
        assert(v@[i as int].wf());
        let t = v[i].duplicate();
        let ghost prev = out@;
        out.push(t);
        assert(tables_view(out@) =~= tables_view(prev).push(contents(t@)));
        assert(tables_view(out@) =~= tables_view(v@).subrange(0, i + 1));
        i = i + 1;
    }
    assert(tables_view(v@).subrange(0, i as int) =~= tables_view(v@));
    out
}

impl Rkv {
    pub closed spec fn wf(&self) -> bool {
        &&& self.names@.len() == self.committed@.len()
        &&& names_unique(self@.names)
        &&& tables_wf(self.committed@)
    }

    /// The store names of a well-formed environment are unique.
    pub proof fn lemma_names_unique(&self)
        requires
            self.wf(),
        ensures
            names_unique(self@.names),
    {
    }

    /// A new environment with no stores and a free writer slot.
    pub fn new() -> (r: Rkv)
        ensures
            r.wf(),
            r@.names.len() == 0,
            r@.tables.len() == 0,
            !r@.writer,
    {
        let r = Rkv { names: Vec::new(), committed: Vec::new(), writer: false };
        assert(r@.names =~= Seq::<Option<Seq<char>>>::empty());
        r
    }

    /// Whether a write transaction holds the writer slot.
    pub fn writer_busy(&self) -> (r: bool)
        ensures
            r == self@.writer,
    {
        self.writer
    }

    /// The number of stores.
    pub fn store_count(&self) -> (r: usize)
        requires
            self.wf(),
        ensures
            r == self@.names.len(),
            r == self@.tables.len(),
    {
        self.committed.len()
    }

    fn find_store(&self, name: Option<&str>) -> (r: Option<usize>)
        requires
            self.wf(),
        ensures
            match r {
                Some(i) => store_index(self@.names, name_view(name)) == Some(i as int),
                None => store_index(self@.names, name_view(name)) is None,
            },
    {
        let wanted: Option<String> = match name {
            Some(s) => Some(s.to_owned()),
            None => None,
        };
        let mut i: usize = 0;
        while i < self.names.len()
            invariant
                i <= self@.names.len(),
                self.wf(),
                self@.names.len() == self.names@.len(),
                opt_string_view(wanted) == name_view(name),
                forall|j: int| 0 <= j < i ==> #[trigger] self@.names[j] != name_view(name),
            decreases self@.names.len() - i,
        {
            assert(self@.names[i as int] == opt_string_view(self.names@[i as int]));
            let same = match &self.names[i] {
                Some(a) => match &wanted {
                    Some(b) => String::eq(a, b),
                    None => false,
                },
                None => wanted.is_none(),
            };
            if same {
                proof {
                    let n = self@.names;
                    assert(n[i as int] == name_view(name));
                    let c = choose|j: int| 0 <= j < n.len() && #[trigger] n[j] == name_view(name);
                    if c < i as int {
                        assert(n[c] != n[i as int]);
                    } else if c > i as int {
                        assert(n[i as int] != n[c]);
                    }
                }
                return Some(i);
            }
            i = i + 1;
        }
        None
    }

    /// Opens the store called `name`, or the default store where `name` is `None`,
    /// creating it empty where it does not exist yet.
    pub fn open_or_create_store(&mut self, name: Option<&str>) -> (r: Store)
        requires
            old(self).wf(),
        ensures
            final(self).wf(),
            (final(self)@, r.index as int) == open_store(old(self)@, name_view(name)),
            store_index(final(self)@.names, name_view(name)) == Some(r.index as int),
    {
        match self.find_store(name) {
            Some(i) => Store { index: i },
            None => {
                let n: Option<String> = match name {
                    Some(s) => Some(s.to_owned()),
                    None => None,
                };
                let ghost before = self@;
                let i = self.committed.len();
                self.names.push(n);
                self.committed.push(Table::new());
                proof {
                    assert(self@.names =~= before.names.push(name_view(name)));
                    assert(self@.tables =~= before.tables.push(contents(Seq::empty())));
                    assert(contents(Seq::<(Seq<u8>, ValueModel)>::empty()) =~= Map::empty());
                    assert(self.committed@[i as int].wf());
                    assert(tables_wf(self.committed@));
                    assert forall|a: int, b: int| 0 <= a < b < self@.names.len()
                        implies #[trigger] self@.names[a] != #[trigger] self@.names[b] by {
                        if b == i as int {
                            assert(before.names[a] != name_view(name));
                        }
                    }
                    assert(self@.names[i as int] == name_view(name));
                    let c = choose|j: int| 0 <= j < self@.names.len() && #[trigger] self@.names[j] == name_view(name);
                    if c < i as int {
                        assert(before.names[c] == name_view(name));
                    }
                }
                Store { index: i }
            },
        }
    }

    /// Opens the store called `name`, creating it where absent.
    pub fn open_or_create(&mut self, name: &str) -> (r: Store)
        requires
            old(self).wf(),
        ensures
            final(self).wf(),
            (final(self)@, r.index as int) == open_store(old(self)@, Some(name@)),
            store_index(final(self)@.names, Some(name@)) == Some(r.index as int),
    {
        self.open_or_create_store(Some(name))
    }

    /// Opens the default store, creating it where absent.
    pub fn open_or_create_default(&mut self) -> (r: Store)
        requires
            old(self).wf(),
        ensures
            final(self).wf(),
            (final(self)@, r.index as int) == open_store(old(self)@, None),
            store_index(final(self)@.names, None) == Some(r.index as int),
    {
        self.open_or_create_store(None)
    }

    /// Opens the store called `name` only where it exists already.
    pub fn open_existing(&self, name: Option<&str>) -> (r: Result<Store, StoreError>)
        requires
            self.wf(),
        ensures
            match store_index(self@.names, name_view(name)) {
                Some(i) => r == Ok::<Store, StoreError>(Store { index: i as usize }),
                None => r == Err::<Store, StoreError>(StoreError::StoreNotFound),
            },
    {
        match self.find_store(name) {
            Some(i) => Ok(Store { index: i }),
            None => Err(StoreError::StoreNotFound),
        }
    }

    /// Begins a read transaction over what is committed now; it never waits.
    pub fn begin_read(&self) -> (r: Transaction)
        requires
            self.wf(),
        ensures
            r.wf(),
            r@ == begin_read_model(self@),
    {
        Transaction { mode: TxnMode::Read, state: TxnState::Active, tables: copy_tables(&self.committed) }
    }

    /// Begins a write transaction and takes the writer slot; `None` while another
    /// write transaction holds it, and the caller waits for that one to end.
    pub fn begin_write(&mut self) -> (r: Option<Transaction>)
        requires
            old(self).wf(),
        ensures
            final(self).wf(),
            match r {
                Some(t) => begin_write_model(old(self)@) == Some(t@) && t.wf(),
                None => begin_write_model(old(self)@) is None,
            },
            final(self)@ == (RkvModel { writer: true, ..old(self)@ }),
    {
        if self.writer {
            None
        } else {
            self.writer = true;
            Some(Transaction { mode: TxnMode::Write, state: TxnState::Active, tables: copy_tables(&self.committed) })
        }
    }

    /// Makes every change of the write transaction `txn` visible to transactions begun
    /// afterwards, all at once, and gives the writer slot back.
    pub fn commit(&mut self, txn: &mut Transaction) -> (r: Result<(), StoreError>)
        requires
            old(self).wf(),
            old(txn).wf(),
        ensures
            final(self).wf(),
            final(txn).wf(),
            r == commit_result(old(txn)@),
            final(self)@ == commit_env(old(self)@, old(txn)@),
            final(txn)@ == commit_txn(old(txn)@),
    {
        if txn.state != TxnState::Active {
            return Err(StoreError::TransactionEnded);
        }
        if txn.mode == TxnMode::Read {
            return Err(StoreError::ReadOnlyError);
        }
        let mut next: Vec<Table> = Vec::new();
        let mut i: usize = 0;
        let n = self.committed.len();
        while i < n
            invariant
                n == self.committed@.len(),
                i <= n,
                tables_wf(self.committed@),
                tables_wf(txn.tables@),
                tables_wf(next@),
                tables_view(next@) =~= commit_tables(tables_view(self.committed@), tables_view(txn.tables@)).subrange(0, i as int),
            decreases n - i,
        {
            let t = if i < txn.tables.len() {
                assert(txn.tables@[i as int].wf());
                txn.tables[i].duplicate()
            } else {
                assert(self.committed@[i as int].wf());
                self.committed[i].duplicate()
            };
            let ghost prev = next@;
            next.push(t);
            assert(tables_view(next@) =~= tables_view(prev).push(contents(t@)));
            i = i + 1;
        }
        assert(commit_tables(tables_view(self.committed@), tables_view(txn.tables@)).subrange(0, n as int)
            =~= commit_tables(tables_view(self.committed@), tables_view(txn.tables@)));
        self.committed = next;
        self.writer = false;
        txn.state = TxnState::Committed;
        Ok(())
    }

    /// Abandons `txn`: its changes are dropped, and a writer gives its slot back.
    pub fn abort(&mut self, txn: &mut Transaction)
        requires
            old(self).wf(),
            old(txn).wf(),
        ensures
            final(self).wf(),
            final(txn).wf(),
            final(self)@ == abort_env(old(self)@, old(txn)@),
            final(txn)@ == abort_txn(old(txn)@),
    {
        if txn.state == TxnState::Active {
            if txn.mode == TxnMode::Write {
                self.writer = false;
            }
            txn.state = TxnState::Aborted;
        }
    }
}

/// Opens the store called `name`, or the default store where there is no name,
/// creating it where absent.
pub fn get_store(name: Option<&str>, env: &mut Rkv) -> (r: Store)
    requires
        old(env).wf(),
    ensures
        final(env).wf(),
        (final(env)@, r.index as int) == open_store(old(env)@, name_view(name)),
        store_index(final(env)@.names, name_view(name)) == Some(r.index as int),
{
    match name {
        Some(s) => env.open_or_create(s),
        None => env.open_or_create_default(),
    }
}

} // verus!
