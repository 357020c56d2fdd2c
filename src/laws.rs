use vstd::prelude::*;
use crate::env::{
    TxnModel, TxnMode, TxnState, RkvModel, StoreError, map_get, txn_get, txn_put, txn_delete,
    write_check, delete_result, begin_read_model, begin_write_model, commit_env, commit_tables,
    open_store, store_index, names_unique, abort_env, commit_result,
};
use crate::value::ValueModel;

verus! {

/// A write transaction after putting each pair of `ops` into store `i`, in order.
pub open spec fn apply_puts(t: TxnModel, i: int, ops: Seq<(Seq<u8>, ValueModel)>) -> TxnModel
    decreases ops.len(),
{
    if ops.len() == 0 {
        t
    } else {
        txn_put(apply_puts(t, i, ops.drop_last()), i, ops.last().0, ops.last().1)
    }
}

/// The value of the last pair of `ops` whose key is `k`, if any.
pub open spec fn last_put(ops: Seq<(Seq<u8>, ValueModel)>, k: Seq<u8>) -> Option<ValueModel>
    decreases ops.len(),
{
    if ops.len() == 0 {
        None
    } else if ops.last().0 == k {
        Some(ops.last().1)
    } else {
        last_put(ops.drop_last(), k)
    }
}

/// After a run of puts, a lookup in the same transaction, and in any transaction begun
/// after it commits, finds the value of the last put of that key, or what was there
/// before where none put it.
pub proof fn lemma_last_put_wins(
    e: RkvModel,
    t: TxnModel,
    i: int,
    ops: Seq<(Seq<u8>, ValueModel)>,
    k: Seq<u8>,
)
    requires
        write_check(t, i) is Ok,
        i < e.tables.len(),
    ensures
        txn_get(apply_puts(t, i, ops), i, k) == Ok::<Option<ValueModel>, StoreError>(
            match last_put(ops, k) {
                Some(v) => Some(v),
                None => map_get(t.tables[i], k),
            },
        ),
        txn_get(begin_read_model(commit_env(e, apply_puts(t, i, ops))), i, k) == txn_get(
            apply_puts(t, i, ops),
            i,
            k,
        ),
    decreases ops.len(),
{
    lemma_puts_keep_writer(t, i, ops);
    if ops.len() > 0 {
        lemma_last_put_wins(e, t, i, ops.drop_last(), k);
    }
}

/// Puts keep a write transaction active and its stores in number.
pub proof fn lemma_puts_keep_writer(t: TxnModel, i: int, ops: Seq<(Seq<u8>, ValueModel)>)
    requires
        write_check(t, i) is Ok,
    ensures
        write_check(apply_puts(t, i, ops), i) is Ok,
        apply_puts(t, i, ops).tables.len() == t.tables.len(),
    decreases ops.len(),
{
    if ops.len() > 0 {
        lemma_puts_keep_writer(t, i, ops.drop_last());
    }
}

/// Once a delete of `k` is committed, no transaction begun afterwards finds `k`.
pub proof fn lemma_deleted_key_absent_after_commit(e: RkvModel, t: TxnModel, i: int, k: Seq<u8>)
    requires
        delete_result(t, i, k) is Ok,
        i < e.tables.len(),
    ensures
        txn_get(begin_read_model(commit_env(e, txn_delete(t, i, k))), i, k)
            == Ok::<Option<ValueModel>, StoreError>(None),
        begin_write_model(commit_env(e, txn_delete(t, i, k))) matches Some(w) && txn_get(w, i, k)
            == Ok::<Option<ValueModel>, StoreError>(None),
{
}

/// A put is seen at once by a lookup in the same transaction.
pub proof fn lemma_put_then_get(t: TxnModel, i: int, k: Seq<u8>, v: ValueModel)
    requires
        write_check(t, i) is Ok,
    ensures
        txn_get(txn_put(t, i, k, v), i, k) == Ok::<Option<ValueModel>, StoreError>(Some(v)),
{
}

/// A reader begun before a writer commits keeps its snapshot: a key that the writer
/// adds is seen by transactions begun after the commit and never by the reader, which
/// cannot change its snapshot itself.
pub proof fn lemma_reader_isolated(e: RkvModel, w: TxnModel, i: int, k: Seq<u8>, v: ValueModel)
    requires
        i < e.tables.len(),
        !e.tables[i].contains_key(k),
        write_check(w, i) is Ok,
    ensures
        txn_get(begin_read_model(e), i, k) == Ok::<Option<ValueModel>, StoreError>(None),
        txn_put(begin_read_model(e), i, k, v) == begin_read_model(e),
        txn_get(begin_read_model(commit_env(e, txn_put(w, i, k, v))), i, k)
            == Ok::<Option<ValueModel>, StoreError>(Some(v)),
{
}

/// While a writer holds the slot a second writer cannot begin; once the first commits,
/// the second begins on top of everything the first committed.
pub proof fn lemma_single_writer(e: RkvModel, w: TxnModel)
    requires
        begin_write_model(e) is Some,
        w.mode == TxnMode::Write,
        w.state == TxnState::Active,
    ensures
        begin_write_model(RkvModel { writer: true, ..e }) is None,
        begin_write_model(commit_env(RkvModel { writer: true, ..e }, w)) == Some(
            TxnModel {
                mode: TxnMode::Write,
                state: TxnState::Active,
                tables: commit_tables(e.tables, w.tables),
            },
        ),
{
}

/// Opening the same store name twice gives the same store and changes nothing the
/// second time.
pub proof fn lemma_open_store_idempotent(e: RkvModel, n: Option<Seq<char>>)
    requires
        names_unique(e.names),
    ensures
        open_store(open_store(e, n).0, n) == open_store(e, n),
{
    let (e1, i1) = open_store(e, n);
    if store_index(e.names, n) is None {
        assert(e1.names[i1] == n);
        let c = choose|j: int| 0 <= j < e1.names.len() && #[trigger] e1.names[j] == n;
        if c < i1 {
            assert(e.names[c] == n);
        }
    }
}

/// Abandoning a transaction, whatever it changed, leaves the committed contents as they
/// were for every transaction begun afterwards.
pub proof fn lemma_abort_leaves_no_trace(e: RkvModel, t: TxnModel)
    ensures
        abort_env(e, t).tables == e.tables,
        abort_env(e, t).names == e.names,
        begin_read_model(abort_env(e, t)) == begin_read_model(e),
{
}

/// A commit that is refused changes nothing: its effects become visible all at once or
/// not at all.
pub proof fn lemma_refused_commit_changes_nothing(e: RkvModel, t: TxnModel)
    requires
        commit_result(t) is Err,
    ensures
        commit_env(e, t) == e,
{
}

} // verus!
