//! The in-memory store engine: a full emulation of the storage port backed
//! by one association table per kind, enforcing composite-key addressing
//! and optimistic-concurrency conditions. Each conditional check-and-mutate
//! is one atomic step of a call; callers running concurrently serialise
//! their calls through exclusive access to the store value.

use vstd::prelude::*;

use crate::assoc::{assoc_lookup, lemma_assoc_remove_props, lemma_assoc_set_props};
use crate::attr::{Record, rec_wf};
use crate::errors::StoreError;
use crate::store::{
    DeleteCondition, GetRequest, OpV, PutCondition, QueryRequest, QueryResponse, StoreModel,
    StoreTable, TableKind, TableV, WriteOperation, key_of, lemma_columns_distinct,
    lemma_matched_rows_sub, lemma_version_preserves_key, matched_rows, model_table,
    model_with_table, op_wf, ops_view, opt_rec_view, pairs_view, partition_column, read_version,
    recs_view, row_matches, sort_column, spec_apply_delete, spec_apply_op,
    spec_apply_ops, spec_apply_put, spec_key_of, spec_key_projection, spec_query,
    spec_query_begin, spec_query_end, spec_query_items, spec_query_last, spec_partition_column,
    spec_sort_column, spec_string_field, table_keys_valid, with_version, write_version,
};
use crate::attr::{AttrVal, AttrValue, RecV};
use crate::assoc::{assoc_index_of, lemma_assoc_index_of_absent, lemma_assoc_index_of_found};

verus! {

/// The in-memory storage engine: three tables, exclusively owned.
#[derive(Debug)]
pub struct InMemoryStore {
    pub requirements: StoreTable,
    pub spatial_distances: StoreTable,
    pub houses: StoreTable,
}

impl View for InMemoryStore {
    type V = StoreModel;

    open spec fn view(&self) -> StoreModel {
        StoreModel {
            requirements: self.requirements@,
            spatial_distances: self.spatial_distances@,
            houses: self.houses@,
        }
    }
}

impl InMemoryStore {
    /// Every table keeps unique keys, well-formed records, and files each
    /// record under the key it derives.
    pub open spec fn wf(&self) -> bool {
        &&& self.requirements.wf()
        &&& self.spatial_distances.wf()
        &&& self.houses.wf()
        &&& table_keys_valid(TableKind::Requirements, self@.requirements)
        &&& table_keys_valid(TableKind::SpatialDistances, self@.spatial_distances)
        &&& table_keys_valid(TableKind::Houses, self@.houses)
    }

    /// An empty store.
    pub fn new() -> (r: InMemoryStore)
        ensures
            r.wf(),
            r@.requirements =~= Seq::<(Seq<char>, crate::attr::RecV)>::empty(),
            r@.spatial_distances =~= Seq::<(Seq<char>, crate::attr::RecV)>::empty(),
            r@.houses =~= Seq::<(Seq<char>, crate::attr::RecV)>::empty(),
    {
        InMemoryStore {
            requirements: StoreTable::new(),
            spatial_distances: StoreTable::new(),
            houses: StoreTable::new(),
        }
    }

    /// The table a kind routes to.
    pub fn table(&self, kind: &TableKind) -> (r: &StoreTable)
        ensures
            r@ == model_table(self@, *kind),
            self.wf() ==> r.wf() && table_keys_valid(*kind, r@),
    {
        match kind {
            TableKind::Requirements => &self.requirements,
            TableKind::SpatialDistances => &self.spatial_distances,
            TableKind::Houses => &self.houses,
        }
    }

    /// Applies one conditional put.
    pub fn apply_put(&mut self, kind: TableKind, item: Record, condition: PutCondition) -> (r:
        Result<(), StoreError>)
        requires
            old(self).wf(),
            rec_wf(item@),
        ensures
            final(self).wf(),
            match spec_apply_put(model_table(old(self)@, kind), kind, item@, condition) {
                Ok(tv) => r is Ok && final(self)@ == model_with_table(old(self)@, kind, tv),
                Err(e) => r == Err::<(), StoreError>(e) && final(self)@ == old(self)@,
            },
    {
        let ghost old_tv = model_table(self@, kind);
        let key: String = match key_of(&kind, &item) {
            Ok(k) => k,
            Err(e) => {
                return Err(e);
            },
        };
        let new_version: i32 = match condition {
            PutCondition::Unconditional => 1,
            PutCondition::MustNotExist => {
                if self.table(&kind).get(&key).is_some() {
                    return Err(StoreError::ItemAlreadyExists);
                }
                1
            },
            PutCondition::DeclaredVersion(d) => {
                let stored = match self.table(&kind).get(&key) {
                    Option::None => {
                        return Err(StoreError::ItemNotFound);
                    },
                    Option::Some(rec) => rec,
                };
                match read_version(stored) {
                    Option::None => {
                        return Err(StoreError::TypeMismatch);
                    },
                    Option::Some(v) => {
                        if v < 0x7fff_ffff && d == v + 1 {
                            d
                        } else {
                            return Err(StoreError::VersionMismatch);
                        }
                    },
                }
            },
        };
        let mut stamped = item;
        write_version(&mut stamped, new_version);
        proof {
            lemma_version_preserves_key(kind, item@, new_version as int);
            lemma_assoc_set_props(old_tv, key@, stamped@);
        }
        match kind {
            TableKind::Requirements => self.requirements.set(key, stamped),
            TableKind::SpatialDistances => self.spatial_distances.set(key, stamped),
            TableKind::Houses => self.houses.set(key, stamped),
        }
        proof {
            assert(model_table(self@, kind) =~= crate::assoc::assoc_set(
                old_tv,
                key@,
                with_version(item@, new_version as int),
            ));
            lemma_table_keys_valid_after_set(kind, old_tv, key@, with_version(item@, new_version as int));
        }
        Ok(())
    }

    /// Applies one conditional delete.
    pub fn apply_delete(&mut self, kind: TableKind, key_rec: &Record, condition: DeleteCondition)
        -> (r: Result<(), StoreError>)
        requires
            old(self).wf(),
        ensures
            final(self).wf(),
            match spec_apply_delete(model_table(old(self)@, kind), kind, key_rec@, condition) {
                Ok(tv) => r is Ok && final(self)@ == model_with_table(old(self)@, kind, tv),
                Err(e) => r == Err::<(), StoreError>(e) && final(self)@ == old(self)@,
            },
    {
        let ghost old_tv = model_table(self@, kind);
        let key: String = match key_of(&kind, key_rec) {
            Ok(k) => k,
            Err(e) => {
                return Err(e);
            },
        };
        match condition {
            DeleteCondition::Unconditional => {},
            DeleteCondition::ExpectedVersion(ev) => {
                let stored = match self.table(&kind).get(&key) {
                    Option::None => {
                        return Err(StoreError::ItemNotFound);
                    },
                    Option::Some(rec) => rec,
                };
                match read_version(stored) {
                    Option::None => {
                        return Err(StoreError::TypeMismatch);
                    },
                    Option::Some(v) => {
                        if ev != v {
                            return Err(StoreError::VersionMismatch);
                        }
                    },
                }
            },
        }
        proof {
            lemma_assoc_remove_props(old_tv, key@);
        }
        match kind {
            TableKind::Requirements => self.requirements.remove(&key),
            TableKind::SpatialDistances => self.spatial_distances.remove(&key),
            TableKind::Houses => self.houses.remove(&key),
        }
        proof {
            assert(model_table(self@, kind) =~= crate::assoc::assoc_remove(old_tv, key@));
            lemma_table_keys_valid_after_remove(kind, old_tv, key@);
        }
        Ok(())
    }

    /// Executes one write operation: a put or a delete.
    pub fn write_single(&mut self, op: WriteOperation) -> (r: Result<(), StoreError>)
        requires
            old(self).wf(),
            op_wf(op@),
        ensures
            final(self).wf(),
            match spec_apply_op(old(self)@, op@) {
                Ok(m2) => r is Ok && final(self)@ == m2,
                Err(e) => r == Err::<(), StoreError>(e) && final(self)@ == old(self)@,
            },
    {
        match op {
            WriteOperation::Put(p) => self.apply_put(p.table, p.item, p.condition),
            WriteOperation::Delete(d) => self.apply_delete(d.table, &d.key, d.condition),
        }
    }

    /// Executes a batch of writes in order, stopping at the first failure;
    /// earlier operations stay applied (no cross-operation rollback).
    pub fn write(&mut self, ops: Vec<WriteOperation>) -> (r: Result<(), StoreError>)
        requires
            old(self).wf(),
            forall|i: int| 0 <= i < ops@.len() ==> op_wf(#[trigger] ops@[i]@),
        ensures
            final(self).wf(),
            r == spec_apply_ops(old(self)@, ops_view(ops@)).0,
            final(self)@ == spec_apply_ops(old(self)@, ops_view(ops@)).1,
    {
        let ghost opsv = ops_view(ops@);
        let mut ops_iter = ops;
        let n = ops_iter.len();
        let mut idx: usize = 0;
        proof {
            assert(opsv.skip(0) =~= opsv);
        }
        loop
            invariant
                opsv == ops_view(ops@),
                idx <= n,
                n == ops_iter@.len() + idx,
                opsv.len() == n,
                forall|k: int| 0 <= k < ops_iter@.len() ==> opsv[idx + k] == #[trigger] ops_iter@[k]@,
                forall|k: int| 0 <= k < ops_iter@.len() ==> op_wf(#[trigger] ops_iter@[k]@),
                self.wf(),
                spec_apply_ops(old(self)@, opsv) == spec_apply_ops(self@, opsv.skip(idx as int)),
            ensures
                self.wf(),
                spec_apply_ops(old(self)@, opsv) == (Ok::<(), StoreError>(()), self@),
            decreases n - idx,
        {
            if ops_iter.len() == 0 {
                proof {
                    assert(opsv.skip(idx as int) =~= Seq::<OpV>::empty());
                }
                break ;
            }
            let op = ops_iter.remove(0);
            proof {
                assert(op@ == opsv[idx as int]);
                assert(opsv.skip(idx as int)[0] == opsv[idx as int]);
                assert(opsv.skip(idx as int).drop_first() =~= opsv.skip(idx + 1));
            }
            let ghost pre = self@;
            match self.write_single(op) {
                Ok(_) => {},
                Err(e) => {
                    proof {
                        assert(spec_apply_op(pre, op@) == Err::<StoreModel, StoreError>(e));
                        assert(spec_apply_ops(pre, opsv.skip(idx as int)) == (
                            Err::<(), StoreError>(e),
                            pre,
                        ));
                    }
                    return Err(e);
                },
            }
            proof {
                assert(spec_apply_ops(pre, opsv.skip(idx as int)) == spec_apply_ops(
                    self@,
                    opsv.skip(idx + 1),
                ));
            }
            idx = idx + 1;
        }
        Ok(())
    }

    /// Point lookup: the stored record under the request's key, or `None`
    /// when absent.
    pub fn read_single(&self, get: &GetRequest) -> (r: Result<Option<Record>, StoreError>)
        ensures
            match spec_key_of(get.table, get.key@) {
                Err(e) => r == Err::<Option<Record>, StoreError>(e),
                Ok(k) => match assoc_lookup(model_table(self@, get.table), k) {
                    Option::None => r matches Ok(out) && out is None,
                    Option::Some(recv) => r matches Ok(Some(rec)) && rec@ == recv,
                },
            },
    {
        let key: String = match key_of(&get.table, &get.key) {
            Ok(k) => k,
            Err(e) => {
                return Err(e);
            },
        };
        match self.table(&get.table).get(&key) {
            Option::None => Ok(None),
            Option::Some(rec) => Ok(Some(rec.clone())),
        }
    }
    /// An attribute-equality query: scans the table, returns the page of
    /// matching records after the optional exclusive-start position, and
    /// the position to resume after when more matches remain.
    pub fn query(&self, q: &QueryRequest) -> (r: Result<QueryResponse, StoreError>)
        requires
            self.wf(),
        ensures
            match r {
                Err(e) => spec_query(
                    self@,
                    q.table,
                    q.field@,
                    q.value@,
                    q.limit,
                    opt_rec_view(q.exclusive_start_key),
                ) matches Err(e2) && e2 == e,
                Ok(resp) => spec_query(
                    self@,
                    q.table,
                    q.field@,
                    q.value@,
                    q.limit,
                    opt_rec_view(q.exclusive_start_key),
                ) matches Ok(pair) && recs_view(resp.items@) == pair.0 && opt_rec_view(
                    resp.last_evaluated_key,
                ) == pair.1 && resp.count == resp.items@.len(),
            },
    {
        let ghost tv = model_table(self@, q.table);
        let ghost matchedv = matched_rows(tv, q.field@, q.value@);
        let table = self.table(&q.table);

        // collect the matching rows in scan order
        let mut collected: Vec<(String, Record)> = Vec::new();
        let n = table.len();
        for i in 0..n
            invariant
                n == tv.len(),
                tv == table@,
                matchedv == matched_rows(tv, q.field@, q.value@),
                pairs_view(collected@) =~= matched_rows(tv.take(i as int), q.field@, q.value@),
        {
            let (k, rec) = table.row_at(i);
            let hit: bool = match rec.get(q.field.as_str()) {
                Option::Some(v) => v.matches(&q.value),
                Option::None => false,
            };
            proof {
                assert(tv.take(i + 1).drop_last() =~= tv.take(i as int));
                assert(tv.take(i + 1).last() == tv[i as int]);
                assert(hit == row_matches(tv[i as int], q.field@, q.value@));
            }
            if hit {
                collected.push((k.clone(), rec.clone()));
            }
            proof {
                assert(pairs_view(collected@) =~= matched_rows(tv.take(i + 1), q.field@, q.value@));
            }
        }
        proof {
            assert(tv.take(n as int) =~= tv);
            assert(pairs_view(collected@) == matchedv);
        }
        let mcount = collected.len();

        // resolve where the page begins; when the start key names no
        // matched row the page is empty, which a clamped index realises
        let mut begin: usize = 0;
        let ghost mut beginv: int = 0int;
        match &q.exclusive_start_key {
            Option::None => {},
            Option::Some(krec) => {
                let k: String = match key_of(&q.table, krec) {
                    Ok(k) => k,
                    Err(e) => {
                        return Err(e);
                    },
                };
                let mut pos: usize = 0;
                let mut found: bool = false;
                while pos < mcount
                    invariant_except_break
                        !found,
                        forall|j: int| 0 <= j < pos ==> matchedv[j].0 != k@,
                    invariant
                        mcount == matchedv.len(),
                        pos <= mcount,
                        k@ == spec_key_of(q.table, krec@)->Ok_0,
                        spec_key_of(q.table, krec@) is Ok,
                        pairs_view(collected@) == matchedv,
                        mcount == collected@.len(),
                    ensures
                        found ==> pos < mcount && matchedv[pos as int].0 == k@ && forall|j: int|
                            0 <= j < pos ==> matchedv[j].0 != k@,
                        !found ==> forall|j: int| 0 <= j < mcount ==> matchedv[j].0 != k@,
                    decreases mcount - pos,
                {
                    if collected[pos].0 == k {
                        found = true;
                        break ;
                    }
                    pos = pos + 1;
                }
                proof {
                    if found {
                        lemma_assoc_index_of_found(matchedv, k@, pos as int);
                    } else {
                        lemma_assoc_index_of_absent(matchedv, k@);
                    }
                }
                if found {
                    begin = pos + 1;
                } else {
                    begin = mcount;
                }
                proof {
                    beginv = assoc_index_of(matchedv, k@) + 1;
                }
            },
        }
        proof {
            assert(spec_query_begin(q.table, matchedv, opt_rec_view(q.exclusive_start_key))
                == Ok::<int, StoreError>(beginv));
            assert(beginv == begin as int || (beginv == mcount + 1 && begin == mcount));
        }

        // resolve where it ends
        let end: usize = if begin >= mcount {
            mcount
        } else {
            match q.limit {
                Option::Some(l) => if l < mcount - begin {
                    begin + l
                } else {
                    mcount
                },
                Option::None => mcount,
            }
        };
        let ghost endv = spec_query_end(matchedv, beginv, q.limit);

        // the page itself
        let mut items: Vec<Record> = Vec::new();
        let mut j: usize = begin;
        while j < end
            invariant
                begin <= j <= end,
                end <= mcount,
                mcount == matchedv.len(),
                mcount == collected@.len(),
                pairs_view(collected@) == matchedv,
                items@.len() == j - begin,
                forall|w: int| 0 <= w < items@.len() ==> (#[trigger] items@[w])@ == matchedv[begin
                    + w].1,
            decreases end - j,
        {
            items.push(collected[j].1.clone());
            j = j + 1;
        }
        proof {
            assert(end as int == endv || (beginv == mcount + 1 && endv == mcount && end == mcount));
            assert(recs_view(items@) =~= spec_query_items(matchedv, beginv, endv));
        }

        // the resume position, when rows remain past the page
        let last_evaluated_key: Option<Record> = if begin < end && end < mcount {
            proof {
                lemma_matched_rows_sub(tv, q.field@, q.value@);
                let w = choose|w: int| 0 <= w < tv.len() && tv[w] == matchedv[end - 1];
                assert(spec_key_of(q.table, matchedv[end - 1].1) is Ok);
            }
            let rec: &Record = &collected[end - 1].1;
            let pcol = partition_column(&q.table);
            let mut kr = Record::new();
            match rec.get(pcol) {
                Option::Some(AttrValue::S(p)) => {
                    kr.push(pcol, AttrValue::S(p.clone()));
                },
                _ => {
                    proof {
                        assert(spec_string_field(rec@, spec_partition_column(q.table)) is Ok);
                        assert(false);
                    }
                },
            }
            match sort_column(&q.table) {
                Option::None => {},
                Option::Some(scol) => {
                    match rec.get(scol) {
                        Option::Some(AttrValue::S(s)) => {
                            proof {
                                lemma_columns_distinct(q.table);
                                assert(kr@.drop_first() =~= Seq::<(Seq<char>, AttrVal)>::empty());
                                assert(crate::attr::rec_lookup(kr@.drop_first(), scol@) is None);
                                assert(crate::attr::rec_lookup(kr@, scol@) is None);
                            }
                            kr.push(scol, AttrValue::S(s.clone()));
                        },
                        _ => {
                            proof {
                                assert(spec_string_field(rec@, spec_sort_column(q.table)->Some_0)
                                    is Ok);
                                assert(false);
                            }
                        },
                    }
                },
            }
            proof {
                assert(kr@ =~= spec_key_projection(q.table, matchedv[end - 1].1));
            }
            Some(kr)
        } else {
            None
        };
        proof {
            assert(opt_rec_view(last_evaluated_key) == spec_query_last(
                q.table,
                matchedv,
                beginv,
                endv,
            ));
        }
        let count = items.len();
        Ok(QueryResponse { items, count, last_evaluated_key })
    }
}

/// A put of a record under its own derived key keeps every row filed under
/// its derived key.
proof fn lemma_table_keys_valid_after_set(kind: TableKind, tv: TableV, key: Seq<char>, item: crate::attr::RecV)
    requires
        table_keys_valid(kind, tv),
        spec_key_of(kind, item) == Ok::<_, StoreError>(key),
    ensures
        table_keys_valid(kind, crate::assoc::assoc_set(tv, key, item)),
    decreases tv.len(),
{
    let t = crate::assoc::assoc_set(tv, key, item);
    if tv.len() == 0 {
    } else if tv[0].0 == key {
        assert(t == seq![(key, item)] + tv.drop_first());
        assert forall|i: int| 0 <= i < t.len() implies spec_key_of(kind, (#[trigger] t[i]).1)
            == Ok::<_, StoreError>(t[i].0) by {
            if i > 0 {
                assert(t[i] == tv[i]);
            }
        }
    } else {
        assert(table_keys_valid(kind, tv.drop_first())) by {
            assert(forall|i: int|
                0 <= i < tv.drop_first().len() ==> #[trigger] tv.drop_first()[i] == tv[i + 1]);
        }
        lemma_table_keys_valid_after_set(kind, tv.drop_first(), key, item);
        let t2 = crate::assoc::assoc_set(tv.drop_first(), key, item);
        assert(t == seq![tv[0]] + t2);
        assert forall|i: int| 0 <= i < t.len() implies spec_key_of(kind, (#[trigger] t[i]).1)
            == Ok::<_, StoreError>(t[i].0) by {
            if i == 0 {
                assert(t[0] == tv[0]);
            } else {
                assert(t[i] == t2[i - 1]);
            }
        }
    }
}

/// A removal keeps every remaining row filed under its derived key.
proof fn lemma_table_keys_valid_after_remove(kind: TableKind, tv: TableV, key: Seq<char>)
    requires
        table_keys_valid(kind, tv),
    ensures
        table_keys_valid(kind, crate::assoc::assoc_remove(tv, key)),
    decreases tv.len(),
{
    let t = crate::assoc::assoc_remove(tv, key);
    if tv.len() == 0 {
    } else if tv[0].0 == key {
        assert(t == tv.drop_first());
        assert forall|i: int| 0 <= i < t.len() implies spec_key_of(kind, (#[trigger] t[i]).1)
            == Ok::<_, StoreError>(t[i].0) by {
            assert(t[i] == tv[i + 1]);
        }
    } else {
        assert(table_keys_valid(kind, tv.drop_first())) by {
            assert(forall|i: int|
                0 <= i < tv.drop_first().len() ==> #[trigger] tv.drop_first()[i] == tv[i + 1]);
        }
        lemma_table_keys_valid_after_remove(kind, tv.drop_first(), key);
        let t2 = crate::assoc::assoc_remove(tv.drop_first(), key);
        assert(t == seq![tv[0]] + t2);
        assert forall|i: int| 0 <= i < t.len() implies spec_key_of(kind, (#[trigger] t[i]).1)
            == Ok::<_, StoreError>(t[i].0) by {
            if i == 0 {
                assert(t[0] == tv[0]);
            } else {
                assert(t[i] == t2[i - 1]);
            }
        }
    }
}

} // verus!
