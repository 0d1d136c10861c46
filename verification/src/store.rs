//! The storage model: table kinds with their fixed key schemas, typed
//! conditional write operations, and the association table shape the
//! in-memory engine keeps per kind.

use vstd::prelude::*;

use crate::assoc::{
    assoc_lookup, assoc_remove, assoc_set, assoc_wf, lemma_assoc_first_match, lemma_assoc_no_match,
    lemma_assoc_remove_at, lemma_assoc_remove_absent, lemma_assoc_remove_props,
    lemma_assoc_set_props, lemma_assoc_set_push, lemma_assoc_set_update,
};
use crate::attr::{AttrVal, AttrValue, Record, RecV, rec_lookup, rec_wf};
use crate::deci::{format_i32, int_text, parse_i32_chars, parse_i32_text};
use crate::errors::StoreError;
use crate::text::{chars_string, str_chars};

verus! {

/// The three tables the system owns, each with a fixed key schema.
#[derive(Clone, Copy, PartialEq, Eq, Structural, Debug)]
pub enum TableKind {
    Requirements,
    SpatialDistances,
    Houses,
}

pub open spec fn spec_partition_column(kind: TableKind) -> Seq<char> {
    match kind {
        TableKind::Requirements => "RequirementId"@,
        TableKind::SpatialDistances => "SourceIndex"@,
        TableKind::Houses => "H3Index"@,
    }
}

pub open spec fn spec_sort_column(kind: TableKind) -> Option<Seq<char>> {
    match kind {
        TableKind::Requirements => None,
        TableKind::SpatialDistances => Some("DestinationIndex"@),
        TableKind::Houses => Some("Address"@),
    }
}

/// The partition-key column of a table.
pub fn partition_column(kind: &TableKind) -> (r: &'static str)
    ensures
        r@ == spec_partition_column(*kind),
{
    match kind {
        TableKind::Requirements => "RequirementId",
        TableKind::SpatialDistances => "SourceIndex",
        TableKind::Houses => "H3Index",
    }
}

/// The sort-key column of a table, for the composite-keyed tables.
pub fn sort_column(kind: &TableKind) -> (r: Option<&'static str>)
    ensures
        match r {
            Some(c) => spec_sort_column(*kind) == Some(c@),
            None => spec_sort_column(*kind) is None,
        },
{
    match kind {
        TableKind::Requirements => None,
        TableKind::SpatialDistances => Some("DestinationIndex"),
        TableKind::Houses => Some("Address"),
    }
}

/// A composite primary key: partition value, separator, sort value.
pub open spec fn spec_join(p: Seq<char>, q: Seq<char>) -> Seq<char> {
    p + ":"@ + q
}

/// Reads a required string-tagged field out of a record view.
pub open spec fn spec_string_field(r: RecV, name: Seq<char>) -> Result<Seq<char>, StoreError> {
    match rec_lookup(r, name) {
        Option::None => Err(StoreError::MissingField),
        Option::Some(AttrVal::S(s)) => Ok(s),
        Option::Some(_) => Err(StoreError::TypeMismatch),
    }
}

/// The primary key a record addresses in its table: the partition value,
/// extended by the sort value on composite-keyed tables.
pub open spec fn spec_key_of(kind: TableKind, r: RecV) -> Result<Seq<char>, StoreError> {
    match spec_string_field(r, spec_partition_column(kind)) {
        Err(e) => Err(e),
        Ok(p) => match spec_sort_column(kind) {
            Option::None => Ok(p),
            Option::Some(col) => match spec_string_field(r, col) {
                Err(e) => Err(e),
                Ok(q) => Ok(spec_join(p, q)),
            },
        },
    }
}

/// Derives the primary key of a record for its table.
pub fn key_of(kind: &TableKind, rec: &Record) -> (r: Result<String, StoreError>)
    ensures
        match r {
            Ok(k) => spec_key_of(*kind, rec@) matches Ok(s) && s == k@,
            Err(e) => spec_key_of(*kind, rec@) matches Err(e2) && e2 == e,
        },
{
    let pcol = partition_column(kind);
    let p: String = match rec.get(pcol) {
        Option::None => {
            return Err(StoreError::MissingField);
        },
        Option::Some(AttrValue::S(s)) => s.clone(),
        Option::Some(_) => {
            return Err(StoreError::TypeMismatch);
        },
    };
    match sort_column(kind) {
        Option::None => Ok(p),
        Option::Some(scol) => {
            let q: String = match rec.get(scol) {
                Option::None => {
                    return Err(StoreError::MissingField);
                },
                Option::Some(AttrValue::S(s)) => s.clone(),
                Option::Some(_) => {
                    return Err(StoreError::TypeMismatch);
                },
            };
            Ok(p.concat(":").concat(q.as_str()))
        },
    }
}

/// The stored optimistic-concurrency version of a record, read from its
/// numeric `version` field.
pub open spec fn rec_version(r: RecV) -> Option<int> {
    match rec_lookup(r, "version"@) {
        Option::Some(AttrVal::N(s)) => parse_i32_text(s),
        _ => Option::None,
    }
}

/// A record with its `version` field set to the given value.
pub open spec fn with_version(r: RecV, v: int) -> RecV {
    assoc_set(r, "version"@, AttrVal::N(int_text(v)))
}

/// Reads the stored version of a record.
pub fn read_version(rec: &Record) -> (r: Option<i32>)
    ensures
        match r {
            Some(v) => rec_version(rec@) == Some(v as int),
            None => rec_version(rec@) is None,
        },
{
    match rec.get("version") {
        Option::Some(AttrValue::N(s)) => {
            let cs = str_chars(s.as_str());
            parse_i32_chars(&cs)
        },
        _ => None,
    }
}

/// Sets the `version` field of a record.
pub fn write_version(rec: &mut Record, v: i32)
    requires
        old(rec).wf(),
    ensures
        final(rec)@ == with_version(old(rec)@, v as int),
        final(rec).wf(),
        rec_version(final(rec)@) == Some(v as int),
{
    let digits = format_i32(v);
    let s = chars_string(&digits);
    rec.set("version", AttrValue::N(s));
    proof {
        lemma_assoc_set_props(old(rec)@, "version"@, AttrVal::N(int_text(v as int)));
        crate::deci::lemma_int_text_round_trip(v as int);
    }
}

/// The view of a table: primary key to record view, in insertion order.
pub type TableV = Seq<(Seq<char>, RecV)>;

/// One in-memory table: an ordered association list from primary key to
/// record, with unique keys.
#[derive(Debug)]
pub struct StoreTable {
    pub rows: Vec<(String, Record)>,
}

impl View for StoreTable {
    type V = TableV;

    open spec fn view(&self) -> TableV {
        Seq::new(self.rows@.len(), |i: int| (self.rows@[i].0@, self.rows@[i].1@))
    }
}

impl StoreTable {
    /// Unique keys, and well-formed records throughout.
    pub open spec fn wf(&self) -> bool {
        assoc_wf(self@) && forall|i: int| 0 <= i < self@.len() ==> rec_wf(#[trigger] self@[i].1)
    }

    pub fn new() -> (r: StoreTable)
        ensures
            r@ =~= Seq::<(Seq<char>, RecV)>::empty(),
            r.wf(),
    {
        StoreTable { rows: Vec::new() }
    }

    pub fn len(&self) -> (n: usize)
        ensures
            n == self@.len(),
    {
        self.rows.len()
    }

    pub fn row_at(&self, i: usize) -> (r: (&String, &Record))
        requires
            i < self@.len(),
        ensures
            r.0@ == self@[i as int].0,
            r.1@ == self@[i as int].1,
    {
        let pair = &self.rows[i];
        (&pair.0, &pair.1)
    }

    /// Point lookup by primary key.
    pub fn get(&self, key: &String) -> (r: Option<&Record>)
        ensures
            match r {
                Some(rec) => assoc_lookup(self@, key@) == Some(rec@),
                None => assoc_lookup(self@, key@) is None,
            },
    {
        let n = self.rows.len();
        for i in 0..n
            invariant
                n == self@.len(),
                forall|k: int| 0 <= k < i ==> self@[k].0 != key@,
        {
            if self.rows[i].0 == *key {
                proof {
                    lemma_assoc_first_match(self@, key@, i as int);
                }
                return Some(&self.rows[i].1);
            }
        }
        proof {
            lemma_assoc_no_match(self@, key@);
        }
        None
    }

    /// Inserts or replaces the record stored under the key.
    pub fn set(&mut self, key: String, rec: Record)
        requires
            old(self).wf(),
            rec_wf(rec@),
        ensures
            final(self)@ =~= assoc_set(old(self)@, key@, rec@),
            final(self).wf(),
    {
        let ghost keyv = key@;
        let ghost recv = rec@;
        let n = self.rows.len();
        let mut idx: usize = 0;
        let mut found: bool = false;
        while idx < n
            invariant_except_break
                !found,
                forall|k: int| 0 <= k < idx ==> self@[k].0 != keyv,
            invariant
                keyv == key@,
                n == self@.len(),
                idx <= n,
                self@ == old(self)@,
                self.wf(),
            ensures
                found ==> idx < n && self@[idx as int].0 == keyv && forall|k: int|
                    0 <= k < idx ==> self@[k].0 != keyv,
                !found ==> forall|k: int| 0 <= k < n ==> self@[k].0 != keyv,
            decreases n - idx,
        {
            if self.rows[idx].0 == key {
                found = true;
                break ;
            }
            idx = idx + 1;
        }
        proof {
            lemma_assoc_set_props(self@, keyv, recv);
        }
        if found {
            proof {
                lemma_assoc_set_update(self@, keyv, recv, idx as int);
            }
            self.rows[idx] = (key, rec);
            proof {
                assert(self@ =~= old(self)@.update(idx as int, (keyv, recv)));
                assert forall|i: int| 0 <= i < self@.len() implies rec_wf(#[trigger] self@[i].1) by {
                    if i != idx {
                        assert(self@[i] == old(self)@[i]);
                    }
                }
            }
        } else {
            proof {
                lemma_assoc_set_push(self@, keyv, recv);
            }
            self.rows.push((key, rec));
            proof {
                assert(self@ =~= old(self)@.push((keyv, recv)));
                assert forall|i: int| 0 <= i < self@.len() implies rec_wf(#[trigger] self@[i].1) by {
                    if i < self@.len() - 1 {
                        assert(self@[i] == old(self)@[i]);
                    }
                }
            }
        }
    }

    /// Removes the record stored under the key, if any.
    pub fn remove(&mut self, key: &String)
        requires
            old(self).wf(),
        ensures
            final(self)@ =~= assoc_remove(old(self)@, key@),
            final(self).wf(),
    {
        let ghost keyv = key@;
        let n = self.rows.len();
        let mut idx: usize = 0;
        let mut found: bool = false;
        while idx < n
            invariant_except_break
                !found,
                forall|k: int| 0 <= k < idx ==> self@[k].0 != keyv,
            invariant
                keyv == key@,
                n == self@.len(),
                idx <= n,
                self@ == old(self)@,
                self.wf(),
            ensures
                found ==> idx < n && self@[idx as int].0 == keyv && forall|k: int|
                    0 <= k < idx ==> self@[k].0 != keyv,
                !found ==> forall|k: int| 0 <= k < n ==> self@[k].0 != keyv,
            decreases n - idx,
        {
            if self.rows[idx].0 == *key {
                found = true;
                break ;
            }
            idx = idx + 1;
        }
        proof {
            lemma_assoc_remove_props(self@, keyv);
        }
        if found {
            proof {
                lemma_assoc_remove_at(self@, keyv, idx as int);
            }
            self.rows.remove(idx);
            proof {
                assert(self@ =~= old(self)@.remove(idx as int));
                assert forall|i: int| 0 <= i < self@.len() implies rec_wf(#[trigger] self@[i].1) by {
                    if i < idx {
                        assert(self@[i] == old(self)@[i]);
                    } else {
                        assert(self@[i] == old(self)@[i + 1]);
                    }
                }
            }
        } else {
            proof {
                lemma_assoc_remove_absent(self@, keyv);
            }
        }
    }
}

} // verus!

use vstd::prelude::*;

verus! {

/// A conditional put: unconditional overwrite, must-not-exist create, or an
/// optimistic update declaring the next version.
#[derive(Clone, Copy, PartialEq, Eq, Structural, Debug)]
pub enum PutCondition {
    Unconditional,
    MustNotExist,
    DeclaredVersion(i32),
}

/// A conditional delete: unconditional, or bound to the expected stored
/// version.
#[derive(Clone, Copy, PartialEq, Eq, Structural, Debug)]
pub enum DeleteCondition {
    Unconditional,
    ExpectedVersion(i32),
}

/// A put of one record into one table.
#[derive(Debug)]
pub struct PutRequest {
    pub table: TableKind,
    pub item: Record,
    pub condition: PutCondition,
}

/// A delete of one primary key from one table; `key` holds the key
/// attributes.
#[derive(Debug)]
pub struct DeleteRequest {
    pub table: TableKind,
    pub key: Record,
    pub condition: DeleteCondition,
}

/// One entry of a batch write.
#[derive(Debug)]
pub enum WriteOperation {
    Put(PutRequest),
    Delete(DeleteRequest),
}

/// A point lookup of one primary key; `key` holds the key attributes.
#[derive(Debug)]
pub struct GetRequest {
    pub table: TableKind,
    pub key: Record,
}

/// The view of a write operation.
pub enum OpV {
    Put(TableKind, RecV, PutCondition),
    Delete(TableKind, RecV, DeleteCondition),
}

impl View for WriteOperation {
    type V = OpV;

    open spec fn view(&self) -> OpV {
        match self {
            WriteOperation::Put(p) => OpV::Put(p.table, p.item@, p.condition),
            WriteOperation::Delete(d) => OpV::Delete(d.table, d.key@, d.condition),
        }
    }
}

pub open spec fn op_wf(op: OpV) -> bool {
    match op {
        OpV::Put(_, item, _) => rec_wf(item),
        OpV::Delete(_, key, _) => rec_wf(key),
    }
}

/// The full state of the store: one table per kind.
pub struct StoreModel {
    pub requirements: TableV,
    pub spatial_distances: TableV,
    pub houses: TableV,
}

pub open spec fn model_table(m: StoreModel, kind: TableKind) -> TableV {
    match kind {
        TableKind::Requirements => m.requirements,
        TableKind::SpatialDistances => m.spatial_distances,
        TableKind::Houses => m.houses,
    }
}

pub open spec fn model_with_table(m: StoreModel, kind: TableKind, tv: TableV) -> StoreModel {
    match kind {
        TableKind::Requirements => StoreModel { requirements: tv, ..m },
        TableKind::SpatialDistances => StoreModel { spatial_distances: tv, ..m },
        TableKind::Houses => StoreModel { houses: tv, ..m },
    }
}

/// What one put does to its table. A record enters with `version` 1 on any
/// create and with the declared version on an optimistic update; an update
/// succeeds only when it declares exactly one more than the stored version.
pub open spec fn spec_apply_put(tv: TableV, kind: TableKind, item: RecV, cond: PutCondition) -> Result<
    TableV,
    StoreError,
> {
    match spec_key_of(kind, item) {
        Err(e) => Err(e),
        Ok(key) => match cond {
            PutCondition::Unconditional => Ok(assoc_set(tv, key, with_version(item, 1))),
            PutCondition::MustNotExist => match assoc_lookup(tv, key) {
                Option::Some(_) => Err(StoreError::ItemAlreadyExists),
                Option::None => Ok(assoc_set(tv, key, with_version(item, 1))),
            },
            PutCondition::DeclaredVersion(d) => match assoc_lookup(tv, key) {
                Option::None => Err(StoreError::ItemNotFound),
                Option::Some(stored) => match rec_version(stored) {
                    Option::None => Err(StoreError::TypeMismatch),
                    Option::Some(v) => if d == v + 1 {
                        Ok(assoc_set(tv, key, with_version(item, d as int)))
                    } else {
                        Err(StoreError::VersionMismatch)
                    },
                },
            },
        },
    }
}

/// What one delete does to its table. A versioned delete succeeds only when
/// the expected version equals the stored one; an unconditional delete of an
/// absent key is a no-op, not an error.
pub open spec fn spec_apply_delete(
    tv: TableV,
    kind: TableKind,
    key_rec: RecV,
    cond: DeleteCondition,
) -> Result<TableV, StoreError> {
    match spec_key_of(kind, key_rec) {
        Err(e) => Err(e),
        Ok(key) => match cond {
            DeleteCondition::Unconditional => Ok(assoc_remove(tv, key)),
            DeleteCondition::ExpectedVersion(ev) => match assoc_lookup(tv, key) {
                Option::None => Err(StoreError::ItemNotFound),
                Option::Some(stored) => match rec_version(stored) {
                    Option::None => Err(StoreError::TypeMismatch),
                    Option::Some(v) => if ev == v {
                        Ok(assoc_remove(tv, key))
                    } else {
                        Err(StoreError::VersionMismatch)
                    },
                },
            },
        },
    }
}

/// What one operation does to the store.
pub open spec fn spec_apply_op(m: StoreModel, op: OpV) -> Result<StoreModel, StoreError> {
    match op {
        OpV::Put(kind, item, cond) => match spec_apply_put(model_table(m, kind), kind, item, cond) {
            Ok(tv) => Ok(model_with_table(m, kind, tv)),
            Err(e) => Err(e),
        },
        OpV::Delete(kind, key, cond) => match spec_apply_delete(
            model_table(m, kind),
            kind,
            key,
            cond,
        ) {
            Ok(tv) => Ok(model_with_table(m, kind, tv)),
            Err(e) => Err(e),
        },
    }
}

/// What a batch does: operations apply in order until the first failure;
/// earlier effects stay (no cross-operation rollback).
pub open spec fn spec_apply_ops(m: StoreModel, ops: Seq<OpV>) -> (Result<(), StoreError>, StoreModel)
    decreases ops.len(),
{
    if ops.len() == 0 {
        (Ok(()), m)
    } else {
        match spec_apply_op(m, ops[0]) {
            Err(e) => (Err(e), m),
            Ok(m2) => spec_apply_ops(m2, ops.drop_first()),
        }
    }
}

pub open spec fn ops_view(ops: Seq<WriteOperation>) -> Seq<OpV> {
    Seq::new(ops.len(), |i: int| ops[i]@)
}

/// Every row's stored key is the key its record derives: the engine only
/// files records under their own primary keys.
pub open spec fn table_keys_valid(kind: TableKind, tv: TableV) -> bool {
    forall|i: int|
        0 <= i < tv.len() ==> spec_key_of(kind, (#[trigger] tv[i]).1) == Ok::<_, StoreError>(
            tv[i].0,
        )
}

/// The key columns are distinct from the engine-managed `version` field, so
/// stamping a version never changes where a record files.
pub proof fn lemma_version_preserves_key(kind: TableKind, item: RecV, v: int)
    ensures
        spec_key_of(kind, with_version(item, v)) == spec_key_of(kind, item),
{
    reveal_strlit("version");
    reveal_strlit("RequirementId");
    reveal_strlit("SourceIndex");
    reveal_strlit("H3Index");
    reveal_strlit("DestinationIndex");
    reveal_strlit("Address");
    assert("version"@[0] == 'v');
    assert("RequirementId"@[0] == 'R');
    assert("SourceIndex"@[0] == 'S');
    assert("H3Index"@[0] == 'H');
    assert("DestinationIndex"@[0] == 'D');
    assert("Address"@[0] == 'A');
    assert(spec_partition_column(kind) != "version"@);
    assert(match spec_sort_column(kind) {
        Option::Some(c) => c != "version"@,
        Option::None => true,
    });
    if rec_wf(item) {
        lemma_assoc_set_props(item, "version"@, AttrVal::N(int_text(v)));
    } else {
        lemma_with_version_lookup(item, "version"@, AttrVal::N(int_text(v)), spec_partition_column(kind));
        match spec_sort_column(kind) {
            Option::Some(c) => {
                lemma_with_version_lookup(item, "version"@, AttrVal::N(int_text(v)), c);
            },
            Option::None => {},
        }
    }
}

/// `assoc_set` under one name leaves lookups under any other name alone,
/// with no well-formedness assumption.
pub proof fn lemma_with_version_lookup(r: RecV, name: Seq<char>, v: AttrVal, other: Seq<char>)
    requires
        other != name,
    ensures
        assoc_lookup(assoc_set(r, name, v), other) == assoc_lookup(r, other),
    decreases r.len(),
{
    let t = assoc_set(r, name, v);
    if r.len() == 0 {
        assert(t.drop_first() =~= Seq::<(Seq<char>, AttrVal)>::empty());
        assert(assoc_lookup(t.drop_first(), other) is None);
    } else if r[0].0 == name {
        assert(t.drop_first() =~= r.drop_first());
        assert(assoc_lookup(t, other) == assoc_lookup(t.drop_first(), other));
        assert(assoc_lookup(r, other) == assoc_lookup(r.drop_first(), other));
    } else {
        lemma_with_version_lookup(r.drop_first(), name, v, other);
        let t2 = assoc_set(r.drop_first(), name, v);
        assert(t == seq![r[0]] + t2);
        assert(t[0] == r[0]);
        assert(t.drop_first() =~= t2);
        if other == r[0].0 {
            assert(assoc_lookup(t, other) == Some(t[0].1));
            assert(assoc_lookup(r, other) == Some(r[0].1));
        } else {
            assert(assoc_lookup(t, other) == assoc_lookup(t2, other));
            assert(assoc_lookup(r, other) == assoc_lookup(r.drop_first(), other));
        }
    }
}

} // verus!

use vstd::prelude::*;

verus! {

/// Whether a row's record carries the queried field with exactly the
/// queried tagged value.
pub open spec fn row_matches(row: (Seq<char>, RecV), field: Seq<char>, value: AttrVal) -> bool {
    rec_lookup(row.1, field) == Some(value)
}

/// The rows a query's equality condition selects, in scan order. Scan
/// order is the table's storage order; callers may not rely on any other
/// ordering.
pub open spec fn matched_rows(tv: TableV, field: Seq<char>, value: AttrVal) -> TableV
    decreases tv.len(),
{
    if tv.len() == 0 {
        Seq::empty()
    } else {
        let rest = matched_rows(tv.drop_last(), field, value);
        if row_matches(tv.last(), field, value) {
            rest.push(tv.last())
        } else {
            rest
        }
    }
}

/// Every matched row is a row of the table.
pub proof fn lemma_matched_rows_sub(tv: TableV, field: Seq<char>, value: AttrVal)
    ensures
        forall|k: int|
            0 <= k < matched_rows(tv, field, value).len() ==> exists|j: int|
                0 <= j < tv.len() && tv[j] == #[trigger] matched_rows(tv, field, value)[k],
        forall|k: int|
            0 <= k < matched_rows(tv, field, value).len() ==> row_matches(
                #[trigger] matched_rows(tv, field, value)[k],
                field,
                value,
            ),
    decreases tv.len(),
{
    let m = matched_rows(tv, field, value);
    if tv.len() > 0 {
        lemma_matched_rows_sub(tv.drop_last(), field, value);
        let rest = matched_rows(tv.drop_last(), field, value);
        assert forall|k: int| 0 <= k < m.len() implies exists|j: int|
            0 <= j < tv.len() && tv[j] == #[trigger] m[k] by {
            if k < rest.len() {
                let w = choose|w: int|
                    0 <= w < tv.drop_last().len() && tv.drop_last()[w] == rest[k];
                assert(tv[w] == tv.drop_last()[w]);
            } else {
                assert(m[k] == tv.last());
                assert(tv[tv.len() - 1] == tv.last());
            }
        }
    }
}

/// The key attributes of a record, as a fresh record: what a paged query
/// hands back as the position to resume after.
pub open spec fn spec_key_projection(kind: TableKind, r: RecV) -> RecV {
    let p = spec_string_field(r, spec_partition_column(kind));
    match spec_sort_column(kind) {
        Option::None => seq![(spec_partition_column(kind), AttrVal::S(p->Ok_0))],
        Option::Some(c) => seq![
            (spec_partition_column(kind), AttrVal::S(p->Ok_0)),
            (c, AttrVal::S(spec_string_field(r, c)->Ok_0)),
        ],
    }
}

/// Where in the matched sequence a query starts: at the front, or just
/// past the row named by the exclusive-start key.
pub open spec fn spec_query_begin(kind: TableKind, matched: TableV, start: Option<RecV>) -> Result<
    int,
    StoreError,
> {
    match start {
        Option::None => Ok(0),
        Option::Some(krec) => match spec_key_of(kind, krec) {
            Err(e) => Err(e),
            Ok(k) => Ok(crate::assoc::assoc_index_of(matched, k) + 1),
        },
    }
}

/// Where it stops: after `limit` rows, or at the end.
pub open spec fn spec_query_end(matched: TableV, begin: int, limit: Option<usize>) -> int {
    let cap = matched.len() as int;
    let e0 = match limit {
        Option::Some(l) => begin + l,
        Option::None => cap,
    };
    if e0 > cap {
        cap
    } else {
        e0
    }
}

/// The records a query returns: the window of the matched sequence.
pub open spec fn spec_query_items(matched: TableV, begin: int, end: int) -> Seq<RecV> {
    if 0 <= begin <= end <= matched.len() {
        matched.subrange(begin, end).map_values(|row: (Seq<char>, RecV)| row.1)
    } else {
        Seq::empty()
    }
}

/// The resume position a query returns: the key attributes of the last
/// returned row, present exactly when rows were returned and matches
/// remain beyond them.
pub open spec fn spec_query_last(kind: TableKind, matched: TableV, begin: int, end: int) -> Option<
    RecV,
> {
    if 0 <= begin < end < matched.len() {
        Some(spec_key_projection(kind, matched[end - 1].1))
    } else {
        None
    }
}

/// The full answer of an attribute-equality query.
pub open spec fn spec_query(
    m: StoreModel,
    kind: TableKind,
    field: Seq<char>,
    value: AttrVal,
    limit: Option<usize>,
    start: Option<RecV>,
) -> Result<(Seq<RecV>, Option<RecV>), StoreError> {
    let matched = matched_rows(model_table(m, kind), field, value);
    match spec_query_begin(kind, matched, start) {
        Err(e) => Err(e),
        Ok(begin) => {
            let end = spec_query_end(matched, begin, limit);
            Ok((spec_query_items(matched, begin, end), spec_query_last(kind, matched, begin, end)))
        },
    }
}

/// The views of a sequence of owned records.
pub open spec fn recs_view(items: Seq<Record>) -> Seq<RecV> {
    Seq::new(items.len(), |i: int| items[i]@)
}

/// The view of an optional owned record.
pub open spec fn opt_rec_view(o: Option<Record>) -> Option<RecV> {
    match o {
        Option::Some(r) => Some(r@),
        Option::None => None,
    }
}

/// An attribute-equality query: which table, which field must equal which
/// value, an optional page size, and an optional exclusive-start position.
/// The optional secondary-index name only documents the access path; the
/// engine scans the table either way.
#[derive(Debug)]
pub struct QueryRequest {
    pub table: TableKind,
    pub index_name: Option<String>,
    pub field: String,
    pub value: AttrValue,
    pub limit: Option<usize>,
    pub exclusive_start_key: Option<Record>,
}

/// A query's answer: the matching records of the page, their count, and
/// the position to resume after, when more remain.
#[derive(Debug)]
pub struct QueryResponse {
    pub items: Vec<Record>,
    pub count: usize,
    pub last_evaluated_key: Option<Record>,
}

} // verus!

verus! {

/// The view of a vector of owned key-record pairs.
pub open spec fn pairs_view(rows: Seq<(String, Record)>) -> TableV {
    Seq::new(rows.len(), |i: int| (rows[i].0@, rows[i].1@))
}

/// Partition and sort columns never share a name.
pub proof fn lemma_columns_distinct(kind: TableKind)
    ensures
        match spec_sort_column(kind) {
            Option::Some(c) => c != spec_partition_column(kind),
            Option::None => true,
        },
{
    reveal_strlit("SourceIndex");
    reveal_strlit("DestinationIndex");
    reveal_strlit("H3Index");
    reveal_strlit("Address");
    assert("SourceIndex"@.len() == 11);
    assert("DestinationIndex"@.len() == 16);
    assert("SourceIndex"@ != "DestinationIndex"@);
    assert("H3Index"@[0] == 'H');
    assert("Address"@[0] == 'A');
    assert("H3Index"@ != "Address"@);
}

} // verus!

verus! {

/// Conditional create: creating a key that already exists fails with
/// `ItemAlreadyExists`; creating on a fresh key succeeds and stores the
/// record at version 1.
pub proof fn lemma_conditional_create(tv: TableV, kind: TableKind, item: RecV, key: Seq<char>)
    requires
        assoc_wf(tv),
        spec_key_of(kind, item) == Ok::<Seq<char>, StoreError>(key),
        rec_wf(item),
    ensures
        assoc_lookup(tv, key) is Some ==> spec_apply_put(tv, kind, item, PutCondition::MustNotExist)
            == Err::<TableV, StoreError>(StoreError::ItemAlreadyExists),
        assoc_lookup(tv, key) is None ==> (spec_apply_put(tv, kind, item, PutCondition::MustNotExist)
            matches Ok(tv2) && assoc_lookup(tv2, key) == Some(with_version(item, 1))
            && rec_version(with_version(item, 1)) == Some(1int)),
{
    if assoc_lookup(tv, key) is None {
        lemma_assoc_set_props(tv, key, with_version(item, 1));
        lemma_assoc_set_props(item, "version"@, AttrVal::N(int_text(1)));
        crate::deci::lemma_int_text_round_trip(1);
    }
}

/// Conditional update: declaring exactly one more than the stored version
/// succeeds and stores the record at the declared version; any other
/// declared version fails with `VersionMismatch`; an absent key fails with
/// `ItemNotFound`.
pub proof fn lemma_conditional_update(
    tv: TableV,
    kind: TableKind,
    item: RecV,
    key: Seq<char>,
    d: i32,
)
    requires
        assoc_wf(tv),
        spec_key_of(kind, item) == Ok::<Seq<char>, StoreError>(key),
        rec_wf(item),
    ensures
        assoc_lookup(tv, key) is None ==> spec_apply_put(
            tv,
            kind,
            item,
            PutCondition::DeclaredVersion(d),
        ) == Err::<TableV, StoreError>(StoreError::ItemNotFound),
        (assoc_lookup(tv, key) matches Some(stored) && rec_version(stored) matches Some(v) && d
            == v + 1) ==> (spec_apply_put(tv, kind, item, PutCondition::DeclaredVersion(d))
            matches Ok(tv2) && assoc_lookup(tv2, key) == Some(with_version(item, d as int))
            && rec_version(with_version(item, d as int)) == Some(d as int)),
        (assoc_lookup(tv, key) matches Some(stored) && rec_version(stored) matches Some(v) && d
            != v + 1) ==> spec_apply_put(tv, kind, item, PutCondition::DeclaredVersion(d)) == Err::<
            TableV,
            StoreError,
        >(StoreError::VersionMismatch),
{
    if assoc_lookup(tv, key) matches Some(stored) && rec_version(stored) matches Some(v) && d == v
        + 1 {
        lemma_assoc_set_props(tv, key, with_version(item, d as int));
        lemma_assoc_set_props(item, "version"@, AttrVal::N(int_text(d as int)));
        crate::deci::lemma_int_text_round_trip(d as int);
    }
}

/// Every table row whose record matches the condition appears among the
/// matched rows, and nothing else does: the query selects exactly the
/// matching set, whatever the insertion order put each row at.
pub proof fn lemma_matched_rows_complete(tv: TableV, field: Seq<char>, value: AttrVal)
    ensures
        forall|j: int|
            0 <= j < tv.len() && row_matches(#[trigger] tv[j], field, value) ==> matched_rows(
                tv,
                field,
                value,
            ).contains(tv[j]),
        forall|k: int|
            0 <= k < matched_rows(tv, field, value).len() ==> row_matches(
                #[trigger] matched_rows(tv, field, value)[k],
                field,
                value,
            ) && tv.contains(matched_rows(tv, field, value)[k]),
    decreases tv.len(),
{
    let m = matched_rows(tv, field, value);
    lemma_matched_rows_sub(tv, field, value);
    assert forall|k: int| 0 <= k < m.len() implies row_matches(#[trigger] m[k], field, value)
        && tv.contains(m[k]) by {
        let w = choose|w: int| 0 <= w < tv.len() && tv[w] == m[k];
        assert(tv.contains(m[k]));
    }
    if tv.len() > 0 {
        lemma_matched_rows_complete(tv.drop_last(), field, value);
        let rest = matched_rows(tv.drop_last(), field, value);
        assert forall|j: int|
            0 <= j < tv.len() && row_matches(#[trigger] tv[j], field, value) implies m.contains(
            tv[j],
        ) by {
            if j == tv.len() - 1 {
                assert(tv[j] == tv.last());
                if row_matches(tv.last(), field, value) {
                    assert(m[m.len() - 1] == tv.last());
                }
            } else {
                assert(tv.drop_last()[j] == tv[j]);
                assert(rest.contains(tv[j]));
                let w = choose|w: int| 0 <= w < rest.len() && rest[w] == tv[j];
                if row_matches(tv.last(), field, value) {
                    assert(m[w] == rest[w]);
                } else {
                    assert(m == rest);
                }
            }
        }
    }
}

/// What a sequence of single writes does when each is attempted whatever
/// became of the ones before it: the outcome of every write, and the state
/// they leave. This is the serialized shape of concurrent writers, each
/// issuing one conditional write.
pub open spec fn spec_apply_each(m: StoreModel, ops: Seq<OpV>) -> (
    Seq<Result<(), StoreError>>,
    StoreModel,
)
    decreases ops.len(),
{
    if ops.len() == 0 {
        (Seq::empty(), m)
    } else {
        match spec_apply_op(m, ops[0]) {
            Ok(m2) => {
                let (rest, mf) = spec_apply_each(m2, ops.drop_first());
                (seq![Ok::<(), StoreError>(())] + rest, mf)
            },
            Err(e) => {
                let (rest, mf) = spec_apply_each(m, ops.drop_first());
                (seq![Err::<(), StoreError>(e)] + rest, mf)
            },
        }
    }
}

/// Concurrent optimistic writers: of any number of conditional updates all
/// declaring version `v + 1` over the same key stored at version `v`,
/// exactly the first to run succeeds and every later one fails with
/// `VersionMismatch`, whatever order they were serialized in.
pub proof fn lemma_concurrent_version_updates(
    m: StoreModel,
    kind: TableKind,
    key: Seq<char>,
    ops: Seq<OpV>,
    v: int,
)
    requires
        assoc_wf(model_table(m, kind)),
        ops.len() >= 1,
        forall|i: int|
            0 <= i < ops.len() ==> ((#[trigger] ops[i]) matches OpV::Put(k2, item, cond) && k2
                == kind && cond == PutCondition::DeclaredVersion((v + 1) as i32) && spec_key_of(
                kind,
                item,
            ) == Ok::<Seq<char>, StoreError>(key) && rec_wf(item)),
        (assoc_lookup(model_table(m, kind), key) matches Some(stored) && rec_version(stored)
            == Some(v)),
        0 <= v + 1 <= 0x7fff_ffff,
    ensures
        ({
            let (results, _) = spec_apply_each(m, ops);
            &&& results.len() == ops.len()
            &&& results[0] == Ok::<(), StoreError>(())
            &&& forall|i: int|
                1 <= i < results.len() ==> #[trigger] results[i] == Err::<(), StoreError>(
                    StoreError::VersionMismatch,
                )
        }),
    decreases ops.len(),
{
    let op0 = ops[0];
    assert((op0 matches OpV::Put(k2, item, cond) && k2 == kind && cond
        == PutCondition::DeclaredVersion((v + 1) as i32)));
    match op0 {
        OpV::Put(_, item, _) => {
            let tv = model_table(m, kind);
            assert(spec_apply_put(tv, kind, item, PutCondition::DeclaredVersion((v + 1) as i32))
                matches Ok(tv2));
            let tv2 = spec_apply_put(
                tv,
                kind,
                item,
                PutCondition::DeclaredVersion((v + 1) as i32),
            )->Ok_0;
            lemma_assoc_set_props(tv, key, with_version(item, v + 1));
            lemma_assoc_set_props(item, "version"@, AttrVal::N(int_text(v + 1)));
            crate::deci::lemma_int_text_round_trip(v + 1);
            let m2 = model_with_table(m, kind, tv2);
            assert(model_table(m2, kind) == tv2);
            assert(assoc_lookup(tv2, key) == Some(with_version(item, v + 1)));
            assert(rec_version(with_version(item, v + 1)) == Some(v + 1));
            lemma_later_updates_fail(m2, kind, key, ops.drop_first(), v);
            let (rest, _) = spec_apply_each(m2, ops.drop_first());
            assert(spec_apply_each(m, ops).0 == seq![Ok::<(), StoreError>(())] + rest);
            assert forall|i: int| 1 <= i < spec_apply_each(m, ops).0.len() implies #[trigger] spec_apply_each(
                m,
                ops,
            ).0[i] == Err::<(), StoreError>(StoreError::VersionMismatch) by {
                assert(spec_apply_each(m, ops).0[i] == rest[i - 1]);
            }
        },
        _ => {},
    }
}

/// Once the key sits at version `v + 1`, every further update declaring
/// `v + 1` fails with `VersionMismatch` and changes nothing.
proof fn lemma_later_updates_fail(m: StoreModel, kind: TableKind, key: Seq<char>, ops: Seq<OpV>, v: int)
    requires
        forall|i: int|
            0 <= i < ops.len() ==> ((#[trigger] ops[i]) matches OpV::Put(k2, item, cond) && k2
                == kind && cond == PutCondition::DeclaredVersion((v + 1) as i32) && spec_key_of(
                kind,
                item,
            ) == Ok::<Seq<char>, StoreError>(key) && rec_wf(item)),
        (assoc_lookup(model_table(m, kind), key) matches Some(stored) && rec_version(stored)
            == Some(v + 1)),
        0 <= v + 1 <= 0x7fff_ffff,
    ensures
        ({
            let (results, mf) = spec_apply_each(m, ops);
            &&& results.len() == ops.len()
            &&& forall|i: int|
                0 <= i < results.len() ==> #[trigger] results[i] == Err::<(), StoreError>(
                    StoreError::VersionMismatch,
                )
            &&& mf == m
        }),
    decreases ops.len(),
{
    if ops.len() > 0 {
        match ops[0] {
            OpV::Put(_, item, _) => {
                assert(spec_apply_op(m, ops[0]) == Err::<StoreModel, StoreError>(
                    StoreError::VersionMismatch,
                )) by {
                    assert((v + 1) as i32 as int != (v + 1) + 1);
                }
                lemma_later_updates_fail(m, kind, key, ops.drop_first(), v);
            },
            _ => {},
        }
    }
}

} // verus!

verus! {

/// An unpaged equality query answers with exactly the set of stored
/// records whose queried field equals the queried value, and no others,
/// whatever order insertions put them in.
pub proof fn lemma_query_exact_set(
    m: StoreModel,
    kind: TableKind,
    field: Seq<char>,
    value: AttrVal,
)
    ensures
        spec_query(m, kind, field, value, None, None) is Ok,
        ({
            let items = spec_query(m, kind, field, value, None, None)->Ok_0.0;
            let tv = model_table(m, kind);
            &&& forall|k: int|
                0 <= k < items.len() ==> rec_lookup(#[trigger] items[k], field) == Some(value)
                    && exists|j: int| 0 <= j < tv.len() && tv[j].1 == items[k]
            &&& forall|j: int|
                0 <= j < tv.len() && rec_lookup((#[trigger] tv[j]).1, field) == Some(value)
                    ==> items.contains(tv[j].1)
        }),
{
    let tv = model_table(m, kind);
    let matched = matched_rows(tv, field, value);
    lemma_matched_rows_complete(tv, field, value);
    let end = spec_query_end(matched, 0, None);
    assert(end == matched.len());
    let items = spec_query(m, kind, field, value, None, None)->Ok_0.0;
    assert(items == spec_query_items(matched, 0, end));
    assert(matched.subrange(0, end) =~= matched);
    assert forall|k: int| 0 <= k < items.len() implies rec_lookup(#[trigger] items[k], field)
        == Some(value) && exists|j: int| 0 <= j < tv.len() && tv[j].1 == items[k] by {
        assert(items[k] == matched[k].1);
        assert(row_matches(matched[k], field, value));
        assert(tv.contains(matched[k]));
        let w = choose|w: int| 0 <= w < tv.len() && tv[w] == matched[k];
        assert(tv[w].1 == items[k]);
    }
    assert forall|j: int|
        0 <= j < tv.len() && rec_lookup((#[trigger] tv[j]).1, field) == Some(value) implies items.contains(
        tv[j].1,
    ) by {
        assert(row_matches(tv[j], field, value));
        assert(matched.contains(tv[j]));
        let w = choose|w: int| 0 <= w < matched.len() && matched[w] == tv[j];
        assert(items[w] == tv[j].1);
    }
}

} // verus!
