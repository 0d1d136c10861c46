//! The storage port: the abstract contract every backing store offers the
//! service layer. The in-memory engine implements it with proof; a
//! network-backed implementation lives outside the verified core and is
//! trusted to honour the same contract.

use vstd::prelude::*;

use crate::assoc::assoc_lookup;
use crate::attr::Record;
use crate::errors::StoreError;
use crate::engine::InMemoryStore;
use crate::store::{
    GetRequest, QueryRequest, QueryResponse, StoreModel, WriteOperation, model_table, op_wf,
    ops_view, opt_rec_view, recs_view, spec_apply_op, spec_apply_ops, spec_key_of, spec_query,
};

verus! {

/// The four operations of the storage port, specified against an abstract
/// store state.
pub trait StoragePort: Sized {
    /// The abstract state the implementation maintains.
    spec fn model(&self) -> StoreModel;

    /// The implementation's internal invariant.
    spec fn inv(&self) -> bool;

    /// Point lookup; `Ok(None)` when the key is absent, never an error.
    fn read_single(&self, get: &GetRequest) -> (r: Result<Option<Record>, StoreError>)
        requires
            self.inv(),
        ensures
            match spec_key_of(get.table, get.key@) {
                Err(e) => r == Err::<Option<Record>, StoreError>(e),
                Ok(k) => match assoc_lookup(model_table(self.model(), get.table), k) {
                    Option::None => r matches Ok(out) && out is None,
                    Option::Some(recv) => r matches Ok(Some(rec)) && rec@ == recv,
                },
            },
    ;

    /// One conditional put or delete, checked and applied as one atomic
    /// step.
    fn write_single(&mut self, op: WriteOperation) -> (r: Result<(), StoreError>)
        requires
            old(self).inv(),
            op_wf(op@),
        ensures
            final(self).inv(),
            match spec_apply_op(old(self).model(), op@) {
                Ok(m2) => r is Ok && final(self).model() == m2,
                Err(e) => r == Err::<(), StoreError>(e) && final(self).model() == old(
                    self,
                ).model(),
            },
    ;

    /// A batch of writes, applied in order until the first failure;
    /// effects of earlier entries stay (no cross-operation rollback).
    fn write(&mut self, ops: Vec<WriteOperation>) -> (r: Result<(), StoreError>)
        requires
            old(self).inv(),
            forall|i: int| 0 <= i < ops@.len() ==> op_wf(#[trigger] ops@[i]@),
        ensures
            final(self).inv(),
            r == spec_apply_ops(old(self).model(), ops_view(ops@)).0,
            final(self).model() == spec_apply_ops(old(self).model(), ops_view(ops@)).1,
    ;

    /// Attribute-equality query with optional paging.
    fn query(&self, q: &QueryRequest) -> (r: Result<QueryResponse, StoreError>)
        requires
            self.inv(),
        ensures
            match r {
                Err(e) => spec_query(
                    self.model(),
                    q.table,
                    q.field@,
                    q.value@,
                    q.limit,
                    opt_rec_view(q.exclusive_start_key),
                ) matches Err(e2) && e2 == e,
                Ok(resp) => spec_query(
                    self.model(),
                    q.table,
                    q.field@,
                    q.value@,
                    q.limit,
                    opt_rec_view(q.exclusive_start_key),
                ) matches Ok(pair) && recs_view(resp.items@) == pair.0 && opt_rec_view(
                    resp.last_evaluated_key,
                ) == pair.1 && resp.count == resp.items@.len(),
            },
    ;
}

impl StoragePort for InMemoryStore {
    open spec fn model(&self) -> StoreModel {
        self@
    }

    open spec fn inv(&self) -> bool {
        self.wf()
    }

    fn read_single(&self, get: &GetRequest) -> (r: Result<Option<Record>, StoreError>) {
        InMemoryStore::read_single(self, get)
    }

    fn write_single(&mut self, op: WriteOperation) -> (r: Result<(), StoreError>) {
        InMemoryStore::write_single(self, op)
    }

    fn write(&mut self, ops: Vec<WriteOperation>) -> (r: Result<(), StoreError>) {
        InMemoryStore::write(self, ops)
    }

    fn query(&self, q: &QueryRequest) -> (r: Result<QueryResponse, StoreError>) {
        InMemoryStore::query(self, q)
    }
}

} // verus!
