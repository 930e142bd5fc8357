use vstd::prelude::*;
use std::collections::HashMap;
use crate::table_schema::TableSchema;

verus! {

broadcast use vstd::std_specs::hash::group_hash_axioms;

/// The records of a table that lives in memory only, each under an id that
/// the store hands out when the record is inserted.
#[derive(Debug, PartialEq)]
pub struct TableStore {
    table_schema: TableSchema,
    records: HashMap<u64, Vec<u8>>,
    next_internal_id: u64,
}

impl TableStore {
    /// The number of columns that each record must have a byte for.
    pub closed spec fn width(&self) -> nat {
        self.table_schema.columns().len()
    }

    /// The records by id.
    pub closed spec fn stored(&self) -> Map<u64, Vec<u8>> {
        self.records@
    }

    /// The id that the next record gets.
    pub closed spec fn next_id(&self) -> u64 {
        self.next_internal_id
    }

    /// No record has an id that is still to be handed out.
    pub open spec fn wf(&self) -> bool {
        &&& self.stored().dom().finite()
        &&& forall|id: u64| self.stored().contains_key(id) ==> id < self.next_id()
    }

    /// A store without records for tables of the schema. Ids start at 1.
    pub fn new(table_schema: TableSchema) -> (store: Self)
        ensures
            store.wf(),
            store.width() == table_schema.columns().len(),
            store.stored() == Map::<u64, Vec<u8>>::empty(),
            store.next_id() == 1,
    {
        Self { table_schema, records: HashMap::new(), next_internal_id: 1 }
    }

    /// Stores a record under the next id and returns the id. Refuses,
    /// changing nothing, when the record has not one byte for each column or
    /// no id is left.
    pub fn insert_record(&mut self, record_data: Vec<u8>) -> (id: Option<u64>)
        requires
            old(self).wf(),
        ensures
            final(self).wf(),
            final(self).width() == old(self).width(),
            match id {
                Some(id) => {
                    &&& record_data@.len() == old(self).width()
                    &&& id == old(self).next_id()
                    &&& id < u64::MAX
                    &&& final(self).next_id() == id + 1
                    &&& final(self).stored() == old(self).stored().insert(id, record_data)
                },
                None => {
                    &&& record_data@.len() != old(self).width() || old(self).next_id() == u64::MAX
                    &&& final(self).stored() == old(self).stored()
                    &&& final(self).next_id() == old(self).next_id()
                },
            },
    {
        if self.table_schema.column_definitions_len() == record_data.len() && self.next_internal_id
            < u64::MAX {
            let record_id = self.next_internal_id;
            self.next_internal_id = self.next_internal_id + 1;
            self.records.insert(record_id, record_data);
            Some(record_id)
        } else {
            None
        }
    }

    /// The record with the id, if there is one.
    pub fn get_record(&self, internal_id: u64) -> (record: Option<&Vec<u8>>)
        ensures
            match record {
                Some(data) => self.stored().contains_key(internal_id) && *data
                    == self.stored()[internal_id],
                None => !self.stored().contains_key(internal_id),
            },
    {
        self.records.get(&internal_id)
    }

    /// The number of records.
    pub fn count(&self) -> (count: usize)
        ensures
            count == self.stored().len(),
    {
        self.records.len()
    }
}

} // verus!
