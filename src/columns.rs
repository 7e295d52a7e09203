use vstd::prelude::*;

use crate::value::ValueType;

verus! {

/// A named column of a batch, with its values in row order.
#[derive(Debug)]
pub struct Column {
    pub name: String,
    pub data: Vec<ValueType>,
}

/// A slice of a table: columns that share a row space.
#[derive(Debug)]
pub struct Batch {
    pub cols: Vec<Column>,
}

impl Column {
    pub fn new(name: &str, data: Vec<ValueType>) -> (r: Column)
        ensures
            r.name@ == name@,
            r.data == data,
    {
        Column { name: name.to_owned(), data }
    }

    pub fn get_name(&self) -> (r: &String)
        ensures
            *r == self.name,
    {
        &self.name
    }
}

} // verus!
