use vstd::prelude::*;

use crate::types::EncodingType;

verus! {

/// A raw constant as it appears in a query plan.
#[derive(Debug, Clone, PartialEq)]
pub enum RawVal {
    Int(i64),
    Str(String),
    Null,
}

/// The query-plan nodes that a codec lowers its operations into.
#[derive(Debug)]
pub enum QueryPlan {
    AddVS(EncodingType, Box<QueryPlan>, Box<QueryPlan>),
    DeltaDecode(Box<QueryPlan>, EncodingType),
    Cast(Box<QueryPlan>, EncodingType, EncodingType),
    ReadColumnSection(String, usize, Option<(usize, usize)>),
    DictLookup(Box<QueryPlan>, EncodingType, Box<QueryPlan>, Box<QueryPlan>),
    LZ4Decode(Box<QueryPlan>, usize, EncodingType),
    UnpackStrings(Box<QueryPlan>),
    InverseDictLookup(Box<QueryPlan>, Box<QueryPlan>, Box<QueryPlan>),
    Constant(RawVal, bool),
}

} // verus!
