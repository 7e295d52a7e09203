use vstd::prelude::*;

verus! {

/// Physical encoding of the elements stored in a data section.
#[derive(Debug, Clone, Copy, PartialEq, Eq, Structural)]
pub enum EncodingType {
    U8,
    U16,
    U32,
    U64,
    I64,
    Str,
    Bool,
    Null,
}

/// Logical type of a column after full decoding.
#[derive(Debug, Clone, Copy, PartialEq, Eq, Structural)]
pub enum BasicType {
    Integer,
    String,
    Timestamp,
    Boolean,
}

impl BasicType {
    pub open spec fn spec_to_encoded(self) -> EncodingType {
        match self {
            BasicType::Integer => EncodingType::I64,
            BasicType::String => EncodingType::Str,
            BasicType::Timestamp => EncodingType::I64,
            BasicType::Boolean => EncodingType::Bool,
        }
    }

    /// The canonical encoding of a fully decoded value of this type.
    #[verifier::when_used_as_spec(spec_to_encoded)]
    pub fn to_encoded(self) -> (r: EncodingType)
        ensures
            r == self.spec_to_encoded(),
    {
        match self {
            BasicType::Integer => EncodingType::I64,
            BasicType::String => EncodingType::Str,
            BasicType::Timestamp => EncodingType::I64,
            BasicType::Boolean => EncodingType::Bool,
        }
    }
}

impl EncodingType {
    pub open spec fn spec_name(self) -> Seq<char> {
        match self {
            EncodingType::U8 => seq!['U', '8'],
            EncodingType::U16 => seq!['U', '1', '6'],
            EncodingType::U32 => seq!['U', '3', '2'],
            EncodingType::U64 => seq!['U', '6', '4'],
            EncodingType::I64 => seq!['I', '6', '4'],
            EncodingType::Str => seq!['S', 't', 'r'],
            EncodingType::Bool => seq!['B', 'o', 'o', 'l'],
            EncodingType::Null => seq!['N', 'u', 'l', 'l'],
        }
    }

    /// The debug name of the encoding (`U16`, `I64`, ...).
    pub fn name(self) -> (r: String)
        ensures
            r@ == self.spec_name(),
    {
        let s = match self {
            EncodingType::U8 => "U8",
            EncodingType::U16 => "U16",
            EncodingType::U32 => "U32",
            EncodingType::U64 => "U64",
            EncodingType::I64 => "I64",
            EncodingType::Str => "Str",
            EncodingType::Bool => "Bool",
            EncodingType::Null => "Null",
        };
        proof {
            reveal_strlit("U8");
            reveal_strlit("U16");
            reveal_strlit("U32");
            reveal_strlit("U64");
            reveal_strlit("I64");
            reveal_strlit("Str");
            reveal_strlit("Bool");
            reveal_strlit("Null");
        }
        s.to_owned()
    }
}

} // verus!
