use vstd::prelude::*;
use vstd::string::StringExecFns;

use crate::fmt::{decimal, int_text, push_decimal, push_int};
use crate::types::{BasicType, EncodingType};

verus! {

/// One operation of the postfix program that decodes a column.
#[derive(Debug, Clone, Copy, PartialEq, Eq, Structural)]
pub enum CodecOp {
    Add(EncodingType, i64),
    Delta(EncodingType),
    ToI64(EncodingType),
    PushDataSection(usize),
    DictLookup(EncodingType),
    LZ4(EncodingType, usize),
    UnpackStrings,
    Unknown,
}

/// An algebraic property that an operation may keep intact.
#[derive(Debug, Clone, Copy, PartialEq, Eq, Structural)]
pub enum Property {
    SummationPreserving,
    OrderPreserving,
    PositiveInteger,
    ElementwiseDecodable,
}

impl CodecOp {
    pub open spec fn is_known(self) -> bool {
        !(self is Unknown)
    }

    /// An operation that consumes values (anything but a data section or the opaque marker).
    pub open spec fn is_consumer(self) -> bool {
        !(self is Unknown) && !(self is PushDataSection)
    }

    pub open spec fn spec_arg_count(self) -> nat {
        match self {
            CodecOp::PushDataSection(_) => 0,
            CodecOp::DictLookup(_) => 3,
            CodecOp::Unknown => 0,
            _ => 1,
        }
    }

    pub open spec fn spec_input_type(self) -> EncodingType {
        match self {
            CodecOp::Add(t, _) => t,
            CodecOp::Delta(t) => t,
            CodecOp::ToI64(t) => t,
            CodecOp::DictLookup(t) => t,
            _ => EncodingType::U8,
        }
    }

    pub open spec fn spec_output_type(self) -> BasicType {
        match self {
            CodecOp::DictLookup(_) => BasicType::String,
            CodecOp::UnpackStrings => BasicType::String,
            _ => BasicType::Integer,
        }
    }

    /// Whether this operation keeps property `p`.
    pub open spec fn keeps(self, p: Property) -> bool {
        match self {
            CodecOp::Add(_, k) => match p {
                Property::SummationPreserving => k == 0,
                _ => true,
            },
            CodecOp::ToI64(_) => true,
            CodecOp::PushDataSection(_) => true,
            CodecOp::DictLookup(_) => !(p is SummationPreserving),
            _ => false,
        }
    }

    pub fn is_push_data_section(&self) -> (r: bool)
        ensures
            r == (self is PushDataSection),
    {
        match self {
            CodecOp::PushDataSection(_) => true,
            _ => false,
        }
    }

    pub fn arg_count(&self) -> (r: usize)
        requires
            self.is_known(),
        ensures
            r == self.spec_arg_count(),
    {
        match self {
            CodecOp::PushDataSection(_) => 0,
            CodecOp::DictLookup(_) => 3,
            _ => 1,
        }
    }

    pub fn input_type(&self) -> (r: EncodingType)
        requires
            self.is_consumer(),
        ensures
            r == self.spec_input_type(),
    {
        match *self {
            CodecOp::Add(t, _) => t,
            CodecOp::Delta(t) => t,
            CodecOp::ToI64(t) => t,
            CodecOp::DictLookup(t) => t,
            _ => EncodingType::U8,
        }
    }

    pub fn output_type(&self) -> (r: BasicType)
        requires
            self.is_consumer(),
        ensures
            r == self.spec_output_type(),
    {
        match self {
            CodecOp::DictLookup(_) => BasicType::String,
            CodecOp::UnpackStrings => BasicType::String,
            _ => BasicType::Integer,
        }
    }

    pub fn keeps_property(&self, p: Property) -> (r: bool)
        requires
            self.is_known(),
        ensures
            r == self.keeps(p),
    {
        match *self {
            CodecOp::Add(_, k) => match p {
                Property::SummationPreserving => k == 0,
                _ => true,
            },
            CodecOp::ToI64(_) => true,
            CodecOp::PushDataSection(_) => true,
            CodecOp::DictLookup(_) => match p {
                Property::SummationPreserving => false,
                _ => true,
            },
            _ => false,
        }
    }

    pub fn is_summation_preserving(&self) -> (r: bool)
        requires
            self.is_known(),
        ensures
            r == self.keeps(Property::SummationPreserving),
    {
        self.keeps_property(Property::SummationPreserving)
    }

    pub fn is_order_preserving(&self) -> (r: bool)
        requires
            self.is_known(),
        ensures
            r == self.keeps(Property::OrderPreserving),
    {
        self.keeps_property(Property::OrderPreserving)
    }

    pub fn is_positive_integer(&self) -> (r: bool)
        requires
            self.is_known(),
        ensures
            r == self.keeps(Property::PositiveInteger),
    {
        self.keeps_property(Property::PositiveInteger)
    }

    pub fn is_elementwise_decodable(&self) -> (r: bool)
        requires
            self.is_known(),
        ensures
            r == self.keeps(Property::ElementwiseDecodable),
    {
        self.keeps_property(Property::ElementwiseDecodable)
    }

    /// The text of this operation's signature; `alternate` adds the constant argument.
    pub open spec fn spec_signature(self, alternate: bool) -> Seq<char> {
        match self {
            CodecOp::Add(t, k) => if alternate {
                seq!['A', 'd', 'd', '('] + t.spec_name() + seq![',', ' '] + int_text(k as int)
                    + seq![')']
            } else {
                seq!['A', 'd', 'd', '('] + t.spec_name() + seq![')']
            },
            CodecOp::Delta(t) => seq!['D', 'e', 'l', 't', 'a', '('] + t.spec_name() + seq![')'],
            CodecOp::ToI64(t) => seq!['T', 'o', 'I', '6', '4', '('] + t.spec_name() + seq![')'],
            CodecOp::PushDataSection(i) => seq!['D', 'a', 't', 'a', '('] + decimal(i as nat)
                + seq![')'],
            CodecOp::DictLookup(t) => seq!['D', 'i', 'c', 't', '('] + t.spec_name() + seq![')'],
            CodecOp::LZ4(t, n) => if alternate {
                seq!['L', 'Z', '4', '('] + t.spec_name() + seq![',', ' '] + decimal(n as nat)
                    + seq![')']
            } else {
                seq!['L', 'Z', '4', '('] + t.spec_name() + seq![')']
            },
            CodecOp::UnpackStrings => seq!['S', 't', 'r', 'U', 'n', 'p', 'a', 'c', 'k'],
            CodecOp::Unknown => seq!['U', 'n', 'k', 'n', 'o', 'w', 'n'],
        }
    }

    /// Appends this operation's signature to `s`.
    pub fn push_signature(&self, s: &mut String, alternate: bool)
        ensures
            final(s)@ == old(s)@ + self.spec_signature(alternate),
    {
        proof {
            reveal_strlit("Add(");
            reveal_strlit("Delta(");
            reveal_strlit("ToI64(");
            reveal_strlit("Data(");
            reveal_strlit("Dict(");
            reveal_strlit("LZ4(");
            reveal_strlit(", ");
            reveal_strlit(")");
            reveal_strlit("StrUnpack");
            reveal_strlit("Unknown");
        }
        let ghost s0 = s@;
        match *self {
            CodecOp::Add(t, k) => {
                s.append("Add(");
                s.append(t.name().as_str());
                if alternate {
                    s.append(", ");
                    push_int(s, k);
                }
                s.append(")");
            },
            CodecOp::Delta(t) => {
                s.append("Delta(");
                s.append(t.name().as_str());
                s.append(")");
            },
            CodecOp::ToI64(t) => {
                s.append("ToI64(");
                s.append(t.name().as_str());
                s.append(")");
            },
            CodecOp::PushDataSection(i) => {
                s.append("Data(");
                push_decimal(s, i as u64);
                s.append(")");
            },
            CodecOp::DictLookup(t) => {
                s.append("Dict(");
                s.append(t.name().as_str());
                s.append(")");
            },
            CodecOp::LZ4(t, n) => {
                s.append("LZ4(");
                s.append(t.name().as_str());
                if alternate {
                    s.append(", ");
                    push_decimal(s, n as u64);
                }
                s.append(")");
            },
            CodecOp::UnpackStrings => {
                s.append("StrUnpack");
            },
            CodecOp::Unknown => {
                s.append("Unknown");
            },
        }
        assert(s@ =~= s0 + self.spec_signature(alternate));
    }

    /// This operation's signature as a string.
    pub fn signature(&self, alternate: bool) -> (r: String)
        ensures
            r@ == self.spec_signature(alternate),
    {
        let mut s = String::new();
        self.push_signature(&mut s, alternate);
        assert(s@ =~= self.spec_signature(alternate));
        s
    }
}

} // verus!
