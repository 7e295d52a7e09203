use colstore::codec::Codec;
use colstore::codec_op::{CodecOp, Property};
use colstore::plan::{QueryPlan, RawVal};
use colstore::types::{BasicType, EncodingType};

fn dict_lz4_ops() -> Vec<CodecOp> {
    vec![
        CodecOp::LZ4(EncodingType::U16, 20),
        CodecOp::PushDataSection(1),
        CodecOp::LZ4(EncodingType::U64, 1),
        CodecOp::PushDataSection(2),
        CodecOp::LZ4(EncodingType::U8, 3),
        CodecOp::DictLookup(EncodingType::U16),
    ]
}

fn dict_ops() -> Vec<CodecOp> {
    vec![
        CodecOp::PushDataSection(1),
        CodecOp::PushDataSection(2),
        CodecOp::DictLookup(EncodingType::U8),
    ]
}

fn input() -> Box<QueryPlan> {
    Box::new(QueryPlan::ReadColumnSection("input".to_string(), 0, None))
}

#[test]
fn test_ensure_property() {
    let codec = dict_lz4_ops();
    let (fixed_width, rest) = Codec::new(codec).ensure_property(Property::ElementwiseDecodable);
    assert_eq!(fixed_width, vec![CodecOp::LZ4(EncodingType::U16, 20)]);
    assert_eq!(
        rest,
        vec![
            CodecOp::PushDataSection(1),
            CodecOp::LZ4(EncodingType::U64, 1),
            CodecOp::PushDataSection(2),
            CodecOp::LZ4(EncodingType::U8, 3),
            CodecOp::DictLookup(EncodingType::U16),
        ]
    );
}

#[test]
fn ensure_property_keeps_every_op_in_order() {
    let ops = dict_lz4_ops();
    let c = Codec::new(ops.clone());
    for p in [
        Property::SummationPreserving,
        Property::OrderPreserving,
        Property::PositiveInteger,
        Property::ElementwiseDecodable,
    ] {
        let (rest, kept) = c.ensure_property(p);
        let mut joined = rest.clone();
        joined.extend(kept.iter().cloned());
        assert_eq!(joined, ops);
        assert!(Codec::has_property(&kept, p));
        if let Some(last) = rest.last() {
            assert!(!last.keeps_property(p));
        }
    }
}

#[test]
fn ensure_property_on_offset_codec_keeps_everything() {
    let c = Codec::integer_offset(EncodingType::U16, 7);
    let (rest, kept) = c.ensure_property(Property::OrderPreserving);
    assert!(rest.is_empty());
    assert_eq!(kept, vec![CodecOp::Add(EncodingType::U16, 7)]);
    let (rest, kept) = c.ensure_property(Property::SummationPreserving);
    assert_eq!(rest, vec![CodecOp::Add(EncodingType::U16, 7)]);
    assert!(kept.is_empty());
}

#[test]
fn cached_flags_match_walk() {
    for ops in [dict_lz4_ops(), dict_ops(), vec![CodecOp::Add(EncodingType::U8, 0)], vec![CodecOp::Delta(EncodingType::I64)]] {
        let c = Codec::new(ops.clone());
        assert_eq!(c.is_summation_preserving(), Codec::has_property(&ops, Property::SummationPreserving));
        assert_eq!(c.is_order_preserving(), Codec::has_property(&ops, Property::OrderPreserving));
        assert_eq!(c.is_positive_integer(), Codec::has_property(&ops, Property::PositiveInteger));
        assert_eq!(c.is_elementwise_decodable(), Codec::has_property(&ops, Property::ElementwiseDecodable));
    }
}

#[test]
fn dictionary_codec_properties() {
    let c = Codec::new(dict_ops());
    assert!(!c.is_summation_preserving());
    assert!(c.is_order_preserving());
    assert!(c.is_positive_integer());
    assert!(c.is_elementwise_decodable());
    assert_eq!(c.encoding_type(), EncodingType::U8);
    assert_eq!(c.decoded_type(), BasicType::String);
    assert!(!c.is_identity());
}

#[test]
fn dict_lz4_codec_properties() {
    let c = Codec::new(dict_lz4_ops());
    assert!(!c.is_order_preserving());
    assert!(!c.is_elementwise_decodable());
    assert_eq!(c.encoding_type(), EncodingType::U8);
    assert_eq!(c.decoded_type(), BasicType::String);
}

#[test]
fn offset_codec_properties() {
    let c = Codec::integer_offset(EncodingType::U16, 5);
    assert!(!c.is_summation_preserving());
    assert!(c.is_order_preserving());
    assert_eq!(c.encoding_type(), EncodingType::U16);
    assert_eq!(c.decoded_type(), BasicType::Integer);
    let z = Codec::integer_offset(EncodingType::U16, 0);
    assert!(z.is_summation_preserving());
}

#[test]
fn identity_codec() {
    let c = Codec::identity(BasicType::String);
    assert!(c.ops().is_empty());
    assert!(c.is_identity());
    assert!(c.is_summation_preserving());
    assert!(c.is_order_preserving());
    assert!(c.is_positive_integer());
    assert!(c.is_elementwise_decodable());
    assert_eq!(c.decoded_type(), BasicType::String);
    assert_eq!(c.encoding_type(), BasicType::String.to_encoded());
    assert_eq!(Codec::identity(BasicType::Integer).encoding_type(), EncodingType::I64);
}

#[test]
fn opaque_codec_keeps_given_flags() {
    let c = Codec::opaque(EncodingType::U32, BasicType::Integer, true, false, true, false);
    assert_eq!(c.ops(), &[CodecOp::Unknown]);
    assert!(c.is_summation_preserving());
    assert!(!c.is_order_preserving());
    assert!(c.is_positive_integer());
    assert!(!c.is_elementwise_decodable());
    assert_eq!(c.encoding_type(), EncodingType::U32);
}

#[test]
fn with_lz4_prepends_one_op() {
    let c = Codec::integer_offset(EncodingType::U16, 3);
    let l = c.with_lz4(40);
    assert_eq!(l.ops(), &[CodecOp::LZ4(EncodingType::U16, 40), CodecOp::Add(EncodingType::U16, 3)]);
    assert!(!l.is_elementwise_decodable());
    assert_eq!(l.encoding_type(), EncodingType::U8);
    let d = Codec::new(dict_ops()).with_lz4(9);
    assert_eq!(d.ops().len(), 4);
    assert_eq!(d.ops()[0], CodecOp::LZ4(EncodingType::U8, 9));
    let i = Codec::identity(BasicType::Integer).with_lz4(2);
    assert_eq!(i.ops(), &[CodecOp::LZ4(EncodingType::I64, 2)]);
}

#[test]
fn encode_int_offset_and_cast() {
    let c = Codec::integer_offset(EncodingType::U8, 100);
    assert_eq!(c.encode_int(150), RawVal::Int(50));
    assert_eq!(c.encode_int(-5), RawVal::Int(-105));
    let c = Codec::integer_cast(EncodingType::U32);
    assert_eq!(c.encode_int(77), RawVal::Int(77));
}

#[test]
fn encode_str_on_dictionary() {
    let c = Codec::new(dict_ops());
    let p = c.encode_str(Box::new(QueryPlan::Constant(RawVal::Str("/".to_string()), true)));
    assert_eq!(
        format!("{:?}", p),
        "InverseDictLookup(ReadColumnSection(\"COLUMN_UNSPECIFIED\", 1, None), ReadColumnSection(\"COLUMN_UNSPECIFIED\", 2, None), Constant(Str(\"/\"), true))"
    );
}

#[test]
fn decode_dictionary_plan() {
    let c = Codec::new(dict_ops());
    let p = c.decode(input());
    assert_eq!(
        format!("{:?}", p),
        "DictLookup(ReadColumnSection(\"input\", 0, None), U8, ReadColumnSection(\"COLUMN_UNSPECIFIED\", 1, None), ReadColumnSection(\"COLUMN_UNSPECIFIED\", 2, None))"
    );
}

#[test]
fn decode_offset_plan() {
    let c = Codec::integer_offset(EncodingType::U16, -4);
    let p = c.decode(input());
    assert_eq!(
        format!("{:?}", p),
        "AddVS(U16, ReadColumnSection(\"input\", 0, None), Constant(Int(-4), true))"
    );
    let c = Codec::integer_cast(EncodingType::U8).with_lz4(10);
    let p = c.decode(input());
    assert_eq!(
        format!("{:?}", p),
        "Cast(LZ4Decode(ReadColumnSection(\"input\", 0, None), 10, U8), U8, I64)"
    );
}

#[test]
fn ensure_fixed_width_decodes_compression_first() {
    let c = Codec::integer_offset(EncodingType::U16, 1).with_lz4(8);
    let (residual, plan) = c.ensure_fixed_width(input());
    assert_eq!(residual.ops(), &[CodecOp::Add(EncodingType::U16, 1)]);
    assert!(residual.is_elementwise_decodable());
    assert_eq!(format!("{:?}", plan), "LZ4Decode(ReadColumnSection(\"input\", 0, None), 8, U16)");
    let id = Codec::integer_offset(EncodingType::U16, 1);
    let (residual, plan) = id.ensure_fixed_width(input());
    assert_eq!(residual.ops(), &[CodecOp::Add(EncodingType::U16, 1)]);
    assert_eq!(format!("{:?}", plan), "ReadColumnSection(\"input\", 0, None)");
    let lz = Codec::lz4(EncodingType::U32, 3);
    let (residual, _) = lz.ensure_fixed_width(input());
    assert!(residual.is_identity());
    assert_eq!(residual.decoded_type(), BasicType::Integer);
}

#[test]
fn signature_text() {
    let c = Codec::new(dict_lz4_ops());
    assert_eq!(c.signature(false), "LZ4(U16) Data(1) LZ4(U64) Data(2) LZ4(U8) Dict(U16) ");
    assert_eq!(
        c.signature(true),
        "LZ4(U16, 20) Data(1) LZ4(U64, 1) Data(2) LZ4(U8, 3) Dict(U16) "
    );
    let o = Codec::integer_offset(EncodingType::I64, -12);
    assert_eq!(o.signature(false), "Add(I64) ");
    assert_eq!(o.signature(true), "Add(I64, -12) ");
    assert_eq!(Codec::identity(BasicType::Integer).signature(true), "");
    assert_eq!(CodecOp::UnpackStrings.signature(true), "StrUnpack");
    assert_eq!(CodecOp::Unknown.signature(false), "Unknown");
    assert_eq!(CodecOp::ToI64(EncodingType::U32).signature(false), "ToI64(U32)");
    assert_eq!(CodecOp::Delta(EncodingType::I64).signature(true), "Delta(I64)");
}

#[test]
fn decode_reads_sections_of_attached_column() {
    let mut c = Codec::new(dict_ops());
    c.set_column_name("url");
    let p = c.decode(input());
    assert_eq!(
        format!("{:?}", p),
        "DictLookup(ReadColumnSection(\"input\", 0, None), U8, ReadColumnSection(\"url\", 1, None), ReadColumnSection(\"url\", 2, None))"
    );
    let l = c.with_lz4(5);
    assert_eq!(l.signature(false), "LZ4(U8) Data(1) Data(2) Dict(U8) ");
    let q = c.encode_str(Box::new(QueryPlan::Constant(RawVal::Null, true)));
    assert!(format!("{:?}", q).contains("\"url\""));
}
